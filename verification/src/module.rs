//! A module as pseudo-procedural text: each binding as a function, with the
//! types that the declaration of its name gives to its arguments and to its
//! result.

use vstd::prelude::*;
use vstd::string::StringExecFns;
use crate::ast::Statement;
use crate::reconcile::{
    function_rendered, reconcile, reconciled, well_matched, write_function, Match, ReconcileError,
};

verus! {

/// A matched binding as a function.
pub open spec fn binding_rendered(stmts: Seq<Statement>, m: Match) -> Seq<char> {
    match (stmts[m.binding as int], stmts[m.declaration as int]) {
        (Statement::Assign(name, args, body), Statement::Prototype(_, types)) => function_rendered(
            name@,
            args@,
            types@[0],
            body@,
        ),
        _ => Seq::empty(),
    }
}

/// The first `n` matched bindings as functions.
pub open spec fn bindings_rendered(stmts: Seq<Statement>, matches: Seq<Match>, n: nat) -> Seq<
    char,
>
    decreases n,
{
    if n == 0 || n > matches.len() {
        Seq::empty()
    } else {
        bindings_rendered(stmts, matches, (n - 1) as nat) + binding_rendered(
            stmts,
            matches[n - 1],
        )
    }
}

/// A module as text: a heading with the label of the module, its bindings
/// as functions in the order in which the reconciler has put them, a
/// closing brace and three empty lines. An error where the statements
/// cannot be reconciled.
pub open spec fn module_rendered(label: Seq<char>, stmts: Seq<Statement>) -> Result<
    Seq<char>,
    ReconcileError,
> {
    match reconciled(stmts) {
        Err(e) => Err(e),
        Ok(matches) => Ok(
            "mod "@ + label + " {\n"@ + bindings_rendered(stmts, matches, matches.len())
                + "}\n\n\n\n"@,
        ),
    }
}

/// Renders the statements of a module under the given label.
pub fn render_module(label: &str, stmts: &Vec<Statement>) -> (r: Result<String, ReconcileError>)
    ensures
        match r {
            Ok(text) => module_rendered(label@, stmts@) == Ok::<Seq<char>, ReconcileError>(text@),
            Err(e) => module_rendered(label@, stmts@) == Err::<Seq<char>, ReconcileError>(e),
        },
{
    let matches = match reconcile(stmts) {
        Ok(matches) => matches,
        Err(e) => {
            return Err(e);
        },
    };
    let mut out = String::new();
    out.append("mod ");
    out.append(label);
    out.append(" {\n");
    let ghost headed = out@;
    let mut k: usize = 0;
    assert(out@ =~= headed + bindings_rendered(stmts@, matches@, 0));
    while k < matches.len()
        invariant
            k <= matches@.len(),
            forall|i: int| 0 <= i < matches@.len() ==> well_matched(stmts@, #[trigger] matches@[i]),
            out@ == headed + bindings_rendered(stmts@, matches@, k as nat),
        decreases matches@.len() - k,
    {
        let m = matches[k];
        assert(well_matched(stmts@, matches@[k as int]));
        if let Statement::Assign(name, args, body) = &stmts[m.binding] {
            if let Statement::Prototype(_, types) = &stmts[m.declaration] {
                write_function(&mut out, name, args, &types[0], body);
            }
        }
        k += 1;
        assert(out@ =~= headed + bindings_rendered(stmts@, matches@, k as nat));
    }
    out.append("}\n\n\n\n");
    assert(out@ =~= "mod "@ + label@ + " {\n"@ + bindings_rendered(
        stmts@,
        matches@,
        matches@.len(),
    ) + "}\n\n\n\n"@);
    Ok(out)
}

} // verus!
