//! The reconciler: a declared function type is unfolded into one span for
//! each argument and one for the result, each binding is matched with the
//! declaration of its name, and the bindings are put in the order in which
//! they are rendered.

use vstd::prelude::*;
use vstd::string::StringExecFns;
use crate::ast::{Expr, Statement, Ty};
use crate::render::{expr_rendered, span_rendered, ty_rendered, write_expr, write_span, write_ty};
use crate::text::chars_of;

verus! {

/// The spans of a function type: the argument span of each pair on the way
/// down its right spine, and at the end the type that is no pair, as a span
/// of its own. The last span is the result.
pub open spec fn unfolded(t: Ty) -> Seq<Seq<Ty>>
    decreases t,
{
    match t {
        Ty::Pair(argument, rest) => seq![argument@] + unfolded(*rest),
        _ => seq![seq![t]],
    }
}

/// The spans of a list of spans.
pub open spec fn span_views(spans: Seq<Vec<Ty>>) -> Seq<Seq<Ty>> {
    Seq::new(spans.len(), |k: int| spans[k]@)
}

/// An unfolded type has at least one span.
pub proof fn lemma_unfolded_not_empty(t: Ty)
    ensures
        unfolded(t).len() >= 1,
    decreases t,
{
    match t {
        Ty::Pair(_, rest) => {
            lemma_unfolded_not_empty(*rest);
        },
        _ => {},
    }
}

/// Unfolds a function type into its spans: one for each argument, and the
/// result last.
pub fn unpack_fndef(t: Ty) -> (spans: Vec<Vec<Ty>>)
    ensures
        span_views(spans@) == unfolded(t),
        spans@.len() >= 1,
    decreases t,
{
    match t {
        Ty::Pair(argument, rest) => {
            let ghost first = argument@;
            let mut spans: Vec<Vec<Ty>> = Vec::new();
            spans.push(argument);
            let mut others = unpack_fndef(*rest);
            let ghost moved = others@;
            spans.append(&mut others);
            assert(span_views(spans@) =~= seq![first] + span_views(moved));
            spans
        },
        other => {
            let ghost whole = other;
            let mut span: Vec<Ty> = Vec::new();
            span.push(other);
            let mut spans: Vec<Vec<Ty>> = Vec::new();
            spans.push(span);
            assert(span@ =~= seq![whole]);
            assert(span_views(spans@) =~= seq![seq![whole]]);
            spans
        },
    }
}

/// Whether `a` does not come after `b` in the order of the dictionary,
/// character by character: the order in which the names are rendered.
pub open spec fn text_le(a: Seq<char>, b: Seq<char>) -> bool {
    text_le_from(a, b, 0)
}

/// `text_le` on what is left of both texts from position `i` on.
pub open spec fn text_le_from(a: Seq<char>, b: Seq<char>, i: int) -> bool
    decreases a.len() - i,
{
    if i < 0 || i >= a.len() {
        true
    } else if i >= b.len() {
        false
    } else if a[i] != b[i] {
        (a[i] as u32) < (b[i] as u32)
    } else {
        text_le_from(a, b, i + 1)
    }
}

/// Whether `a` does not come after `b`.
pub fn name_le(a: &str, b: &str) -> (le: bool)
    ensures
        le == text_le(a@, b@),
{
    let x = chars_of(a);
    let y = chars_of(b);
    let mut i: usize = 0;
    while i < x.len()
        invariant
            i <= x.len(),
            x@ == a@,
            y@ == b@,
            text_le(a@, b@) == text_le_from(a@, b@, i as int),
        decreases x.len() - i,
    {
        if i >= y.len() {
            return false;
        }
        if x[i] != y[i] {
            return (x[i] as u32) < (y[i] as u32);
        }
        i += 1;
    }
    true
}

/// The name that a statement declares or binds.
pub open spec fn name_of(s: Statement) -> Seq<char> {
    match s {
        Statement::Prototype(name, _) => name@,
        Statement::Assign(name, _, _) => name@,
        Statement::Opaque(_) => Seq::empty(),
    }
}

/// The index of the first statement from `from` on that declares the type
/// of `name`; the number of statements if there is none.
pub open spec fn declared_at(stmts: Seq<Statement>, name: Seq<char>, from: int) -> int
    decreases stmts.len() - from,
{
    if from < 0 || from >= stmts.len() {
        stmts.len() as int
    } else if stmts[from] is Prototype && name_of(stmts[from]) == name {
        from
    } else {
        declared_at(stmts, name, from + 1)
    }
}

/// Where a declaration of `name` is found, it is one.
pub proof fn lemma_declared_at(stmts: Seq<Statement>, name: Seq<char>, from: int)
    requires
        0 <= from <= stmts.len(),
    ensures
        from <= declared_at(stmts, name, from) <= stmts.len(),
        declared_at(stmts, name, from) < stmts.len() ==> {
            let d = declared_at(stmts, name, from);
            stmts[d] is Prototype && name_of(stmts[d]) == name
        },
    decreases stmts.len() - from,
{
    if from < stmts.len() && !(stmts[from] is Prototype && name_of(stmts[from]) == name) {
        lemma_declared_at(stmts, name, from + 1);
    }
}

/// The index of the first statement from `from` on that declares the type
/// of `name`.
pub fn find_declaration(stmts: &Vec<Statement>, name: &String, from: usize) -> (at: usize)
    requires
        from <= stmts.len(),
    ensures
        at == declared_at(stmts@, name@, from as int),
        from <= at <= stmts.len(),
{
    let mut k: usize = from;
    while k < stmts.len()
        invariant
            from <= k <= stmts.len(),
            declared_at(stmts@, name@, from as int) == declared_at(stmts@, name@, k as int),
        decreases stmts.len() - k,
    {
        if let Statement::Prototype(declared, _) = &stmts[k] {
            if *declared == *name {
                return k;
            }
        }
        k += 1;
    }
    k
}

/// Why the statements of a module could not be reconciled.
#[derive(Debug, Clone, Copy, PartialEq, Eq, Structural)]
pub enum ReconcileError {
    /// The statement with this index declares the type of a name whose type
    /// an earlier statement has declared.
    DuplicateDeclaration { statement: usize },
    /// The statement with this index binds a name whose type no statement
    /// declares.
    UnmatchedDeclaration { statement: usize },
    /// The declaration with this index, of a name that is bound, holds no
    /// type, so that it unfolds to nothing.
    EmptyTypeUnfold { statement: usize },
    /// The declaration with this index, of a name that is bound, holds more
    /// than one type.
    AmbiguousDeclaration { statement: usize },
}

/// Whether statement `j` declares a name that an earlier statement has
/// declared.
pub open spec fn is_duplicate(stmts: Seq<Statement>, j: int) -> bool {
    stmts[j] is Prototype && declared_at(stmts, name_of(stmts[j]), 0) < j
}

/// Whether statement `j` binds a name that no statement declares.
pub open spec fn is_unmatched(stmts: Seq<Statement>, j: int) -> bool {
    stmts[j] is Assign && declared_at(stmts, name_of(stmts[j]), 0) >= stmts.len()
}

/// The first duplicate declaration from `from` on; the number of
/// statements if there is none.
pub open spec fn first_duplicate(stmts: Seq<Statement>, from: int) -> int
    decreases stmts.len() - from,
{
    if from < 0 || from >= stmts.len() {
        stmts.len() as int
    } else if is_duplicate(stmts, from) {
        from
    } else {
        first_duplicate(stmts, from + 1)
    }
}

/// The first binding without a declaration from `from` on; the number of
/// statements if there is none.
pub open spec fn first_unmatched(stmts: Seq<Statement>, from: int) -> int
    decreases stmts.len() - from,
{
    if from < 0 || from >= stmts.len() {
        stmts.len() as int
    } else if is_unmatched(stmts, from) {
        from
    } else {
        first_unmatched(stmts, from + 1)
    }
}

/// Where statement `j` goes into `order`, looked for from position `p`
/// down: behind the last binding whose name does not come after its own.
pub open spec fn place_of(order: Seq<usize>, stmts: Seq<Statement>, j: int, p: int) -> int
    decreases p,
{
    if p <= 0 || p > order.len() {
        0
    } else if text_le(name_of(stmts[order[p - 1] as int]), name_of(stmts[j])) {
        p
    } else {
        place_of(order, stmts, j, p - 1)
    }
}

/// The bindings among the first `n` statements, by their indices, in the
/// order in which they are rendered: by name, and bindings of one name in
/// the order of the statements.
pub open spec fn binding_order(stmts: Seq<Statement>, n: nat) -> Seq<usize>
    decreases n,
{
    if n == 0 || n > stmts.len() {
        Seq::empty()
    } else {
        let before = binding_order(stmts, (n - 1) as nat);
        if stmts[n - 1] is Assign {
            before.insert(place_of(before, stmts, n - 1, before.len() as int), (n - 1) as usize)
        } else {
            before
        }
    }
}

/// The types that the declaration of the name bound by statement `j`
/// holds.
pub open spec fn declared_types(stmts: Seq<Statement>, j: int) -> Seq<Ty> {
    match stmts[declared_at(stmts, name_of(stmts[j]), 0)] {
        Statement::Prototype(_, types) => types@,
        _ => Seq::empty(),
    }
}

/// The first position from `from` on in `order` of a binding whose
/// declaration does not hold exactly one type; the length of `order` if
/// there is none.
pub open spec fn first_malformed(stmts: Seq<Statement>, order: Seq<usize>, from: int) -> int
    decreases order.len() - from,
{
    if from < 0 || from >= order.len() {
        order.len() as int
    } else if declared_types(stmts, order[from] as int).len() != 1 {
        from
    } else {
        first_malformed(stmts, order, from + 1)
    }
}

/// The first `n` parameters of a function: each argument with the span of
/// its slot, followed by a comma and a space. There are no more parameters
/// than arguments and no more than spans.
pub open spec fn params_rendered(args: Seq<String>, spans: Seq<Seq<Ty>>, n: nat) -> Seq<char>
    decreases n,
{
    if n == 0 || n > args.len() || n > spans.len() {
        Seq::empty()
    } else {
        params_rendered(args, spans, (n - 1) as nat) + args[n - 1]@ + ": "@ + span_rendered(
            spans[n - 1],
        ) + ", "@
    }
}

/// The first `n` expressions of a body, each on a line of its own, indented
/// by eight spaces.
pub open spec fn body_rendered(body: Seq<Expr>, n: nat) -> Seq<char>
    decreases n,
{
    if n == 0 || n > body.len() {
        Seq::empty()
    } else {
        body_rendered(body, (n - 1) as nat) + "        "@ + expr_rendered(body[n - 1]) + "\n"@
    }
}

/// The smaller of two numbers.
pub open spec fn least(a: nat, b: nat) -> nat {
    if a <= b {
        a
    } else {
        b
    }
}

/// A binding with the declared type `t` as a function: its name, one typed
/// parameter for each argument that has a span, the last span as the type
/// of the result, and the body.
pub open spec fn function_rendered(
    name: Seq<char>,
    args: Seq<String>,
    t: Ty,
    body: Seq<Expr>,
) -> Seq<char> {
    let spans = unfolded(t);
    "    fn "@ + name + "("@ + params_rendered(args, spans, least(args.len(), spans.len()))
        + ") -> "@ + span_rendered(spans.last()) + " {\n"@ + body_rendered(body, body.len())
        + "    }\n\n"@
}

/// The spans of a list of borrowed spans.
pub open spec fn borrowed_views(spans: Seq<&Vec<Ty>>) -> Seq<Seq<Ty>> {
    Seq::new(spans.len(), |k: int| spans[k]@)
}

/// Collects the argument spans of `t` and hands back the type of its
/// result.
fn collect_spans<'a>(t: &'a Ty, spans: &mut Vec<&'a Vec<Ty>>) -> (last: &'a Ty)
    ensures
        borrowed_views(final(spans)@) + seq![seq![*last]] == borrowed_views(old(spans)@)
            + unfolded(*t),
        final(spans)@.len() >= old(spans)@.len(),
    decreases t,
{
    match t {
        Ty::Pair(argument, rest) => {
            let ghost before = spans@;
            spans.push(argument);
            assert(borrowed_views(spans@) =~= borrowed_views(before) + seq![argument@]);
            let last = collect_spans(rest, spans);
            assert(borrowed_views(spans@) + seq![seq![*last]] =~= borrowed_views(before)
                + unfolded(*t));
            last
        },
        _ => {
            assert(borrowed_views(spans@) + seq![seq![*t]] =~= borrowed_views(spans@) + unfolded(
                *t,
            ));
            t
        },
    }
}

/// Appends a binding with the declared type `t` as a function.
pub fn write_function(
    out: &mut String,
    name: &String,
    args: &Vec<String>,
    t: &Ty,
    body: &Vec<Expr>,
)
    ensures
        final(out)@ == old(out)@ + function_rendered(name@, args@, *t, body@),
{
    let ghost spans = unfolded(*t);
    let mut slots: Vec<&Vec<Ty>> = Vec::new();
    let last = collect_spans(t, &mut slots);
    proof {
        assert(borrowed_views(Seq::<&Vec<Ty>>::empty()) =~= Seq::<Seq<Ty>>::empty());
        assert(spans =~= borrowed_views(slots@) + seq![seq![*last]]);
        assert(spans.len() == slots@.len() + 1);
        assert(spans.last() == seq![*last]);
    }
    out.append("    fn ");
    out.append(name.as_str());
    out.append("(");
    let ghost opened = out@;
    let mut k: usize = 0;
    assert(out@ =~= opened + params_rendered(args@, spans, 0));
    while k < args.len() && k < slots.len()
        invariant
            k <= args.len(),
            k <= slots@.len(),
            spans == borrowed_views(slots@) + seq![seq![*last]],
            out@ == opened + params_rendered(args@, spans, k as nat),
        decreases args.len() - k,
    {
        out.append(args[k].as_str());
        out.append(": ");
        write_span(out, slots[k]);
        out.append(", ");
        assert(spans[k as int] == slots@[k as int]@);
        k += 1;
        assert(out@ =~= opened + params_rendered(args@, spans, k as nat));
    }
    if k < args.len() {
        out.append(args[k].as_str());
        out.append(": ");
        write_ty(out, last);
        out.append(", ");
        assert(spans[k as int] == seq![*last]);
        assert(span_rendered(seq![*last]) == ty_rendered(*last));
        k += 1;
        assert(out@ =~= opened + params_rendered(args@, spans, k as nat));
    }
    assert(k == least(args@.len(), spans.len()));
    out.append(") -> ");
    write_ty(out, last);
    out.append(" {\n");
    assert(span_rendered(spans.last()) == ty_rendered(*last));
    let ghost headed = out@;
    let mut e: usize = 0;
    assert(out@ =~= headed + body_rendered(body@, 0));
    while e < body.len()
        invariant
            e <= body.len(),
            out@ == headed + body_rendered(body@, e as nat),
        decreases body.len() - e,
    {
        out.append("        ");
        write_expr(out, &body[e]);
        out.append("\n");
        e += 1;
        assert(out@ =~= headed + body_rendered(body@, e as nat));
    }
    out.append("    }\n\n");
    assert(out@ =~= old(out)@ + function_rendered(name@, args@, *t, body@));
}

/// A binding and the declaration of its name, by the indices of their
/// statements.
#[derive(Debug, Clone, Copy, PartialEq, Eq, Structural)]
pub struct Match {
    /// The index of the binding.
    pub binding: usize,
    /// The index of the declaration.
    pub declaration: usize,
}

/// The binding at `j` with the declaration of its name.
pub open spec fn match_of(stmts: Seq<Statement>, j: usize) -> Match {
    Match { binding: j, declaration: declared_at(stmts, name_of(stmts[j as int]), 0) as usize }
}

/// What reconciling the statements of a module yields.
///
/// A duplicate declaration is an error, the first one in the order of the
/// statements; else a binding without a declaration, again the first one;
/// else a declaration that does not hold exactly one type, the first one in
/// the order in which the bindings are rendered. Where there is no error,
/// the bindings in that order, each with its declaration.
pub open spec fn reconciled(stmts: Seq<Statement>) -> Result<Seq<Match>, ReconcileError> {
    let n = stmts.len();
    let order = binding_order(stmts, n);
    let bad = first_malformed(stmts, order, 0);
    if first_duplicate(stmts, 0) < n {
        Err(ReconcileError::DuplicateDeclaration { statement: first_duplicate(stmts, 0) as usize })
    } else if first_unmatched(stmts, 0) < n {
        Err(ReconcileError::UnmatchedDeclaration { statement: first_unmatched(stmts, 0) as usize })
    } else if bad < order.len() {
        let m = match_of(stmts, order[bad]);
        if declared_types(stmts, order[bad] as int).len() == 0 {
            Err(ReconcileError::EmptyTypeUnfold { statement: m.declaration })
        } else {
            Err(ReconcileError::AmbiguousDeclaration { statement: m.declaration })
        }
    } else {
        Ok(Seq::new(order.len(), |k: int| match_of(stmts, order[k])))
    }
}

/// Where no binding from `from` on lacks a declaration, the binding at `j`
/// has one.
pub proof fn lemma_matched(stmts: Seq<Statement>, from: int, j: int)
    requires
        0 <= from <= j < stmts.len(),
        first_unmatched(stmts, from) >= stmts.len(),
    ensures
        !is_unmatched(stmts, j),
    decreases j - from,
{
    if from < j {
        lemma_matched(stmts, from + 1, j);
    }
}

/// The match joins a binding with a declaration of its name that holds
/// exactly one type.
pub open spec fn well_matched(stmts: Seq<Statement>, m: Match) -> bool {
    &&& m.binding < stmts.len()
    &&& m.declaration < stmts.len()
    &&& stmts[m.binding as int] is Assign
    &&& stmts[m.declaration as int] matches Statement::Prototype(name, types)
    &&& name@ == name_of(stmts[m.binding as int])
    &&& types@.len() == 1
}

/// The index of the first duplicate declaration.
fn find_duplicate(stmts: &Vec<Statement>) -> (at: usize)
    ensures
        at == first_duplicate(stmts@, 0),
        at <= stmts.len(),
{
    let mut j: usize = 0;
    while j < stmts.len()
        invariant
            j <= stmts.len(),
            first_duplicate(stmts@, 0) == first_duplicate(stmts@, j as int),
        decreases stmts.len() - j,
    {
        if let Statement::Prototype(name, _) = &stmts[j] {
            if find_declaration(stmts, name, 0) < j {
                return j;
            }
        }
        j += 1;
    }
    j
}

/// The index of the first binding without a declaration.
fn find_unmatched(stmts: &Vec<Statement>) -> (at: usize)
    ensures
        at == first_unmatched(stmts@, 0),
        at <= stmts.len(),
{
    let mut j: usize = 0;
    while j < stmts.len()
        invariant
            j <= stmts.len(),
            first_unmatched(stmts@, 0) == first_unmatched(stmts@, j as int),
        decreases stmts.len() - j,
    {
        if let Statement::Assign(name, _, _) = &stmts[j] {
            if find_declaration(stmts, name, 0) >= stmts.len() {
                return j;
            }
        }
        j += 1;
    }
    j
}

/// Every index in `order` is that of a binding.
pub open spec fn all_bindings(stmts: Seq<Statement>, order: Seq<usize>) -> bool {
    forall|k: int| 0 <= k < order.len() ==> order[k] < stmts.len() && stmts[order[k] as int] is Assign
}

/// Where the binding at `j` goes into `order`.
fn find_place(stmts: &Vec<Statement>, order: &Vec<usize>, name: &String, j: usize) -> (p: usize)
    requires
        j < stmts.len(),
        name@ == name_of(stmts@[j as int]),
        all_bindings(stmts@, order@),
    ensures
        p == place_of(order@, stmts@, j as int, order@.len() as int),
        p <= order@.len(),
{
    let mut p: usize = order.len();
    while p > 0
        invariant
            p <= order@.len(),
            j < stmts.len(),
            name@ == name_of(stmts@[j as int]),
            all_bindings(stmts@, order@),
            place_of(order@, stmts@, j as int, order@.len() as int) == place_of(
                order@,
                stmts@,
                j as int,
                p as int,
            ),
        decreases p,
    {
        let other = order[p - 1];
        if let Statement::Assign(earlier, _, _) = &stmts[other] {
            if name_le(earlier.as_str(), name.as_str()) {
                return p;
            }
        }
        p -= 1;
    }
    p
}

/// The bindings in the order in which they are rendered.
fn order_bindings(stmts: &Vec<Statement>) -> (order: Vec<usize>)
    ensures
        order@ == binding_order(stmts@, stmts@.len()),
        all_bindings(stmts@, order@),
{
    let mut order: Vec<usize> = Vec::new();
    let mut j: usize = 0;
    while j < stmts.len()
        invariant
            j <= stmts.len(),
            order@ == binding_order(stmts@, j as nat),
            all_bindings(stmts@, order@),
        decreases stmts.len() - j,
    {
        if let Statement::Assign(name, _, _) = &stmts[j] {
            let p = find_place(stmts, &order, name, j);
            let ghost before = order@;
            order.insert(p, j);
            assert forall|k: int| 0 <= k < order@.len() implies order@[k] < stmts@.len()
                && stmts@[order@[k] as int] is Assign by {
                if k < p {
                    assert(order@[k] == before[k]);
                } else if k > p {
                    assert(order@[k] == before[k - 1]);
                }
            }
        }
        j += 1;
    }
    order
}

/// Matches each binding with the declaration of its name and puts the
/// bindings in the order in which they are rendered.
pub fn reconcile(stmts: &Vec<Statement>) -> (r: Result<Vec<Match>, ReconcileError>)
    ensures
        match r {
            Ok(matches) => reconciled(stmts@) == Ok::<Seq<Match>, ReconcileError>(matches@),
            Err(e) => reconciled(stmts@) == Err::<Seq<Match>, ReconcileError>(e),
        },
        r matches Ok(matches) ==> forall|k: int|
            0 <= k < matches@.len() ==> well_matched(stmts@, #[trigger] matches@[k]),
{
    let n = stmts.len();
    let dup = find_duplicate(stmts);
    if dup < n {
        return Err(ReconcileError::DuplicateDeclaration { statement: dup });
    }
    let un = find_unmatched(stmts);
    if un < n {
        return Err(ReconcileError::UnmatchedDeclaration { statement: un });
    }
    let order = order_bindings(stmts);
    let mut matches: Vec<Match> = Vec::new();
    let mut k: usize = 0;
    while k < order.len()
        invariant
            k <= order@.len(),
            n == stmts@.len(),
            order@ == binding_order(stmts@, stmts@.len()),
            all_bindings(stmts@, order@),
            first_malformed(stmts@, order@, 0) == first_malformed(stmts@, order@, k as int),
            first_duplicate(stmts@, 0) >= n,
            first_unmatched(stmts@, 0) >= n,
            matches@.len() == k,
            forall|i: int| 0 <= i < k ==> matches@[i] == match_of(stmts@, order@[i]),
            forall|i: int| 0 <= i < k ==> well_matched(stmts@, #[trigger] matches@[i]),
        decreases order@.len() - k,
    {
        let j = order[k];
        if let Statement::Assign(name, _, _) = &stmts[j] {
            let d = find_declaration(stmts, name, 0);
            proof {
                lemma_matched(stmts@, 0, j as int);
                lemma_declared_at(stmts@, name@, 0);
            }
            let held: usize = if d < n {
                match &stmts[d] {
                    Statement::Prototype(_, types) => types.len(),
                    _ => 0,
                }
            } else {
                0
            };
            assert(held == declared_types(stmts@, j as int).len());
            if held == 0 {
                return Err(ReconcileError::EmptyTypeUnfold { statement: d });
            }
            if held > 1 {
                return Err(ReconcileError::AmbiguousDeclaration { statement: d });
            }
            matches.push(Match { binding: j, declaration: d });
        }
        k += 1;
    }
    assert(matches@ =~= Seq::new(order@.len(), |k: int| match_of(stmts@, order@[k])));
    Ok(matches)
}

/// Every text comes before or after every other, or both.
pub proof fn lemma_text_le_total(a: Seq<char>, b: Seq<char>, i: int)
    requires
        0 <= i,
    ensures
        text_le_from(a, b, i) || text_le_from(b, a, i),
    decreases a.len() - i,
{
    if i < a.len() && i < b.len() {
        if a[i] == b[i] {
            lemma_text_le_total(a, b, i + 1);
        } else {
            vstd::utf8::char_u32_cast(a[i], a[i] as u32);
            vstd::utf8::char_u32_cast(b[i], b[i] as u32);
        }
    }
}

/// No text comes after itself.
pub proof fn lemma_text_le_reflexive(a: Seq<char>, i: int)
    requires
        0 <= i,
    ensures
        text_le_from(a, a, i),
    decreases a.len() - i,
{
    if i < a.len() {
        lemma_text_le_reflexive(a, i + 1);
    }
}

/// What does not come after a text does not come after what that text
/// does not come after.
pub proof fn lemma_text_le_transitive(a: Seq<char>, b: Seq<char>, c: Seq<char>, i: int)
    requires
        0 <= i,
        text_le_from(a, b, i),
        text_le_from(b, c, i),
    ensures
        text_le_from(a, c, i),
    decreases a.len() - i,
{
    if i < a.len() && a[i] == b[i] && b[i] == c[i] {
        lemma_text_le_transitive(a, b, c, i + 1);
    }
}

/// The name of the binding at position `k` of an order.
pub open spec fn ordered_name(stmts: Seq<Statement>, order: Seq<usize>, k: int) -> Seq<char> {
    name_of(stmts[order[k] as int])
}

/// The order holds bindings among the first `n` statements only, by
/// ascending name, and bindings of one name by ascending index.
pub open spec fn in_rendering_order(stmts: Seq<Statement>, order: Seq<usize>, n: nat) -> bool {
    &&& forall|k: int|
        0 <= k < order.len() ==> (#[trigger] order[k]) < n && stmts[order[k] as int] is Assign
    &&& forall|x: int, y: int|
        0 <= x < y < order.len() ==> text_le(
            #[trigger] ordered_name(stmts, order, x),
            #[trigger] ordered_name(stmts, order, y),
        )
    &&& forall|x: int, y: int|
        0 <= x < y < order.len() && #[trigger] ordered_name(stmts, order, x)
            == #[trigger] ordered_name(stmts, order, y) ==> order[x] < order[y]
}

/// A binding goes behind a name that does not come after its own and in
/// front of the names that do.
proof fn lemma_place_of(order: Seq<usize>, stmts: Seq<Statement>, j: int, p: int)
    requires
        0 <= p <= order.len(),
    ensures
        0 <= place_of(order, stmts, j, p) <= p,
        place_of(order, stmts, j, p) > 0 ==> text_le(
            ordered_name(stmts, order, place_of(order, stmts, j, p) - 1),
            name_of(stmts[j]),
        ),
        forall|k: int|
            place_of(order, stmts, j, p) <= k < p ==> !text_le(
                #[trigger] ordered_name(stmts, order, k),
                name_of(stmts[j]),
            ),
    decreases p,
{
    if p > 0 && !text_le(name_of(stmts[order[p - 1] as int]), name_of(stmts[j])) {
        lemma_place_of(order, stmts, j, p - 1);
    }
}

/// The bindings are rendered by ascending name, bindings of one name in the
/// order of the statements, and none but bindings are rendered.
pub proof fn lemma_binding_order(stmts: Seq<Statement>, n: nat)
    requires
        n <= stmts.len(),
        n <= usize::MAX,
    ensures
        in_rendering_order(stmts, binding_order(stmts, n), n),
    decreases n,
{
    if n > 0 {
        lemma_binding_order(stmts, (n - 1) as nat);
        let before = binding_order(stmts, (n - 1) as nat);
        let j = n - 1;
        if stmts[j] is Assign {
            let p = place_of(before, stmts, j, before.len() as int);
            lemma_place_of(before, stmts, j, before.len() as int);
            let order = before.insert(p, j as usize);
            let new_name = name_of(stmts[j]);
            assert(order == binding_order(stmts, n));
            assert forall|k: int| 0 <= k < order.len() implies (#[trigger] order[k]) < n
                && stmts[order[k] as int] is Assign by {
                if k < p {
                    assert(order[k] == before[k]);
                } else if k > p {
                    assert(order[k] == before[k - 1]);
                }
            }
            assert forall|x: int, y: int| 0 <= x < y < order.len() implies text_le(
                #[trigger] ordered_name(stmts, order, x),
                #[trigger] ordered_name(stmts, order, y),
            ) && (ordered_name(stmts, order, x) == ordered_name(stmts, order, y) ==> order[x]
                < order[y]) by {
                let old_x = if x < p {
                    x
                } else {
                    x - 1
                };
                let old_y = if y < p {
                    y
                } else {
                    y - 1
                };
                if x != p && y != p {
                    assert(order[x] == before[old_x] && order[y] == before[old_y]);
                    assert(ordered_name(stmts, order, x) == ordered_name(stmts, before, old_x));
                    assert(ordered_name(stmts, order, y) == ordered_name(stmts, before, old_y));
                } else if y == p {
                    assert(order[x] == before[x] && order[y] == j);
                    assert(ordered_name(stmts, order, x) == ordered_name(stmts, before, x));
                    if x < p - 1 {
                        assert(text_le(
                            ordered_name(stmts, before, x),
                            ordered_name(stmts, before, p - 1),
                        ));
                        lemma_text_le_transitive(
                            ordered_name(stmts, before, x),
                            ordered_name(stmts, before, p - 1),
                            new_name,
                            0,
                        );
                    }
                } else {
                    assert(order[x] == j && order[y] == before[y - 1]);
                    assert(ordered_name(stmts, order, y) == ordered_name(stmts, before, y - 1));
                    assert(!text_le(ordered_name(stmts, before, y - 1), new_name));
                    lemma_text_le_total(ordered_name(stmts, before, y - 1), new_name, 0);
                    lemma_text_le_reflexive(new_name, 0);
                }
            }
        } else {
            assert(binding_order(stmts, n) == before);
        }
    }
}

/// Every binding among the first `n` statements is rendered.
pub proof fn lemma_binding_order_complete(stmts: Seq<Statement>, n: nat, j: int)
    requires
        0 <= j < n <= stmts.len(),
        n <= usize::MAX,
        stmts[j] is Assign,
    ensures
        binding_order(stmts, n).contains(j as usize),
    decreases n,
{
    let before = binding_order(stmts, (n - 1) as nat);
    if stmts[n - 1] is Assign {
        let p = place_of(before, stmts, n - 1, before.len() as int);
        lemma_place_of(before, stmts, n - 1, before.len() as int);
        let order = before.insert(p, (n - 1) as usize);
        if j == n - 1 {
            assert(order[p] == j as usize);
        } else {
            lemma_binding_order_complete(stmts, (n - 1) as nat, j);
            let k = choose|k: int| 0 <= k < before.len() && before[k] == j as usize;
            if k < p {
                assert(order[k] == before[k]);
            } else {
                assert(order[k + 1] == before[k]);
            }
        }
    } else {
        lemma_binding_order_complete(stmts, (n - 1) as nat, j);
    }
}

} // verus!
