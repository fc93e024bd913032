//! Structural descriptions: the text that stands for a node where it is
//! shown as it is built rather than rendered. A variant is written as its
//! name and its fields between round brackets, a list between square
//! brackets, a name as `Ident` and the quoted text, and an opaque node as the
//! description that it holds.

use vstd::prelude::*;
use vstd::string::StringExecFns;
use crate::ast::{Expr, Statement, Ty};
use crate::text::{debug_quoted, number_text, quoted, signed_decimal};

verus! {

/// The description of a name.
pub open spec fn name_described(name: Seq<char>) -> Seq<char> {
    "Ident("@ + debug_quoted(name) + ")"@
}

/// The description of a type.
pub open spec fn ty_described(t: Ty) -> Seq<char>
    decreases t, 0nat,
{
    match t {
        Ty::Ref(name) => "Ref("@ + name_described(name@) + ")"@,
        Ty::Span(span) => "Span("@ + span_described(span@) + ")"@,
        Ty::Parens(spans) => "Parens("@ + spans_described(spans@) + ")"@,
        Ty::Brackets(spans) => "Brackets("@ + spans_described(spans@) + ")"@,
        Ty::Pair(argument, rest) => "Pair("@ + span_described(argument@) + ", "@ + ty_described(
            *rest,
        ) + ")"@,
        Ty::Opaque(description) => description@,
    }
}

/// The descriptions of the first `n` types of a span, with a comma and a
/// space between two of them.
pub open spec fn tys_described(span: Seq<Ty>, n: nat) -> Seq<char>
    decreases span, n,
{
    if n == 0 || n > span.len() {
        Seq::empty()
    } else if n == 1 {
        ty_described(span[0])
    } else {
        tys_described(span, (n - 1) as nat) + ", "@ + ty_described(span[n - 1])
    }
}

/// The description of a span: a list of types.
pub open spec fn span_described(span: Seq<Ty>) -> Seq<char>
    decreases span, span.len() + 1,
{
    "["@ + tys_described(span, span.len() as nat) + "]"@
}

/// The descriptions of the first `n` spans of a group, with a comma and a
/// space between two of them.
pub open spec fn group_described(spans: Seq<Vec<Ty>>, n: nat) -> Seq<char>
    decreases spans, n,
{
    if n == 0 || n > spans.len() {
        Seq::empty()
    } else if n == 1 {
        span_described(spans[0]@)
    } else {
        group_described(spans, (n - 1) as nat) + ", "@ + span_described(spans[n - 1]@)
    }
}

/// The description of a group of spans: a list of lists.
pub open spec fn spans_described(spans: Seq<Vec<Ty>>) -> Seq<char>
    decreases spans, spans.len() + 1,
{
    "["@ + group_described(spans, spans.len() as nat) + "]"@
}

/// Appends the description of a name.
pub fn describe_name(out: &mut String, name: &str)
    ensures
        final(out)@ == old(out)@ + name_described(name@),
{
    out.append("Ident(");
    let q = quoted(name);
    out.append(q.as_str());
    out.append(")");
    assert(out@ =~= old(out)@ + name_described(name@));
}

/// Appends the description of a type.
pub fn describe_ty(out: &mut String, t: &Ty)
    ensures
        final(out)@ == old(out)@ + ty_described(*t),
    decreases t, 0nat,
{
    match t {
        Ty::Ref(name) => {
            out.append("Ref(");
            describe_name(out, name.as_str());
            out.append(")");
        },
        Ty::Span(span) => {
            out.append("Span(");
            describe_span(out, span);
            out.append(")");
        },
        Ty::Parens(spans) => {
            out.append("Parens(");
            describe_spans(out, spans);
            out.append(")");
        },
        Ty::Brackets(spans) => {
            out.append("Brackets(");
            describe_spans(out, spans);
            out.append(")");
        },
        Ty::Pair(argument, rest) => {
            out.append("Pair(");
            describe_span(out, argument);
            out.append(", ");
            describe_ty(out, rest);
            out.append(")");
        },
        Ty::Opaque(description) => {
            out.append(description.as_str());
        },
    }
    assert(out@ =~= old(out)@ + ty_described(*t));
}

/// Appends the description of a span.
pub fn describe_span(out: &mut String, span: &Vec<Ty>)
    ensures
        final(out)@ == old(out)@ + span_described(span@),
    decreases span, span.len() + 1,
{
    out.append("[");
    let ghost opened = out@;
    let mut k: usize = 0;
    while k < span.len()
        invariant
            k <= span.len(),
            out@ == opened + tys_described(span@, k as nat),
        decreases span.len() - k,
    {
        if k > 0 {
            out.append(", ");
        }
        describe_ty(out, &span[k]);
        k += 1;
        assert(out@ =~= opened + tys_described(span@, k as nat));
    }
    out.append("]");
    assert(out@ =~= old(out)@ + span_described(span@));
}

/// Appends the description of a group of spans.
pub fn describe_spans(out: &mut String, spans: &Vec<Vec<Ty>>)
    ensures
        final(out)@ == old(out)@ + spans_described(spans@),
    decreases spans, spans.len() + 1,
{
    out.append("[");
    let ghost opened = out@;
    let mut k: usize = 0;
    while k < spans.len()
        invariant
            k <= spans.len(),
            out@ == opened + group_described(spans@, k as nat),
        decreases spans.len() - k,
    {
        if k > 0 {
            out.append(", ");
        }
        describe_span(out, &spans[k]);
        k += 1;
        assert(out@ =~= opened + group_described(spans@, k as nat));
    }
    out.append("]");
    assert(out@ =~= old(out)@ + spans_described(spans@));
}

/// The description of an expression.
pub open spec fn expr_described(e: Expr) -> Seq<char>
    decreases e, 0nat,
{
    match e {
        Expr::Parens(items) => "Parens("@ + exprs_described(items@) + ")"@,
        Expr::Do(rows, bindings) => "Do("@ + rows_described(rows@) + ", "@ + (match bindings {
            Some(stats) => "Some("@ + stats_described(stats@) + ")"@,
            None => "None"@,
        }) + ")"@,
        Expr::Ref(name) => "Ref("@ + name_described(name@) + ")"@,
        Expr::Number(n) => "Number("@ + signed_decimal(n as int) + ")"@,
        Expr::Op(left, operator, right) => "Op("@ + expr_described(*left) + ", "@ + operator@
            + ", "@ + expr_described(*right) + ")"@,
        Expr::Opaque(description) => description@,
    }
}

/// The descriptions of the first `n` expressions, with a comma and a space
/// between two of them.
pub open spec fn exprs_described_upto(items: Seq<Expr>, n: nat) -> Seq<char>
    decreases items, n,
{
    if n == 0 || n > items.len() {
        Seq::empty()
    } else if n == 1 {
        expr_described(items[0])
    } else {
        exprs_described_upto(items, (n - 1) as nat) + ", "@ + expr_described(items[n - 1])
    }
}

/// The description of a list of expressions.
pub open spec fn exprs_described(items: Seq<Expr>) -> Seq<char>
    decreases items, items.len() + 1,
{
    "["@ + exprs_described_upto(items, items.len() as nat) + "]"@
}

/// The descriptions of the first `n` rows of expressions, with a comma and a space
/// between two of them.
pub open spec fn rows_described_upto(items: Seq<Vec<Expr>>, n: nat) -> Seq<char>
    decreases items, n,
{
    if n == 0 || n > items.len() {
        Seq::empty()
    } else if n == 1 {
        exprs_described(items[0]@)
    } else {
        rows_described_upto(items, (n - 1) as nat) + ", "@ + exprs_described(items[n - 1]@)
    }
}

/// The description of a list of rows of expressions.
pub open spec fn rows_described(items: Seq<Vec<Expr>>) -> Seq<char>
    decreases items, items.len() + 1,
{
    "["@ + rows_described_upto(items, items.len() as nat) + "]"@
}

/// The description of a statement.
pub open spec fn stat_described(s: Statement) -> Seq<char>
    decreases s, 0nat,
{
    match s {
        Statement::Prototype(name, types) => "Prototype("@ + name_described(name@) + ", "@
            + span_described(types@) + ")"@,
        Statement::Assign(name, args, body) => "Assign("@ + name_described(name@) + ", "@
            + names_described(args@) + ", "@ + exprs_described(body@) + ")"@,
        Statement::Opaque(description) => description@,
    }
}

/// The descriptions of the first `n` statements, with a comma and a space
/// between two of them.
pub open spec fn stats_described_upto(items: Seq<Statement>, n: nat) -> Seq<char>
    decreases items, n,
{
    if n == 0 || n > items.len() {
        Seq::empty()
    } else if n == 1 {
        stat_described(items[0])
    } else {
        stats_described_upto(items, (n - 1) as nat) + ", "@ + stat_described(items[n - 1])
    }
}

/// The description of a list of statements.
pub open spec fn stats_described(items: Seq<Statement>) -> Seq<char>
    decreases items, items.len() + 1,
{
    "["@ + stats_described_upto(items, items.len() as nat) + "]"@
}

/// The descriptions of the first `n` names, with a comma and a space
/// between two of them.
pub open spec fn names_described_upto(names: Seq<String>, n: nat) -> Seq<char>
    decreases n,
{
    if n == 0 || n > names.len() {
        Seq::empty()
    } else if n == 1 {
        name_described(names[0]@)
    } else {
        names_described_upto(names, (n - 1) as nat) + ", "@ + name_described(names[n - 1]@)
    }
}

/// The description of a list of names.
pub open spec fn names_described(names: Seq<String>) -> Seq<char> {
    "["@ + names_described_upto(names, names.len() as nat) + "]"@
}

/// Appends the description of a list of names.
pub fn describe_names(out: &mut String, names: &Vec<String>)
    ensures
        final(out)@ == old(out)@ + names_described(names@),
{
    out.append("[");
    let ghost opened = out@;
    let mut k: usize = 0;
    while k < names.len()
        invariant
            k <= names.len(),
            out@ == opened + names_described_upto(names@, k as nat),
        decreases names.len() - k,
    {
        if k > 0 {
            out.append(", ");
        }
        describe_name(out, names[k].as_str());
        k += 1;
        assert(out@ =~= opened + names_described_upto(names@, k as nat));
    }
    out.append("]");
    assert(out@ =~= old(out)@ + names_described(names@));
}

/// Appends the description of an expression.
pub fn describe_expr(out: &mut String, e: &Expr)
    ensures
        final(out)@ == old(out)@ + expr_described(*e),
    decreases e, 0nat,
{
    match e {
        Expr::Parens(items) => {
            out.append("Parens(");
            describe_exprs(out, items);
            out.append(")");
        },
        Expr::Do(rows, bindings) => {
            out.append("Do(");
            describe_rows(out, rows);
            out.append(", ");
            match bindings {
                Some(stats) => {
                    out.append("Some(");
                    describe_stats(out, stats);
                    out.append(")");
                },
                None => {
                    out.append("None");
                },
            }
            out.append(")");
        },
        Expr::Ref(name) => {
            out.append("Ref(");
            describe_name(out, name.as_str());
            out.append(")");
        },
        Expr::Number(n) => {
            out.append("Number(");
            let digits = number_text(*n);
            out.append(digits.as_str());
            out.append(")");
        },
        Expr::Op(left, operator, right) => {
            out.append("Op(");
            describe_expr(out, left);
            out.append(", ");
            out.append(operator.as_str());
            out.append(", ");
            describe_expr(out, right);
            out.append(")");
        },
        Expr::Opaque(description) => {
            out.append(description.as_str());
        },
    }
    assert(out@ =~= old(out)@ + expr_described(*e));
}

/// Appends the description of a list of expressions.
pub fn describe_exprs(out: &mut String, items: &Vec<Expr>)
    ensures
        final(out)@ == old(out)@ + exprs_described(items@),
    decreases items, items.len() + 1,
{
    out.append("[");
    let ghost opened = out@;
    let mut k: usize = 0;
    while k < items.len()
        invariant
            k <= items.len(),
            out@ == opened + exprs_described_upto(items@, k as nat),
        decreases items.len() - k,
    {
        if k > 0 {
            out.append(", ");
        }
        describe_expr(out, &items[k]);
        k += 1;
        assert(out@ =~= opened + exprs_described_upto(items@, k as nat));
    }
    out.append("]");
    assert(out@ =~= old(out)@ + exprs_described(items@));
}

/// Appends the description of a list of rows of expressions.
pub fn describe_rows(out: &mut String, items: &Vec<Vec<Expr>>)
    ensures
        final(out)@ == old(out)@ + rows_described(items@),
    decreases items, items.len() + 1,
{
    out.append("[");
    let ghost opened = out@;
    let mut k: usize = 0;
    while k < items.len()
        invariant
            k <= items.len(),
            out@ == opened + rows_described_upto(items@, k as nat),
        decreases items.len() - k,
    {
        if k > 0 {
            out.append(", ");
        }
        describe_exprs(out, &items[k]);
        k += 1;
        assert(out@ =~= opened + rows_described_upto(items@, k as nat));
    }
    out.append("]");
    assert(out@ =~= old(out)@ + rows_described(items@));
}

/// Appends the description of a statement.
pub fn describe_stat(out: &mut String, s: &Statement)
    ensures
        final(out)@ == old(out)@ + stat_described(*s),
    decreases s, 0nat,
{
    match s {
        Statement::Prototype(name, types) => {
            out.append("Prototype(");
            describe_name(out, name.as_str());
            out.append(", ");
            describe_span(out, types);
            out.append(")");
        },
        Statement::Assign(name, args, body) => {
            out.append("Assign(");
            describe_name(out, name.as_str());
            out.append(", ");
            describe_names(out, args);
            out.append(", ");
            describe_exprs(out, body);
            out.append(")");
        },
        Statement::Opaque(description) => {
            out.append(description.as_str());
        },
    }
    assert(out@ =~= old(out)@ + stat_described(*s));
}

/// Appends the description of a list of statements.
pub fn describe_stats(out: &mut String, items: &Vec<Statement>)
    ensures
        final(out)@ == old(out)@ + stats_described(items@),
    decreases items, items.len() + 1,
{
    out.append("[");
    let ghost opened = out@;
    let mut k: usize = 0;
    while k < items.len()
        invariant
            k <= items.len(),
            out@ == opened + stats_described_upto(items@, k as nat),
        decreases items.len() - k,
    {
        if k > 0 {
            out.append(", ");
        }
        describe_stat(out, &items[k]);
        k += 1;
        assert(out@ =~= opened + stats_described_upto(items@, k as nat));
    }
    out.append("]");
    assert(out@ =~= old(out)@ + stats_described(items@));
}

} // verus!
