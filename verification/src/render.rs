//! The renderer: types, expressions and statements as pseudo-procedural
//! text. A form without a rendering rule is shown as its structural
//! description.

use vstd::prelude::*;
use vstd::string::StringExecFns;
use crate::ast::{Expr, Statement, Ty};
use crate::describe::{describe_expr, describe_ty, expr_described, ty_described};
use crate::text::{number_text, signed_decimal};

verus! {

/// A type as text: a name as it is, a nested span as its types, a group in
/// angle or square brackets, any other type as its description.
pub open spec fn ty_rendered(t: Ty) -> Seq<char>
    decreases t, 0nat,
{
    match t {
        Ty::Ref(name) => name@,
        Ty::Span(span) => span_rendered(span@),
        Ty::Parens(spans) => "<"@ + group_rendered(spans@) + ">"@,
        Ty::Brackets(spans) => "["@ + group_rendered(spans@) + "]"@,
        _ => ty_described(t),
    }
}

/// The first `n` types of a span as text, with a space between two of them.
pub open spec fn span_rendered_upto(span: Seq<Ty>, n: nat) -> Seq<char>
    decreases span, n,
{
    if n == 0 || n > span.len() {
        Seq::empty()
    } else if n == 1 {
        ty_rendered(span[0])
    } else {
        span_rendered_upto(span, (n - 1) as nat) + " "@ + ty_rendered(span[n - 1])
    }
}

/// A span as text: its types, with a space between two of them.
pub open spec fn span_rendered(span: Seq<Ty>) -> Seq<char>
    decreases span, span.len() + 1,
{
    span_rendered_upto(span, span.len())
}

/// The first `n` spans of a group as text, with a comma and a space between
/// two of them.
pub open spec fn group_rendered_upto(spans: Seq<Vec<Ty>>, n: nat) -> Seq<char>
    decreases spans, n,
{
    if n == 0 || n > spans.len() {
        Seq::empty()
    } else if n == 1 {
        span_rendered(spans[0]@)
    } else {
        group_rendered_upto(spans, (n - 1) as nat) + ", "@ + span_rendered(spans[n - 1]@)
    }
}

/// A group of spans as text, with a comma and a space between two of them.
pub open spec fn group_rendered(spans: Seq<Vec<Ty>>) -> Seq<char>
    decreases spans, spans.len() + 1,
{
    group_rendered_upto(spans, spans.len())
}

/// Appends a type as text.
pub fn write_ty(out: &mut String, t: &Ty)
    ensures
        final(out)@ == old(out)@ + ty_rendered(*t),
    decreases t, 0nat,
{
    match t {
        Ty::Ref(name) => {
            out.append(name.as_str());
        },
        Ty::Span(span) => {
            write_span(out, span);
        },
        Ty::Parens(spans) => {
            out.append("<");
            write_group(out, spans);
            out.append(">");
        },
        Ty::Brackets(spans) => {
            out.append("[");
            write_group(out, spans);
            out.append("]");
        },
        _ => {
            describe_ty(out, t);
        },
    }
    assert(out@ =~= old(out)@ + ty_rendered(*t));
}

/// Appends a span as text.
pub fn write_span(out: &mut String, span: &Vec<Ty>)
    ensures
        final(out)@ == old(out)@ + span_rendered(span@),
    decreases span, span.len() + 1,
{
    let mut k: usize = 0;
    assert(out@ =~= old(out)@ + span_rendered_upto(span@, 0));
    while k < span.len()
        invariant
            k <= span.len(),
            out@ == old(out)@ + span_rendered_upto(span@, k as nat),
        decreases span.len() - k,
    {
        if k > 0 {
            out.append(" ");
        }
        write_ty(out, &span[k]);
        k += 1;
        assert(out@ =~= old(out)@ + span_rendered_upto(span@, k as nat));
    }
}

/// Appends a group of spans as text.
pub fn write_group(out: &mut String, spans: &Vec<Vec<Ty>>)
    ensures
        final(out)@ == old(out)@ + group_rendered(spans@),
    decreases spans, spans.len() + 1,
{
    let mut k: usize = 0;
    assert(out@ =~= old(out)@ + group_rendered_upto(spans@, 0));
    while k < spans.len()
        invariant
            k <= spans.len(),
            out@ == old(out)@ + group_rendered_upto(spans@, k as nat),
        decreases spans.len() - k,
    {
        if k > 0 {
            out.append(", ");
        }
        write_span(out, &spans[k]);
        k += 1;
        assert(out@ =~= old(out)@ + group_rendered_upto(spans@, k as nat));
    }
}

/// A span as text: its types, with a space between two of them.
pub fn print_type(t: &Vec<Ty>) -> (s: String)
    ensures
        s@ == span_rendered(t@),
{
    let mut s = String::new();
    write_span(&mut s, t);
    assert(s@ =~= span_rendered(t@));
    s
}

/// An expression as text.
///
/// The items of a parenthesized group are each followed by a comma and a
/// space. A block stands between `{ ` and ` }`: first the bindings of its
/// `where` clause, between braces on lines of their own, then its rows, each
/// followed by `; `. A name and a number stand as they are. A binary
/// operation stands between round brackets, its operands as their
/// descriptions. Any other expression is its description.
pub open spec fn expr_rendered(e: Expr) -> Seq<char>
    decreases e, 0nat,
{
    match e {
        Expr::Parens(items) => items_rendered(items@),
        Expr::Do(rows, bindings) => "{ "@ + (match bindings {
            Some(stats) => "{\n"@ + stats_rendered(stats@) + "    }\n"@,
            None => Seq::empty(),
        }) + rows_rendered(rows@) + " }"@,
        Expr::Ref(name) => name@,
        Expr::Number(n) => signed_decimal(n as int),
        Expr::Op(left, operator, right) => "("@ + expr_described(*left) + " "@ + operator@ + " "@
            + expr_described(*right) + ")"@,
        Expr::Opaque(description) => description@,
    }
}

/// The first `n` items of a list of expressions as text, each followed by a
/// comma and a space.
pub open spec fn items_rendered_upto(items: Seq<Expr>, n: nat) -> Seq<char>
    decreases items, n,
{
    if n == 0 || n > items.len() {
        Seq::empty()
    } else {
        items_rendered_upto(items, (n - 1) as nat) + expr_rendered(items[n - 1]) + ", "@
    }
}

/// A list of expressions as text, each followed by a comma and a space.
pub open spec fn items_rendered(items: Seq<Expr>) -> Seq<char>
    decreases items, items.len() + 1,
{
    items_rendered_upto(items, items.len())
}

/// The first `n` rows of a block as text, each followed by `; `.
pub open spec fn rows_rendered_upto(rows: Seq<Vec<Expr>>, n: nat) -> Seq<char>
    decreases rows, n,
{
    if n == 0 || n > rows.len() {
        Seq::empty()
    } else {
        rows_rendered_upto(rows, (n - 1) as nat) + items_rendered(rows[n - 1]@) + "; "@
    }
}

/// The rows of a block as text, each followed by `; `.
pub open spec fn rows_rendered(rows: Seq<Vec<Expr>>) -> Seq<char>
    decreases rows, rows.len() + 1,
{
    rows_rendered_upto(rows, rows.len())
}

/// A statement as text: a binding as a `let` line of its own, indented by
/// eight spaces; any other statement as nothing.
pub open spec fn stat_rendered(s: Statement) -> Seq<char>
    decreases s, 0nat,
{
    match s {
        Statement::Assign(name, _, body) => "        let "@ + name@ + " = "@ + items_rendered(
            body@,
        ) + "\n"@,
        _ => Seq::empty(),
    }
}

/// The first `n` statements of a list as text.
pub open spec fn stats_rendered_upto(stats: Seq<Statement>, n: nat) -> Seq<char>
    decreases stats, n,
{
    if n == 0 || n > stats.len() {
        Seq::empty()
    } else {
        stats_rendered_upto(stats, (n - 1) as nat) + stat_rendered(stats[n - 1])
    }
}

/// A list of statements as text.
pub open spec fn stats_rendered(stats: Seq<Statement>) -> Seq<char>
    decreases stats, stats.len() + 1,
{
    stats_rendered_upto(stats, stats.len())
}

/// Appends an expression as text.
pub fn write_expr(out: &mut String, e: &Expr)
    ensures
        final(out)@ == old(out)@ + expr_rendered(*e),
    decreases e, 0nat,
{
    match e {
        Expr::Parens(items) => {
            write_items(out, items);
        },
        Expr::Do(rows, bindings) => {
            out.append("{ ");
            match bindings {
                Some(stats) => {
                    out.append("{\n");
                    write_stats(out, stats);
                    out.append("    }\n");
                },
                None => {},
            }
            write_rows(out, rows);
            out.append(" }");
        },
        Expr::Ref(name) => {
            out.append(name.as_str());
        },
        Expr::Number(n) => {
            let digits = number_text(*n);
            out.append(digits.as_str());
        },
        Expr::Op(left, operator, right) => {
            out.append("(");
            describe_expr(out, left);
            out.append(" ");
            out.append(operator.as_str());
            out.append(" ");
            describe_expr(out, right);
            out.append(")");
        },
        Expr::Opaque(description) => {
            out.append(description.as_str());
        },
    }
    assert(out@ =~= old(out)@ + expr_rendered(*e));
}

/// Appends a list of expressions as text.
pub fn write_items(out: &mut String, items: &Vec<Expr>)
    ensures
        final(out)@ == old(out)@ + items_rendered(items@),
    decreases items, items.len() + 1,
{
    let mut k: usize = 0;
    assert(out@ =~= old(out)@ + items_rendered_upto(items@, 0));
    while k < items.len()
        invariant
            k <= items.len(),
            out@ == old(out)@ + items_rendered_upto(items@, k as nat),
        decreases items.len() - k,
    {
        write_expr(out, &items[k]);
        out.append(", ");
        k += 1;
        assert(out@ =~= old(out)@ + items_rendered_upto(items@, k as nat));
    }
}

/// Appends the rows of a block as text.
pub fn write_rows(out: &mut String, rows: &Vec<Vec<Expr>>)
    ensures
        final(out)@ == old(out)@ + rows_rendered(rows@),
    decreases rows, rows.len() + 1,
{
    let mut k: usize = 0;
    assert(out@ =~= old(out)@ + rows_rendered_upto(rows@, 0));
    while k < rows.len()
        invariant
            k <= rows.len(),
            out@ == old(out)@ + rows_rendered_upto(rows@, k as nat),
        decreases rows.len() - k,
    {
        write_items(out, &rows[k]);
        out.append("; ");
        k += 1;
        assert(out@ =~= old(out)@ + rows_rendered_upto(rows@, k as nat));
    }
}

/// Appends a statement as text.
pub fn write_stat(out: &mut String, s: &Statement)
    ensures
        final(out)@ == old(out)@ + stat_rendered(*s),
    decreases s, 0nat,
{
    match s {
        Statement::Assign(name, _, body) => {
            out.append("        let ");
            out.append(name.as_str());
            out.append(" = ");
            write_items(out, body);
            out.append("\n");
        },
        _ => {},
    }
    assert(out@ =~= old(out)@ + stat_rendered(*s));
}

/// Appends a list of statements as text.
pub fn write_stats(out: &mut String, stats: &Vec<Statement>)
    ensures
        final(out)@ == old(out)@ + stats_rendered(stats@),
    decreases stats, stats.len() + 1,
{
    let mut k: usize = 0;
    assert(out@ =~= old(out)@ + stats_rendered_upto(stats@, 0));
    while k < stats.len()
        invariant
            k <= stats.len(),
            out@ == old(out)@ + stats_rendered_upto(stats@, k as nat),
        decreases stats.len() - k,
    {
        write_stat(out, &stats[k]);
        k += 1;
        assert(out@ =~= old(out)@ + stats_rendered_upto(stats@, k as nat));
    }
}

/// An expression as text. An expression without a rendering rule comes out
/// as its description, which is not empty.
pub fn print_expr(expr: &Expr) -> (s: String)
    ensures
        s@ == expr_rendered(*expr),
        *expr is Opaque ==> s@.len() > 0,
{
    let mut s = String::new();
    write_expr(&mut s, expr);
    assert(s@ =~= expr_rendered(*expr));
    if let Expr::Opaque(description) = expr {
        let shown = description.as_str();
        assert(shown@.len() > 0);
    }
    s
}

/// A statement as text.
pub fn print_stat(stat: &Statement) -> (s: String)
    ensures
        s@ == stat_rendered(*stat),
{
    let mut s = String::new();
    write_stat(&mut s, stat);
    assert(s@ =~= stat_rendered(*stat));
    s
}

} // verus!
