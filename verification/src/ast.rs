//! The syntax tree that the renderer reads: the forms that have a rendering
//! rule of their own, and an opaque form for every other node, which holds
//! no more than a structural description of what it stands for.

use vstd::prelude::*;

verus! {

/// The structural description of a node that has no rendering rule. It is
/// never empty.
#[derive(Debug, PartialEq, Eq)]
pub struct Description {
    text: String,
}

impl View for Description {
    type V = Seq<char>;

    closed spec fn view(&self) -> Seq<char> {
        self.text@
    }
}

impl Description {
    #[verifier::type_invariant]
    spec fn well_formed(self) -> bool {
        self.text@.len() > 0
    }

    /// The description with the given text; none for an empty text.
    pub fn new(text: String) -> (d: Option<Description>)
        ensures
            text@.len() == 0 <==> d is None,
            d matches Some(desc) ==> desc@ == text@,
    {
        if text.as_str().is_empty() {
            None
        } else {
            Some(Description { text })
        }
    }

    /// The text of the description.
    pub fn as_str(&self) -> (s: &str)
        ensures
            s@ == self@,
            s@.len() > 0,
    {
        proof {
            use_type_invariant(self);
        }
        self.text.as_str()
    }
}

/// A type span: the types that make up one slot of a function type.
pub type TySpan = Vec<Ty>;

/// A type.
#[derive(Debug, PartialEq, Eq)]
pub enum Ty {
    /// A named type.
    Ref(String),
    /// A nested span.
    Span(Vec<Ty>),
    /// A parenthesized group of spans.
    Parens(Vec<Vec<Ty>>),
    /// A bracketed group of spans.
    Brackets(Vec<Vec<Ty>>),
    /// A function type: the span of its argument, and the rest.
    Pair(Vec<Ty>, Box<Ty>),
    /// Any other type.
    Opaque(Description),
}

/// An expression.
#[derive(Debug, PartialEq, Eq)]
pub enum Expr {
    /// A parenthesized group.
    Parens(Vec<Expr>),
    /// A block of expression rows, with the bindings of its `where` clause
    /// if it has one.
    Do(Vec<Vec<Expr>>, Option<Vec<Statement>>),
    /// A name.
    Ref(String),
    /// A number.
    Number(i64),
    /// A binary operation: the operator stands between its operands.
    Op(Box<Expr>, String, Box<Expr>),
    /// Any other expression.
    Opaque(Description),
}

/// A statement.
#[derive(Debug, PartialEq, Eq)]
pub enum Statement {
    /// The declaration of the type of a name.
    Prototype(String, Vec<Ty>),
    /// A binding of a name: its arguments and the expressions of its body.
    Assign(String, Vec<String>, Vec<Expr>),
    /// Any other statement.
    Opaque(Description),
}

} // verus!
