//! The stripper: line comments, block comments, trailing statement
//! terminators and directive lines are removed, and what character and
//! string literals hold is masked, so that nothing inside them is taken for
//! layout.
//!
//! Each of the six passes is one substitution of a regular expression over
//! the whole text. The substitutions are made by the `regex` crate; what one
//! substitution yields is known here only by name.

use vstd::prelude::*;

verus! {

/// Line comments: from `--` to the end of the line.
pub const LINE_COMMENT: &'static str = r"--[^\n\r]*";

/// Block comments: from `{-` to the first `-}` after it, across lines.
pub const BLOCK_COMMENT: &'static str = r"\{-[\s\S]*?-\}";

/// Runs of `;` at the end of a line, with the whitespace before the end.
pub const TRAILING_TERMINATORS: &'static str = r"(?m);+\s*$";

/// Lines that begin with a conditional-compilation directive.
pub const DIRECTIVE_LINE: &'static str = r"(?m)^#(if|ifn?def|endif|else).*";

/// Character literals, with escaped characters.
pub const CHAR_LITERAL: &'static str = r#"'(\\.|[^']|\\ESC)'"#;

/// String literals, in which an escaped quote does not end the literal.
pub const STRING_LITERAL: &'static str = r#""([^"\\]|\\.)*?""#;

/// What stands for every character literal.
pub const CHAR_PLACEHOLDER: &'static str = "'0'";

/// What stands for every string literal.
pub const STRING_PLACEHOLDER: &'static str = "\"1\"";

/// The number of passes.
pub const PASSES: usize = 6;

/// Why a text could not be stripped.
#[derive(Debug, Clone, Copy, PartialEq, Eq, Structural)]
pub enum StripError {
    /// The engine did not accept the pattern of the pass with this number,
    /// counted from zero.
    PatternRejected { pass: usize },
}

/// The error of the `regex` crate.
#[verifier::external_type_specification]
#[verifier::external_body]
pub struct ExRegexError(regex::Error);

/// Whether `regex::Regex::new` accepts the pattern.
pub uninterp spec fn pattern_accepted(pattern: Seq<char>) -> bool;

/// What `regex::Regex::replace_all` yields for a regular expression compiled
/// from `pattern`, on `text`, with `replacement`.
pub uninterp spec fn substituted(
    pattern: Seq<char>,
    text: Seq<char>,
    replacement: Seq<char>,
) -> Seq<char>;

/// Compiles `pattern` with `regex::Regex::new` and replaces every match in
/// `text` with `regex::Regex::replace_all`. The contract claims no more than
/// that both are functions of their arguments: whether the pattern is
/// accepted depends on the pattern alone, and the text that comes back on
/// the pattern, the text and the replacement.
#[verifier::external_body]
fn substitute(pattern: &str, text: &str, replacement: &str) -> (r: Result<String, regex::Error>)
    ensures
        r is Ok <==> pattern_accepted(pattern@),
        r matches Ok(out) ==> out@ == substituted(pattern@, text@, replacement@),
{
    match regex::Regex::new(pattern) {
        Ok(re) => Ok(re.replace_all(text, replacement).into_owned()),
        Err(e) => Err(e),
    }
}

/// The pattern of a pass.
pub open spec fn pass_pattern(pass: nat) -> Seq<char> {
    if pass == 0 {
        LINE_COMMENT@
    } else if pass == 1 {
        BLOCK_COMMENT@
    } else if pass == 2 {
        TRAILING_TERMINATORS@
    } else if pass == 3 {
        DIRECTIVE_LINE@
    } else if pass == 4 {
        CHAR_LITERAL@
    } else {
        STRING_LITERAL@
    }
}

/// What a pass puts in the place of each match.
pub open spec fn pass_replacement(pass: nat) -> Seq<char> {
    if pass == 4 {
        CHAR_PLACEHOLDER@
    } else if pass == 5 {
        STRING_PLACEHOLDER@
    } else {
        Seq::empty()
    }
}

/// The text after the first `passes` passes.
pub open spec fn stripped_through(text: Seq<char>, passes: nat) -> Seq<char>
    decreases passes,
{
    if passes == 0 {
        text
    } else {
        let pass = (passes - 1) as nat;
        substituted(pass_pattern(pass), stripped_through(text, pass), pass_replacement(pass))
    }
}

/// The text after all six passes.
pub open spec fn stripped(text: Seq<char>) -> Seq<char> {
    stripped_through(text, PASSES as nat)
}

/// Whether no pass changes the text: each of the six substitutions, made on
/// `text` itself, yields `text`.
pub open spec fn settled(text: Seq<char>) -> bool {
    forall|pass: nat|
        pass < PASSES ==> #[trigger] substituted(pass_pattern(pass), text, pass_replacement(pass))
            == text
}

/// A text that no pass changes comes back from the first `passes` passes as
/// it went in.
pub proof fn lemma_settled_through(text: Seq<char>, passes: nat)
    requires
        settled(text),
        passes <= PASSES,
    ensures
        stripped_through(text, passes) == text,
    decreases passes,
{
    if passes > 0 {
        let pass = (passes - 1) as nat;
        lemma_settled_through(text, pass);
        assert(substituted(pass_pattern(pass), text, pass_replacement(pass)) == text);
    }
}

/// Where no pass changes the stripped text, stripping it once more yields
/// the same text.
pub proof fn lemma_stripping_settled_text(text: Seq<char>)
    requires
        settled(stripped(text)),
    ensures
        stripped(stripped(text)) == stripped(text),
{
    lemma_settled_through(stripped(text), PASSES as nat);
}

/// The first pass from `from` on whose pattern is not accepted; the number
/// of passes if there is none.
pub open spec fn first_rejected(from: nat) -> nat
    decreases PASSES - from,
{
    if from >= PASSES {
        PASSES as nat
    } else if !pattern_accepted(pass_pattern(from)) {
        from
    } else {
        first_rejected(from + 1)
    }
}

/// What stripping yields: the stripped text where the engine accepts all
/// six patterns, else the first pass whose pattern it rejects.
pub open spec fn strip_outcome(text: Seq<char>) -> Result<Seq<char>, StripError> {
    if first_rejected(0) >= PASSES {
        Ok(stripped(text))
    } else {
        Err(StripError::PatternRejected { pass: first_rejected(0) as usize })
    }
}

/// The pattern and the replacement of a pass.
fn pass_texts(pass: usize) -> (texts: (&'static str, &'static str))
    requires
        pass < PASSES,
    ensures
        texts.0@ == pass_pattern(pass as nat),
        texts.1@ == pass_replacement(pass as nat),
{
    proof {
        reveal_strlit("");
    }
    if pass == 0 {
        (LINE_COMMENT, "")
    } else if pass == 1 {
        (BLOCK_COMMENT, "")
    } else if pass == 2 {
        (TRAILING_TERMINATORS, "")
    } else if pass == 3 {
        (DIRECTIVE_LINE, "")
    } else if pass == 4 {
        (CHAR_LITERAL, CHAR_PLACEHOLDER)
    } else {
        (STRING_LITERAL, STRING_PLACEHOLDER)
    }
}

/// What a pass hands on, given what the engine made of it: the text for the
/// next pass, or the pass as the one that failed.
pub fn pass_result(pass: usize, engine: Result<String, regex::Error>) -> (r: Result<
    String,
    StripError,
>)
    ensures
        match engine {
            Ok(out) => r == Ok::<String, StripError>(out),
            Err(_) => r == Err::<String, StripError>(StripError::PatternRejected { pass }),
        },
{
    match engine {
        Ok(out) => Ok(out),
        Err(_) => Err(StripError::PatternRejected { pass }),
    }
}

/// Removes comments, trailing terminators and directive lines from `text`
/// and masks its literals, in six passes over the whole text.
pub fn strip_comments(text: &str) -> (r: Result<String, StripError>)
    ensures
        match r {
            Ok(out) => strip_outcome(text@) == Ok::<Seq<char>, StripError>(out@),
            Err(e) => strip_outcome(text@) == Err::<Seq<char>, StripError>(e),
        },
{
    let mut current: String = text.to_owned();
    let mut pass: usize = 0;
    while pass < PASSES
        invariant
            pass <= PASSES,
            current@ == stripped_through(text@, pass as nat),
            first_rejected(0) == first_rejected(pass as nat),
        decreases PASSES - pass,
    {
        let (pattern, replacement) = pass_texts(pass);
        match pass_result(pass, substitute(pattern, current.as_str(), replacement)) {
            Ok(out) => {
                current = out;
            },
            Err(e) => {
                return Err(e);
            },
        }
        pass += 1;
    }
    Ok(current)
}

} // verus!
