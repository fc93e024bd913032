//! Numbered listings of a text and the excerpt that points at a position in
//! it: the lines that lead to the position, and a caret below it.

use vstd::prelude::*;
use crate::text::{
    chars_of, decimal, push_decimal, push_range, push_repeated, repeated, string_of,
};

verus! {

/// The index of the first line feed at or after `i`; the length of `s`
/// where there is none.
pub open spec fn first_break(s: Seq<char>, i: int) -> int
    decreases s.len() - i,
{
    if i < 0 || i >= s.len() {
        s.len() as int
    } else if s[i] == '\n' {
        i
    } else {
        first_break(s, i + 1)
    }
}

/// The line that starts at `i`: it ends before the next line feed, and
/// before the carriage return in front of that line feed if there is one.
pub open spec fn line_at(s: Seq<char>, i: int) -> Seq<char> {
    let end = first_break(s, i);
    if i < end < s.len() && s[end - 1] == '\r' {
        s.subrange(i, end - 1)
    } else {
        s.subrange(i, end)
    }
}

/// The lines of `s` from position `i` on. A line feed at the very end of
/// the text starts no further line.
pub open spec fn lines_from(s: Seq<char>, i: int) -> Seq<Seq<char>>
    decreases s.len() + 1 - i,
    via lines_from_terminates
{
    if i < 0 || i >= s.len() {
        Seq::empty()
    } else {
        seq![line_at(s, i)] + lines_from(s, first_break(s, i) + 1)
    }
}

#[via_fn]
proof fn lines_from_terminates(s: Seq<char>, i: int) {
    if 0 <= i < s.len() {
        lemma_first_break_bounds(s, i);
    }
}

/// The first line feed from `i` on lies between `i` and the end.
pub proof fn lemma_first_break_bounds(s: Seq<char>, i: int)
    requires
        0 <= i <= s.len(),
    ensures
        i <= first_break(s, i) <= s.len(),
    decreases s.len() - i,
{
    if i < s.len() && s[i] != '\n' {
        lemma_first_break_bounds(s, i + 1);
    }
}

/// The lines of `s`.
pub open spec fn lines_of(s: Seq<char>) -> Seq<Seq<char>> {
    lines_from(s, 0)
}

/// `s` with spaces in front of it, as many as it falls short of `width`.
pub open spec fn right_aligned(s: Seq<char>, width: nat) -> Seq<char> {
    repeated(' ', if s.len() < width {
        (width - s.len()) as nat
    } else {
        0
    }) + s
}

/// What stands between a line's number and its text.
pub open spec fn gutter() -> Seq<char> {
    seq![' ', '|', ' ']
}

/// A line of a listing: the number in a column of three, the gutter, the
/// text.
pub open spec fn numbered(number: nat, line: Seq<char>) -> Seq<char> {
    right_aligned(decimal(number), 3) + gutter() + line
}

/// The listing of `s`: its lines, numbered from one.
pub open spec fn listing(s: Seq<char>) -> Seq<Seq<char>> {
    let lines = lines_of(s);
    Seq::new(lines.len(), |k: int| numbered((k + 1) as nat, lines[k]))
}

/// The position at which line `k` starts, if every line before it is
/// followed by one character.
pub open spec fn line_start(lines: Seq<Seq<char>>, k: int) -> nat
    decreases k,
{
    if k <= 0 {
        0
    } else {
        line_start(lines, k - 1) + lines[k - 1].len() + 1
    }
}

/// Whether line `k` reaches the position `target`.
pub open spec fn reaches(lines: Seq<Seq<char>>, k: int, target: nat) -> bool {
    line_start(lines, k) + lines[k].len() >= target
}

/// The first line from `from` on that reaches `target`; the number of
/// lines if none does.
pub open spec fn target_line(lines: Seq<Seq<char>>, target: nat, from: int) -> int
    decreases lines.len() - from,
{
    if from < 0 || from >= lines.len() {
        lines.len() as int
    } else if reaches(lines, from, target) {
        from
    } else {
        target_line(lines, target, from + 1)
    }
}

/// The line that points at `target` in line `k`: tildes up to the
/// position, past the six characters of the number column and the gutter,
/// and a caret.
pub open spec fn pointer(lines: Seq<Seq<char>>, k: int, target: nat) -> Seq<char> {
    repeated('~', (target - line_start(lines, k) + 6) as nat).push('^')
}

/// The excerpt for `target`: the first line that reaches it, the two lines
/// before that one as far as there are any, and the pointer. Nothing where
/// no line reaches it.
pub open spec fn excerpt(s: Seq<char>, target: nat) -> Seq<Seq<char>> {
    let lines = lines_of(s);
    let k = target_line(lines, target, 0);
    if k >= lines.len() {
        Seq::empty()
    } else {
        let before2 = if k > 1 {
            seq![numbered((k - 1) as nat, lines[k - 2])]
        } else {
            Seq::empty()
        };
        let before1 = if k > 0 {
            seq![numbered(k as nat, lines[k - 1])]
        } else {
            Seq::empty()
        };
        before2 + before1 + seq![numbered((k + 1) as nat, lines[k]), pointer(lines, k, target)]
    }
}

/// The texts of a sequence of lines.
pub open spec fn line_texts(lines: Seq<Vec<char>>) -> Seq<Seq<char>> {
    Seq::new(lines.len(), |k: int| lines[k]@)
}

/// The texts of a sequence of strings.
pub open spec fn texts(strings: Seq<String>) -> Seq<Seq<char>> {
    Seq::new(strings.len(), |k: int| strings[k]@)
}

/// The index of the first line feed at or after `i`.
fn find_break(cs: &Vec<char>, i: usize) -> (j: usize)
    requires
        i <= cs.len(),
    ensures
        i <= j <= cs.len(),
        j == first_break(cs@, i as int),
{
    let mut j: usize = i;
    while j < cs.len() && cs[j] != '\n'
        invariant
            i <= j <= cs.len(),
            first_break(cs@, i as int) == first_break(cs@, j as int),
        decreases cs.len() - j,
    {
        j += 1;
    }
    j
}

/// The lines of `cs`.
fn split_lines(cs: &Vec<char>) -> (lines: Vec<Vec<char>>)
    ensures
        line_texts(lines@) == lines_of(cs@),
{
    let mut lines: Vec<Vec<char>> = Vec::new();
    let mut i: usize = 0;
    assert(line_texts(lines@) + lines_from(cs@, 0) =~= lines_of(cs@));
    while i < cs.len()
        invariant
            i <= cs.len(),
            line_texts(lines@) + lines_from(cs@, i as int) == lines_of(cs@),
        decreases cs.len() - i,
    {
        let end = find_break(cs, i);
        let stop = if i < end && end < cs.len() && cs[end - 1] == '\r' {
            end - 1
        } else {
            end
        };
        let mut line: Vec<char> = Vec::new();
        push_range(&mut line, cs, i, stop);
        let ghost before = lines@;
        lines.push(line);
        proof {
            assert(line@ =~= line_at(cs@, i as int));
            assert(line_texts(lines@) =~= line_texts(before) + seq![line_at(cs@, i as int)]);
            assert(line_texts(lines@) + lines_from(cs@, end + 1) =~= line_texts(before)
                + lines_from(cs@, i as int));
        }
        i = if end < cs.len() {
            end + 1
        } else {
            end
        };
    }
    assert(line_texts(lines@) + lines_from(cs@, i as int) =~= line_texts(lines@));
    lines
}

/// A line of a listing.
fn numbered_line(number: usize, line: &Vec<char>) -> (s: String)
    ensures
        s@ == numbered(number as nat, line@),
{
    let mut digits: Vec<char> = Vec::new();
    push_decimal(&mut digits, number as u64);
    let mut out: Vec<char> = Vec::new();
    let width = digits.len();
    push_repeated(&mut out, ' ', if width < 3 { 3 - width } else { 0 });
    push_range(&mut out, &digits, 0, width);
    out.push(' ');
    out.push('|');
    out.push(' ');
    push_range(&mut out, line, 0, line.len());
    proof {
        assert(digits@ =~= decimal(number as nat));
        assert(digits@.subrange(0, width as int) =~= digits@);
        assert(line@.subrange(0, line.len() as int) =~= line@);
        assert(out@ =~= numbered(number as nat, line@));
    }
    string_of(&out)
}

/// The lines of `code`, each behind its number.
pub fn codelist(code: &str) -> (list: Vec<String>)
    ensures
        texts(list@) == listing(code@),
{
    let cs = chars_of(code);
    let lines = split_lines(&cs);
    let mut list: Vec<String> = Vec::new();
    let mut k: usize = 0;
    while k < lines.len()
        invariant
            k <= lines.len(),
            line_texts(lines@) == lines_of(code@),
            list@.len() == k,
            forall|j: int| 0 <= j < k ==> (#[trigger] list@[j])@ == listing(code@)[j],
        decreases lines.len() - k,
    {
        assert(line_texts(lines@)[k as int] == lines@[k as int]@);
        list.push(numbered_line(k + 1, &lines[k]));
        k += 1;
    }
    assert(texts(list@) =~= listing(code@));
    list
}

/// The excerpt of `code` that points at the position `tok_pos`: up to
/// three numbered lines, the last of them the first line that reaches the
/// position, and a line with a caret below it. Empty where the position
/// lies behind the last line.
pub fn code_error(code: &str, tok_pos: usize) -> (report: Vec<String>)
    ensures
        texts(report@) == excerpt(code@, tok_pos as nat),
{
    let cs = chars_of(code);
    let lines = split_lines(&cs);
    let ghost all = lines_of(code@);
    let mut report: Vec<String> = Vec::new();
    let mut pos: usize = 0;
    let mut k: usize = 0;
    while k < lines.len()
        invariant
            k <= lines.len(),
            line_texts(lines@) == all,
            all == lines_of(code@),
            pos == line_start(all, k as int),
            pos <= tok_pos,
            report@.len() == 0,
            target_line(all, tok_pos as nat, 0) == target_line(all, tok_pos as nat, k as int),
        decreases lines.len() - k,
    {
        assert(all[k as int] == lines@[k as int]@);
        let width = lines[k].len();
        let reached = match pos.checked_add(width) {
            Some(end) => end >= tok_pos,
            None => true,
        };
        assert(reached == reaches(all, k as int, tok_pos as nat));
        if reached {
            if k > 1 {
                assert(all[k - 2] == lines@[k - 2]@);
                report.push(numbered_line(k - 1, &lines[k - 2]));
            }
            if k > 0 {
                assert(all[k - 1] == lines@[k - 1]@);
                report.push(numbered_line(k, &lines[k - 1]));
            }
            report.push(numbered_line(k + 1, &lines[k]));
            let mut mark: Vec<char> = Vec::new();
            push_repeated(&mut mark, '~', 6);
            push_repeated(&mut mark, '~', tok_pos - pos);
            mark.push('^');
            assert(mark@ =~= pointer(all, k as int, tok_pos as nat));
            report.push(string_of(&mark));
            assert(texts(report@) =~= excerpt(code@, tok_pos as nat));
            return report;
        }
        pos = pos + width + 1;
        k += 1;
    }
    assert(texts(report@) =~= excerpt(code@, tok_pos as nat));
    report
}

/// How a parse failed, as far as the report depends on it.
#[derive(Debug, Clone, Copy, PartialEq, Eq, Structural)]
pub enum ParseFailure {
    /// No token starts at the position.
    InvalidToken { location: usize },
    /// The token at the position is not one that the grammar expects there.
    UnrecognizedToken { location: usize },
    /// Any other failure: it names no position.
    Other,
}

/// The heading of a report on an invalid token.
pub const INVALID_TOKEN: &'static str = "Error: Invalid token:";

/// The heading of a report on an unrecognized token.
pub const UNRECOGNIZED_TOKEN: &'static str = "Error: Unrecognized token:";

/// The report on a failure: a heading and the excerpt for the position
/// that the failure names; nothing for a failure that names none.
pub open spec fn failure_report(code: Seq<char>, failure: ParseFailure) -> Seq<Seq<char>> {
    match failure {
        ParseFailure::InvalidToken { location } => seq![INVALID_TOKEN@] + excerpt(
            code,
            location as nat,
        ),
        ParseFailure::UnrecognizedToken { location } => seq![UNRECOGNIZED_TOKEN@] + excerpt(
            code,
            location as nat,
        ),
        ParseFailure::Other => Seq::empty(),
    }
}

/// Hands on what a parse of `code` gave: the value, or the report on the
/// failure.
pub fn parse_results<C>(code: &str, res: Result<C, ParseFailure>) -> (r: Result<C, Vec<String>>)
    ensures
        match res {
            Ok(value) => r == Ok::<C, Vec<String>>(value),
            Err(failure) => r matches Err(report) && texts(report@) == failure_report(
                code@,
                failure,
            ),
        },
{
    match res {
        Ok(value) => Ok(value),
        Err(ParseFailure::Other) => {
            let report: Vec<String> = Vec::new();
            assert(texts(report@) =~= failure_report(code@, ParseFailure::Other));
            Err(report)
        },
        Err(ParseFailure::InvalidToken { location }) => {
            let mut report: Vec<String> = Vec::new();
            report.push(INVALID_TOKEN.to_owned());
            let mut lines = code_error(code, location);
            let ghost shown = lines@;
            report.append(&mut lines);
            assert(texts(report@) =~= seq![INVALID_TOKEN@] + texts(shown));
            Err(report)
        },
        Err(ParseFailure::UnrecognizedToken { location }) => {
            let mut report: Vec<String> = Vec::new();
            report.push(UNRECOGNIZED_TOKEN.to_owned());
            let mut lines = code_error(code, location);
            let ghost shown = lines@;
            report.append(&mut lines);
            assert(texts(report@) =~= seq![UNRECOGNIZED_TOKEN@] + texts(shown));
            Err(report)
        },
    }
}

} // verus!
