//! The layout desugarer: implicit blocks, opened by a keyword and closed by
//! dedentation, are rewritten with explicit `{`, `}` and `;` markers.
//!
//! The text is read as a sequence of tokens (blank runs, line breaks and
//! words) and a small state is threaded through them. The model of that
//! state and of each step is given as specification functions; the scanner
//! below is proved to compute exactly what the model says.

use vstd::prelude::*;
use crate::layout_invariants::{
    content, lemma_anchors_ordered, lemma_content_in_order, lemma_line_feeds_kept,
    lemma_markers_balanced, lemma_scanned_is_reached, open_markers, ordered,
};
use crate::strip::{strip_comments, strip_outcome, StripError};
use crate::text::{chars_of, occurrences, push_range, push_repeated, repeated, string_of};

verus! {

/// Why a text could not be desugared.
#[derive(Debug, Clone, Copy, PartialEq, Eq, Structural)]
pub enum LayoutError {
    /// The character at `offset` starts neither a blank run, nor a line
    /// break, nor a word: a carriage return that no line feed follows.
    UnclassifiableToken { offset: usize },
}

/// The three classes of token.
pub enum TokenKind {
    /// A maximal run of spaces and tabs.
    Blank,
    /// A line feed, or a carriage return and a line feed.
    Break,
    /// A maximal run of characters that are neither blank nor part of a
    /// line break.
    Word,
}

/// Horizontal whitespace.
pub open spec fn is_blank(c: char) -> bool {
    c == ' ' || c == '\t'
}

/// The characters that a word is made of.
pub open spec fn is_word_char(c: char) -> bool {
    c != ' ' && c != '\t' && c != '\r' && c != '\n'
}

/// Length of the maximal run of blanks that starts at `i`.
pub open spec fn blank_run(s: Seq<char>, i: int) -> nat
    decreases s.len() - i,
{
    if 0 <= i < s.len() && is_blank(s[i]) {
        1 + blank_run(s, i + 1)
    } else {
        0
    }
}

/// Length of the maximal run of word characters that starts at `i`.
pub open spec fn word_run(s: Seq<char>, i: int) -> nat
    decreases s.len() - i,
{
    if 0 <= i < s.len() && is_word_char(s[i]) {
        1 + word_run(s, i + 1)
    } else {
        0
    }
}

/// The token that starts at `i`, with its length; `None` where the
/// character at `i` starts no token.
pub open spec fn token_at(s: Seq<char>, i: int) -> Option<(TokenKind, nat)>
    recommends
        0 <= i < s.len(),
{
    if is_blank(s[i]) {
        Some((TokenKind::Blank, 1 + blank_run(s, i + 1)))
    } else if s[i] == '\n' {
        Some((TokenKind::Break, 1nat))
    } else if s[i] == '\r' {
        if i + 1 < s.len() && s[i + 1] == '\n' {
            Some((TokenKind::Break, 2nat))
        } else {
            None
        }
    } else {
        Some((TokenKind::Word, 1 + word_run(s, i + 1)))
    }
}

/// The four words after which the next word opens a block.
pub open spec fn is_keyword(w: Seq<char>) -> bool {
    ||| w == seq!['d', 'o']
    ||| w == seq!['w', 'h', 'e', 'r', 'e']
    ||| w == seq!['o', 'f']
    ||| w == seq!['l', 'e', 't']
}

/// What is left of a stack of anchors once every anchor on top that lies
/// to the right of `column` has been popped.
pub open spec fn surviving(anchors: Seq<nat>, column: nat) -> Seq<nat>
    decreases anchors.len(),
{
    if anchors.len() > 0 && anchors.last() > column {
        surviving(anchors.drop_last(), column)
    } else {
        anchors
    }
}

/// The alignment written after a line break: one space for each open block
/// beyond the outermost.
pub open spec fn alignment(depth: nat) -> Seq<char> {
    repeated(' ', if depth > 0 {
        (depth - 1) as nat
    } else {
        0
    })
}

/// The state of the desugarer between two tokens.
pub struct LayoutState {
    /// What has been written so far.
    pub output: Seq<char>,
    /// The columns at which the open blocks began, outermost first.
    pub anchors: Seq<nat>,
    /// Whether the last word was a keyword, so that the next word opens a
    /// block.
    pub trigger: bool,
    /// The number of characters read since the last line break.
    pub column: nat,
    /// Whether no word has been read yet on this line.
    pub first: bool,
}

impl LayoutState {
    /// The state before the first token.
    pub open spec fn start() -> LayoutState {
        LayoutState {
            output: Seq::empty(),
            anchors: Seq::empty(),
            trigger: false,
            column: 0,
            first: true,
        }
    }

    /// A blank run is copied and moves the column.
    pub open spec fn after_blank(self, run: Seq<char>) -> LayoutState {
        LayoutState {
            output: self.output + run,
            anchors: self.anchors,
            trigger: self.trigger,
            column: self.column + run.len(),
            first: self.first,
        }
    }

    /// A line break is copied, followed by the alignment for the open
    /// blocks; the column starts again at zero.
    pub open spec fn after_break(self, brk: Seq<char>) -> LayoutState {
        LayoutState {
            output: self.output + brk + alignment(self.anchors.len()),
            anchors: self.anchors,
            trigger: self.trigger,
            column: 0,
            first: true,
        }
    }

    /// Whether the next word, as the first of its line, opens a block at
    /// the very column of the block around it. The separator that the
    /// column test would call for is then no separator, and it is left out:
    /// the word is the first item of the block that it opens.
    pub open spec fn coincides(self) -> bool {
        &&& self.first
        &&& self.trigger
        &&& self.anchors.len() > 0
        &&& self.anchors.last() == self.column
    }

    /// The anchors that stay open when a word begins at the current column.
    pub open spec fn anchors_at_word(self) -> Seq<nat> {
        if self.first && !self.coincides() {
            surviving(self.anchors, self.column)
        } else {
            self.anchors
        }
    }

    /// The output up to the point where the next word, with its block-open
    /// marker if it has one, is written.
    pub open spec fn output_at_word(self) -> Seq<char> {
        if !self.first {
            self.output
        } else if self.coincides() {
            self.output
        } else {
            let kept = surviving(self.anchors, self.column);
            let closed = self.output + repeated('}', (self.anchors.len() - kept.len()) as nat);
            if kept.len() > 0 && kept.last() == self.column {
                closed.push(';')
            } else {
                closed
            }
        }
    }

    /// A word: as the first of its line it closes the blocks that began to
    /// its right and separates itself from an item at its own column; after
    /// a keyword it opens a block anchored at its column. Nothing that has
    /// been written is taken back.
    pub open spec fn after_word(self, word: Seq<char>) -> LayoutState {
        let before = self.output_at_word();
        let kept = self.anchors_at_word();
        let output = if self.trigger {
            before.push('{') + word
        } else {
            before + word
        };
        LayoutState {
            output,
            anchors: if self.trigger {
                kept.push(self.column)
            } else {
                kept
            },
            trigger: is_keyword(word),
            column: self.column + word.len(),
            first: false,
        }
    }

    /// The state after the token of the given kind and text.
    pub open spec fn after(self, kind: TokenKind, piece: Seq<char>) -> LayoutState {
        match kind {
            TokenKind::Blank => self.after_blank(piece),
            TokenKind::Break => self.after_break(piece),
            TokenKind::Word => self.after_word(piece),
        }
    }

    /// At the end of the text every block still open is closed.
    pub open spec fn finished(self) -> Seq<char> {
        self.output + repeated('}', self.anchors.len())
    }
}

/// The state reached from `st` by reading `s` from position `i` to its end,
/// or the error at the first character that starts no token.
pub open spec fn scanned(s: Seq<char>, i: int, st: LayoutState) -> Result<LayoutState, LayoutError>
    decreases s.len() - i,
    via scanned_terminates
{
    if i < 0 || i >= s.len() {
        Ok(st)
    } else {
        match token_at(s, i) {
            None => Err(LayoutError::UnclassifiableToken { offset: i as usize }),
            Some((kind, len)) => scanned(
                s,
                i + len,
                st.after(kind, s.subrange(i, i + len)),
            ),
        }
    }
}

#[via_fn]
proof fn scanned_terminates(s: Seq<char>, i: int, st: LayoutState) {
    if 0 <= i < s.len() {
        lemma_token_fits(s, i);
    }
}

/// A run that starts inside the text ends inside it.
pub proof fn lemma_runs_fit(s: Seq<char>, i: int)
    requires
        0 <= i <= s.len(),
    ensures
        i + blank_run(s, i) <= s.len(),
        i + word_run(s, i) <= s.len(),
    decreases s.len() - i,
{
    if i < s.len() {
        lemma_runs_fit(s, i + 1);
    }
}

/// A token is not empty and ends inside the text.
pub proof fn lemma_token_fits(s: Seq<char>, i: int)
    requires
        0 <= i < s.len(),
    ensures
        token_at(s, i) matches Some((_, len)) ==> 0 < len && i + len <= s.len(),
{
    lemma_runs_fit(s, i + 1);
}

/// The desugared form of `s`.
pub open spec fn desugared(s: Seq<char>) -> Result<Seq<char>, LayoutError> {
    match scanned(s, 0, LayoutState::start()) {
        Ok(st) => Ok(st.finished()),
        Err(e) => Err(e),
    }
}

/// The anchors as natural numbers.
pub open spec fn columns_of(anchors: Seq<usize>) -> Seq<nat> {
    Seq::new(anchors.len(), |k: int| anchors[k] as nat)
}

/// The state of the desugarer as the scanner holds it.
struct Scanner {
    output: Vec<char>,
    anchors: Vec<usize>,
    trigger: bool,
    column: usize,
    first: bool,
}

impl Scanner {
    /// The state that the scanner stands for.
    spec fn model(&self) -> LayoutState {
        LayoutState {
            output: self.output@,
            anchors: columns_of(self.anchors@),
            trigger: self.trigger,
            column: self.column as nat,
            first: self.first,
        }
    }

    /// The scanner before the first token.
    fn new() -> (sc: Scanner)
        ensures
            sc.model() == LayoutState::start(),
    {
        let sc = Scanner {
            output: Vec::new(),
            anchors: Vec::new(),
            trigger: false,
            column: 0,
            first: true,
        };
        assert(columns_of(sc.anchors@) =~= Seq::<nat>::empty());
        sc
    }

    /// Pops the anchors to the right of the column, writing a block-close
    /// marker for each.
    fn close_to_column(&mut self)
        ensures
            final(self).output@ == old(self).output@ + repeated(
                '}',
                (old(self).anchors@.len() - final(self).anchors@.len()) as nat,
            ),
            columns_of(final(self).anchors@) == surviving(
                columns_of(old(self).anchors@),
                old(self).column as nat,
            ),
            final(self).anchors@.len() <= old(self).anchors@.len(),
            final(self).trigger == old(self).trigger,
            final(self).column == old(self).column,
            final(self).first == old(self).first,
    {
        assert(self.output@ =~= old(self).output@ + repeated('}', 0));
        while self.anchors.len() > 0 && self.anchors[self.anchors.len() - 1] > self.column
            invariant
                self.anchors@.len() <= old(self).anchors@.len(),
                self.output@ == old(self).output@ + repeated(
                    '}',
                    (old(self).anchors@.len() - self.anchors@.len()) as nat,
                ),
                surviving(columns_of(self.anchors@), self.column as nat) == surviving(
                    columns_of(old(self).anchors@),
                    old(self).column as nat,
                ),
                self.trigger == old(self).trigger,
                self.column == old(self).column,
                self.first == old(self).first,
            decreases self.anchors@.len(),
        {
            let ghost before = self.anchors@;
            self.anchors.pop();
            self.output.push('}');
            proof {
                let n = (old(self).anchors@.len() - before.len()) as nat;
                assert(columns_of(before).drop_last() =~= columns_of(self.anchors@));
                assert(repeated('}', n).push('}') =~= repeated('}', n + 1));
                assert(self.output@ =~= old(self).output@ + repeated('}', n + 1));
            }
        }
    }

    /// Reads the word `cs[from..to]`.
    fn read_word(&mut self, cs: &Vec<char>, from: usize, to: usize)
        requires
            from < to <= cs.len(),
            old(self).column + (to - from) <= usize::MAX,
        ensures
            final(self).model() == old(self).model().after_word(
                cs@.subrange(from as int, to as int),
            ),
    {
        let ghost st = self.model();
        if self.first {
            let depth = self.anchors.len();
            let coincides = self.trigger && depth > 0 && self.anchors[depth - 1] == self.column;
            if !coincides {
                self.close_to_column();
                let kept = self.anchors.len();
                if kept > 0 && self.anchors[kept - 1] == self.column {
                    self.output.push(';');
                }
            }
        }
        assert(self.output@ == st.output_at_word());
        assert(columns_of(self.anchors@) == st.anchors_at_word());
        if self.trigger {
            self.output.push('{');
        }
        push_range(&mut self.output, cs, from, to);
        if self.trigger {
            let ghost kept = self.anchors@;
            self.anchors.push(self.column);
            assert(columns_of(self.anchors@) =~= columns_of(kept).push(self.column as nat));
        }
        self.column = self.column + (to - from);
        self.trigger = keyword_at(cs, from, to);
        self.first = false;
    }
}

/// Whether `cs[from..to]` is one of the four keywords.
fn keyword_at(cs: &Vec<char>, from: usize, to: usize) -> (b: bool)
    requires
        from <= to <= cs.len(),
    ensures
        b == is_keyword(cs@.subrange(from as int, to as int)),
{
    let ghost w = cs@.subrange(from as int, to as int);
    let ghost kw_do = seq!['d', 'o'];
    let ghost kw_of = seq!['o', 'f'];
    let ghost kw_let = seq!['l', 'e', 't'];
    let ghost kw_where = seq!['w', 'h', 'e', 'r', 'e'];
    proof {
        assert(kw_do.len() == 2 && kw_do[0] == 'd' && kw_do[1] == 'o');
        assert(kw_of.len() == 2 && kw_of[0] == 'o' && kw_of[1] == 'f');
        assert(kw_let.len() == 3 && kw_let[0] == 'l' && kw_let[1] == 'e' && kw_let[2] == 't');
        assert(kw_where.len() == 5 && kw_where[0] == 'w' && kw_where[1] == 'h' && kw_where[2]
            == 'e' && kw_where[3] == 'r' && kw_where[4] == 'e');
    }
    let n = to - from;
    if n == 2 {
        let a = cs[from];
        let b = cs[from + 1];
        assert(a == w[0] && b == w[1]);
        let hit_do = a == 'd' && b == 'o';
        let hit_of = a == 'o' && b == 'f';
        assert(hit_do ==> w =~= kw_do);
        assert(hit_of ==> w =~= kw_of);
        hit_do || hit_of
    } else if n == 3 {
        let hit = cs[from] == 'l' && cs[from + 1] == 'e' && cs[from + 2] == 't';
        assert(w[0] == cs[from as int] && w[1] == cs[from + 1] && w[2] == cs[from + 2]);
        assert(hit ==> w =~= kw_let);
        hit
    } else if n == 5 {
        let hit = cs[from] == 'w' && cs[from + 1] == 'h' && cs[from + 2] == 'e' && cs[from + 3]
            == 'r' && cs[from + 4] == 'e';
        assert(w[0] == cs[from as int] && w[1] == cs[from + 1] && w[2] == cs[from + 2] && w[3]
            == cs[from + 3] && w[4] == cs[from + 4]);
        assert(hit ==> w =~= kw_where);
        hit
    } else {
        false
    }
}

/// End of the maximal run of blanks that starts at `i`.
fn blank_end(cs: &Vec<char>, i: usize) -> (j: usize)
    requires
        i <= cs.len(),
    ensures
        i <= j <= cs.len(),
        j - i == blank_run(cs@, i as int),
{
    let mut j: usize = i;
    while j < cs.len() && (cs[j] == ' ' || cs[j] == '\t')
        invariant
            i <= j <= cs.len(),
            blank_run(cs@, i as int) == (j - i) + blank_run(cs@, j as int),
        decreases cs.len() - j,
    {
        j += 1;
    }
    j
}

/// End of the maximal run of word characters that starts at `i`.
fn word_end(cs: &Vec<char>, i: usize) -> (j: usize)
    requires
        i <= cs.len(),
    ensures
        i <= j <= cs.len(),
        j - i == word_run(cs@, i as int),
{
    let mut j: usize = i;
    while j < cs.len() && cs[j] != ' ' && cs[j] != '\t' && cs[j] != '\r' && cs[j] != '\n'
        invariant
            i <= j <= cs.len(),
            word_run(cs@, i as int) == (j - i) + word_run(cs@, j as int),
        decreases cs.len() - j,
    {
        j += 1;
    }
    j
}

/// Reads `text` to its end.
fn scan(text: &str) -> (r: Result<Scanner, LayoutError>)
    ensures
        match r {
            Ok(sc) => scanned(text@, 0, LayoutState::start()) == Ok::<LayoutState, LayoutError>(
                sc.model(),
            ),
            Err(e) => scanned(text@, 0, LayoutState::start()) == Err::<LayoutState, LayoutError>(e),
        },
{
    let cs = chars_of(text);
    let n = cs.len();
    let mut sc = Scanner::new();
    let mut i: usize = 0;
    while i < n
        invariant
            n == cs.len(),
            cs@ == text@,
            i <= n,
            sc.column <= i,
            scanned(cs@, i as int, sc.model()) == scanned(cs@, 0, LayoutState::start()),
        decreases n - i,
    {
        let c = cs[i];
        let ghost st = sc.model();
        if c == ' ' || c == '\t' {
            let j = blank_end(&cs, i + 1);
            push_range(&mut sc.output, &cs, i, j);
            sc.column = sc.column + (j - i);
            assert(sc.model() == st.after_blank(cs@.subrange(i as int, j as int)));
            i = j;
        } else if c == '\n' {
            push_range(&mut sc.output, &cs, i, i + 1);
            let depth = sc.anchors.len();
            push_repeated(&mut sc.output, ' ', if depth > 0 { depth - 1 } else { 0 });
            sc.column = 0;
            sc.first = true;
            assert(sc.model() == st.after_break(cs@.subrange(i as int, i + 1)));
            i = i + 1;
        } else if c == '\r' {
            if i + 1 < n && cs[i + 1] == '\n' {
                push_range(&mut sc.output, &cs, i, i + 2);
                let depth = sc.anchors.len();
                push_repeated(&mut sc.output, ' ', if depth > 0 { depth - 1 } else { 0 });
                sc.column = 0;
                sc.first = true;
                assert(sc.model() == st.after_break(cs@.subrange(i as int, i + 2)));
                i = i + 2;
            } else {
                return Err(LayoutError::UnclassifiableToken { offset: i });
            }
        } else {
            let j = word_end(&cs, i + 1);
            sc.read_word(&cs, i, j);
            i = j;
        }
    }
    Ok(sc)
}

/// Rewrites the implicit blocks of `text` with explicit markers.
///
/// The result is exactly what the model gives: the desugared text, or the
/// position of the first character that starts no token. In the text that
/// comes back the markers are balanced: it holds as many `{` as `}` beyond
/// those of `text` itself. Nothing of `text` is dropped or moved: but for
/// `{`, `}`, `;` and spaces the text that comes back is `text`, and it has as
/// many line feeds.
pub fn desugar(text: &str) -> (r: Result<String, LayoutError>)
    ensures
        match r {
            Ok(out) => desugared(text@) == Ok::<Seq<char>, LayoutError>(out@),
            Err(e) => desugared(text@) == Err::<Seq<char>, LayoutError>(e),
        },
        r matches Ok(out) ==> open_markers(out@, text@) == 0,
        r matches Ok(out) ==> content(out@) == content(text@),
        r matches Ok(out) ==> occurrences(out@, '\n') == occurrences(text@, '\n'),
{
    proof {
        lemma_markers_balanced(text@);
        lemma_content_in_order(text@);
        lemma_line_feeds_kept(text@);
    }
    match scan(text) {
        Ok(sc) => {
            let mut sc = sc;
            let depth = sc.anchors.len();
            push_repeated(&mut sc.output, '}', depth);
            Ok(string_of(&sc.output))
        },
        Err(e) => Err(e),
    }
}

/// The anchors of the blocks that are open at the end of `text`, outermost
/// first: the columns at which they began. No anchor lies to the left of
/// one below it.
pub fn open_anchors(text: &str) -> (r: Result<Vec<usize>, LayoutError>)
    ensures
        match r {
            Ok(anchors) => scanned(text@, 0, LayoutState::start()) matches Ok(st) && st.anchors
                == columns_of(anchors@) && ordered(st.anchors),
            Err(e) => scanned(text@, 0, LayoutState::start()) == Err::<LayoutState, LayoutError>(e),
        },
{
    match scan(text) {
        Ok(sc) => {
            proof {
                let tokens = lemma_scanned_is_reached(text@, 0, 0, LayoutState::start());
                lemma_anchors_ordered(text@, tokens);
            }
            Ok(sc.anchors)
        },
        Err(e) => Err(e),
    }
}

/// Why a text could not be stripped and desugared.
#[derive(Debug, Clone, Copy, PartialEq, Eq, Structural)]
pub enum CommifyError {
    /// The stripper failed.
    Strip(StripError),
    /// The desugarer failed, on the stripped text.
    Layout(LayoutError),
}

/// The stripped text, desugared.
pub open spec fn commified(text: Seq<char>) -> Result<Seq<char>, CommifyError> {
    match strip_outcome(text) {
        Err(e) => Err(CommifyError::Strip(e)),
        Ok(clean) => match desugared(clean) {
            Ok(out) => Ok(out),
            Err(e) => Err(CommifyError::Layout(e)),
        },
    }
}

/// Strips `val` and rewrites the implicit blocks of what is left with
/// explicit markers.
pub fn commify(val: &str) -> (r: Result<String, CommifyError>)
    ensures
        match r {
            Ok(out) => commified(val@) == Ok::<Seq<char>, CommifyError>(out@),
            Err(e) => commified(val@) == Err::<Seq<char>, CommifyError>(e),
        },
{
    match strip_comments(val) {
        Err(e) => Err(CommifyError::Strip(e)),
        Ok(clean) => match desugar(clean.as_str()) {
            Ok(out) => Ok(out),
            Err(e) => Err(CommifyError::Layout(e)),
        },
    }
}

} // verus!
