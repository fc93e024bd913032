//! What holds of the desugarer on every text: the markers it writes are
//! balanced, and the anchors of the open blocks are ordered.

use vstd::prelude::*;
use crate::layout::{alignment, desugared, scanned, surviving, token_at, LayoutState, TokenKind};
use crate::text::{
    lemma_occurrences_concat, lemma_occurrences_push, lemma_occurrences_repeated, occurrences,
    repeated,
};

verus! {

/// By how many the block-open markers written into `output` exceed the
/// block-close markers written into it, where `source` is the text that was
/// copied into it: braces of the source are no markers.
pub open spec fn open_markers(output: Seq<char>, source: Seq<char>) -> int {
    (occurrences(output, '{') - occurrences(source, '{')) - (occurrences(output, '}')
        - occurrences(source, '}'))
}

/// The state has written one unmatched block-open marker for each open
/// block.
pub open spec fn balanced(st: LayoutState, consumed: Seq<char>) -> bool {
    open_markers(st.output, consumed) == st.anchors.len()
}

/// Whether the desugarer writes `c` of its own: as a marker, or as
/// alignment.
pub open spec fn is_written(c: char) -> bool {
    c == '{' || c == '}' || c == ';' || c == ' '
}

/// What survives is the lower part of the stack, and its top does not lie
/// to the right of the column.
proof fn lemma_surviving_prefix(anchors: Seq<nat>, column: nat)
    ensures
        surviving(anchors, column).len() <= anchors.len(),
        surviving(anchors, column) == anchors.take(surviving(anchors, column).len() as int),
        surviving(anchors, column).len() > 0 ==> surviving(anchors, column).last() <= column,
    decreases anchors.len(),
{
    if anchors.len() > 0 && anchors.last() > column {
        lemma_surviving_prefix(anchors.drop_last(), column);
        let n = surviving(anchors, column).len() as int;
        assert(anchors.drop_last().take(n) =~= anchors.take(n));
    } else {
        assert(anchors.take(anchors.len() as int) =~= anchors);
    }
}

/// How often a word step writes `c` in front of the word: once for each
/// block that it closes, once where it separates, once where it opens.
pub open spec fn written_at_word(st: LayoutState, c: char) -> nat {
    let kept = st.anchors_at_word();
    let closes = if c == '}' {
        (st.anchors.len() - kept.len()) as nat
    } else {
        0
    };
    let separates = if c == ';' && st.first && !st.coincides() && kept.len() > 0 && kept.last()
        == st.column {
        1nat
    } else {
        0
    };
    let opens = if c == '{' && st.trigger {
        1nat
    } else {
        0
    };
    closes + separates + opens
}

/// How often the step over a token of the given kind writes `c` beside what
/// it copies: the alignment after a break, the markers in front of a word.
pub open spec fn written_by(st: LayoutState, kind: TokenKind, c: char) -> nat {
    match kind {
        TokenKind::Blank => 0,
        TokenKind::Break => if c == ' ' {
            alignment(st.anchors.len()).len()
        } else {
            0
        },
        TokenKind::Word => written_at_word(st, c),
    }
}

/// One token adds to the output what it holds of a character, and what the
/// step writes of it.
proof fn lemma_step_counts(s: Seq<char>, i: int, st: LayoutState, c: char)
    requires
        0 <= i < s.len(),
        token_at(s, i) is Some,
    ensures
        ({
            let (kind, len) = token_at(s, i).unwrap();
            let next = st.after(kind, s.subrange(i, i + len));
            &&& i + len <= s.len()
            &&& occurrences(next.output, c) - occurrences(s.take(i + len), c) == occurrences(
                st.output,
                c,
            ) - occurrences(s.take(i), c) + written_by(st, kind, c)
        }),
{
    let (kind, len) = token_at(s, i).unwrap();
    crate::layout::lemma_token_fits(s, i);
    let piece = s.subrange(i, i + len);
    assert(s.take(i + len) =~= s.take(i) + piece);
    lemma_occurrences_concat(s.take(i), piece, c);
    match kind {
        TokenKind::Blank => {
            lemma_occurrences_concat(st.output, piece, c);
        },
        TokenKind::Break => {
            let pad = alignment(st.anchors.len());
            lemma_occurrences_repeated(' ', pad.len(), c);
            assert(pad =~= repeated(' ', pad.len()));
            lemma_occurrences_concat(st.output, piece, c);
            lemma_occurrences_concat(st.output + piece, pad, c);
        },
        TokenKind::Word => {
            let before = st.output_at_word();
            let kept = st.anchors_at_word();
            assert(occurrences(before, c) == occurrences(st.output, c) + written_at_word(st, c)
                - if c == '{' && st.trigger {
                1int
            } else {
                0int
            }) by {
                if st.first && !st.coincides() {
                    lemma_surviving_prefix(st.anchors, st.column);
                    let popped = (st.anchors.len() - kept.len()) as nat;
                    let closed = st.output + repeated('}', popped);
                    lemma_occurrences_repeated('}', popped, c);
                    lemma_occurrences_concat(st.output, repeated('}', popped), c);
                    lemma_occurrences_push(closed, ';', c);
                }
            }
            if st.trigger {
                lemma_occurrences_push(before, '{', c);
                lemma_occurrences_concat(before.push('{'), piece, c);
            } else {
                lemma_occurrences_concat(before, piece, c);
            }
        },
    }
}

/// One token keeps the balance.
proof fn lemma_step_balanced(s: Seq<char>, i: int, st: LayoutState)
    requires
        0 <= i < s.len(),
        balanced(st, s.take(i)),
        token_at(s, i) is Some,
    ensures
        ({
            let (kind, len) = token_at(s, i).unwrap();
            &&& i + len <= s.len()
            &&& balanced(st.after(kind, s.subrange(i, i + len)), s.take(i + len))
        }),
{
    lemma_step_counts(s, i, st, '{');
    lemma_step_counts(s, i, st, '}');
    lemma_surviving_prefix(st.anchors, st.column);
}

/// Reading on to the end keeps the balance.
proof fn lemma_scanned_balanced(s: Seq<char>, i: int, st: LayoutState)
    requires
        0 <= i <= s.len(),
        balanced(st, s.take(i)),
    ensures
        scanned(s, i, st) matches Ok(last) ==> balanced(last, s),
    decreases s.len() - i,
{
    if i >= s.len() {
        assert(s.take(i) =~= s);
    } else if token_at(s, i) is Some {
        let (kind, len) = token_at(s, i).unwrap();
        lemma_step_balanced(s, i, st);
        lemma_scanned_balanced(s, i + len, st.after(kind, s.subrange(i, i + len)));
    }
}

/// Reading on to the end adds nothing of a character that the desugarer
/// does not write.
proof fn lemma_scanned_copies(s: Seq<char>, i: int, st: LayoutState, c: char)
    requires
        0 <= i <= s.len(),
        !is_written(c),
        occurrences(st.output, c) == occurrences(s.take(i), c),
    ensures
        scanned(s, i, st) matches Ok(last) ==> occurrences(last.output, c) == occurrences(s, c),
    decreases s.len() - i,
{
    if i >= s.len() {
        assert(s.take(i) =~= s);
    } else if token_at(s, i) is Some {
        let (kind, len) = token_at(s, i).unwrap();
        lemma_step_counts(s, i, st, c);
        lemma_scanned_copies(s, i + len, st.after(kind, s.subrange(i, i + len)), c);
    }
}

/// The desugarer writes as many block-close markers as block-open markers:
/// what the output holds of either brace beyond the source's own is the
/// same number.
pub proof fn lemma_markers_balanced(s: Seq<char>)
    ensures
        desugared(s) matches Ok(out) ==> open_markers(out, s) == 0,
{
    let start = LayoutState::start();
    assert(s.take(0) =~= Seq::<char>::empty());
    lemma_scanned_balanced(s, 0, start);
    if let Ok(last) = scanned(s, 0, start) {
        let closers = repeated('}', last.anchors.len());
        lemma_occurrences_repeated('}', last.anchors.len(), '{');
        lemma_occurrences_repeated('}', last.anchors.len(), '}');
        lemma_occurrences_concat(last.output, closers, '{');
        lemma_occurrences_concat(last.output, closers, '}');
    }
}

/// On a source whose own braces are balanced, and so on one without
/// braces, the output holds as many `{` as `}`.
pub proof fn lemma_braces_balanced(s: Seq<char>)
    requires
        occurrences(s, '{') == occurrences(s, '}'),
    ensures
        desugared(s) matches Ok(out) ==> occurrences(out, '{') == occurrences(out, '}'),
{
    lemma_markers_balanced(s);
}

/// Nothing is dropped and nothing but markers and alignment is added: of
/// every character other than `{`, `}`, `;` and the space the output holds
/// as many as the source.
pub proof fn lemma_content_kept(s: Seq<char>, c: char)
    requires
        !is_written(c),
    ensures
        desugared(s) matches Ok(out) ==> occurrences(out, c) == occurrences(s, c),
{
    let start = LayoutState::start();
    assert(s.take(0) =~= Seq::<char>::empty());
    lemma_scanned_copies(s, 0, start, c);
    if let Ok(last) = scanned(s, 0, start) {
        lemma_occurrences_repeated('}', last.anchors.len(), c);
        lemma_occurrences_concat(last.output, repeated('}', last.anchors.len()), c);
    }
}

/// The output has as many line feeds as the source: no line is joined with
/// another and none is added.
pub proof fn lemma_line_feeds_kept(s: Seq<char>)
    ensures
        desugared(s) matches Ok(out) ==> occurrences(out, '\n') == occurrences(s, '\n'),
{
    lemma_content_kept(s, '\n');
}

/// What a text holds beside the characters that the desugarer writes: the
/// text without `{`, `}`, `;` and spaces, in its order.
pub open spec fn content(s: Seq<char>) -> Seq<char>
    decreases s.len(),
{
    if s.len() == 0 {
        Seq::empty()
    } else if is_written(s.last()) {
        content(s.drop_last())
    } else {
        content(s.drop_last()).push(s.last())
    }
}

/// The content of two texts in a row is the content of the one and then of
/// the other.
pub proof fn lemma_content_concat(a: Seq<char>, b: Seq<char>)
    ensures
        content(a + b) == content(a) + content(b),
    decreases b.len(),
{
    if b.len() == 0 {
        assert(a + b =~= a);
        assert(content(a) + content(b) =~= content(a));
    } else {
        assert((a + b).drop_last() =~= a + b.drop_last());
        lemma_content_concat(a, b.drop_last());
        assert(content(a + b) =~= content(a) + content(b));
    }
}

/// A run of a character that the desugarer writes has no content.
proof fn lemma_content_of_written(x: char, n: nat)
    requires
        is_written(x),
    ensures
        content(repeated(x, n)) == Seq::<char>::empty(),
    decreases n,
{
    if n > 0 {
        assert(repeated(x, n).drop_last() =~= repeated(x, (n - 1) as nat));
        lemma_content_of_written(x, (n - 1) as nat);
    }
}

/// One token adds its own content to that of the output, and no other.
proof fn lemma_step_content(s: Seq<char>, i: int, st: LayoutState)
    requires
        0 <= i < s.len(),
        token_at(s, i) is Some,
        content(st.output) == content(s.take(i)),
    ensures
        ({
            let (kind, len) = token_at(s, i).unwrap();
            let next = st.after(kind, s.subrange(i, i + len));
            &&& i + len <= s.len()
            &&& content(next.output) == content(s.take(i + len))
        }),
{
    let (kind, len) = token_at(s, i).unwrap();
    crate::layout::lemma_token_fits(s, i);
    let piece = s.subrange(i, i + len);
    assert(s.take(i + len) =~= s.take(i) + piece);
    lemma_content_concat(s.take(i), piece);
    match kind {
        TokenKind::Blank => {
            lemma_content_concat(st.output, piece);
        },
        TokenKind::Break => {
            let pad = alignment(st.anchors.len());
            lemma_content_of_written(' ', pad.len());
            assert(pad =~= repeated(' ', pad.len()));
            lemma_content_concat(st.output, piece);
            lemma_content_concat(st.output + piece, pad);
            assert(content(st.output + piece) + Seq::<char>::empty() =~= content(
                st.output + piece,
            ));
        },
        TokenKind::Word => {
            let before = st.output_at_word();
            assert(content(before) == content(st.output)) by {
                if st.first && !st.coincides() {
                    let kept = surviving(st.anchors, st.column);
                    lemma_surviving_prefix(st.anchors, st.column);
                    let popped = (st.anchors.len() - kept.len()) as nat;
                    let closed = st.output + repeated('}', popped);
                    lemma_content_of_written('}', popped);
                    lemma_content_concat(st.output, repeated('}', popped));
                    assert(content(st.output) + Seq::<char>::empty() =~= content(st.output));
                    assert(closed.push(';').drop_last() =~= closed);
                }
            }
            if st.trigger {
                assert(before.push('{').drop_last() =~= before);
                lemma_content_concat(before.push('{'), piece);
            } else {
                lemma_content_concat(before, piece);
            }
        },
    }
}

/// Reading on to the end adds the content of the rest of the text.
proof fn lemma_scanned_content(s: Seq<char>, i: int, st: LayoutState)
    requires
        0 <= i <= s.len(),
        content(st.output) == content(s.take(i)),
    ensures
        scanned(s, i, st) matches Ok(last) ==> content(last.output) == content(s),
    decreases s.len() - i,
{
    if i >= s.len() {
        assert(s.take(i) =~= s);
    } else if token_at(s, i) is Some {
        let (kind, len) = token_at(s, i).unwrap();
        lemma_step_content(s, i, st);
        lemma_scanned_content(s, i + len, st.after(kind, s.subrange(i, i + len)));
    }
}

/// The output is the source with markers and alignment put in: without
/// `{`, `}`, `;` and spaces the two are the same text. No character of a
/// word, no tab and no line break is dropped, added or moved.
pub proof fn lemma_content_in_order(s: Seq<char>)
    ensures
        desugared(s) matches Ok(out) ==> content(out) == content(s),
{
    let start = LayoutState::start();
    assert(s.take(0) =~= Seq::<char>::empty());
    lemma_scanned_content(s, 0, start);
    if let Ok(last) = scanned(s, 0, start) {
        lemma_content_of_written('}', last.anchors.len());
        lemma_content_concat(last.output, repeated('}', last.anchors.len()));
        assert(content(last.output) + Seq::<char>::empty() =~= content(last.output));
    }
}

/// No anchor lies to the left of an anchor below it.
pub open spec fn ordered(anchors: Seq<nat>) -> bool {
    forall|i: int, j: int| 0 <= i < j < anchors.len() ==> anchors[i] <= anchors[j]
}

/// Every anchor lies to the right of the anchors below it.
pub open spec fn strictly_ordered(anchors: Seq<nat>) -> bool {
    forall|i: int, j: int| 0 <= i < j < anchors.len() ==> anchors[i] < anchors[j]
}

/// The position in `s` and the state after the first `n` tokens; `None`
/// where `s` has fewer tokens or one of them could not be classified.
pub open spec fn reached(s: Seq<char>, n: nat) -> Option<(int, LayoutState)>
    decreases n,
{
    if n == 0 {
        Some((0int, LayoutState::start()))
    } else {
        match reached(s, (n - 1) as nat) {
            Some((i, st)) => if 0 <= i < s.len() {
                match token_at(s, i) {
                    Some((kind, len)) => Some((i + len, st.after(kind, s.subrange(i, i + len)))),
                    None => None,
                }
            } else {
                None
            },
            None => None,
        }
    }
}

/// Whether a word read in state `st` opens a block at the very column of
/// the block that is then around it: it is the first word of its line, it
/// follows a keyword, and the innermost block that it does not close is
/// anchored at its column.
pub open spec fn opens_at_anchor(st: LayoutState) -> bool {
    let kept = surviving(st.anchors, st.column);
    st.first && st.trigger && kept.len() > 0 && kept.last() == st.column
}

/// Whether token number `n` of `s`, counted from zero, is a word that opens
/// a block at the column of the block around it.
pub open spec fn level_opening(s: Seq<char>, n: nat) -> bool {
    match reached(s, n) {
        Some((i, st)) => 0 <= i < s.len() && opens_at_anchor(st) && (token_at(s, i) matches Some(
            (TokenKind::Word, _),
        )),
        None => false,
    }
}

/// After the first word of a line the innermost anchor lies to the left of
/// the column.
pub open spec fn behind_column(st: LayoutState) -> bool {
    !st.first && st.anchors.len() > 0 ==> st.anchors.last() < st.column
}

/// One token keeps the anchors ordered, and strictly so but for a word
/// that opens a block at the column of the block around it.
proof fn lemma_step_ordered(s: Seq<char>, i: int, st: LayoutState)
    requires
        0 <= i < s.len(),
        token_at(s, i) is Some,
        ordered(st.anchors),
        behind_column(st),
    ensures
        ({
            let (kind, len) = token_at(s, i).unwrap();
            let next = st.after(kind, s.subrange(i, i + len));
            &&& ordered(next.anchors)
            &&& behind_column(next)
            &&& strictly_ordered(st.anchors) && !(kind is Word && opens_at_anchor(st))
                ==> strictly_ordered(next.anchors)
            &&& kind is Word && opens_at_anchor(st) ==> !strictly_ordered(next.anchors)
        }),
{
    let (kind, len) = token_at(s, i).unwrap();
    crate::layout::lemma_token_fits(s, i);
    let next = st.after(kind, s.subrange(i, i + len));
    if kind is Word {
        let kept = st.anchors_at_word();
        lemma_surviving_prefix(st.anchors, st.column);
        assert(surviving(st.anchors, st.column).len() == st.anchors.len() ==> surviving(
            st.anchors,
            st.column,
        ) =~= st.anchors);
        assert(ordered(kept));
        assert(kept.len() > 0 ==> kept.last() <= st.column);
        assert(strictly_ordered(st.anchors) ==> strictly_ordered(kept));
        if st.trigger {
            let n = kept.len() as int;
            assert(next.anchors == kept.push(st.column));
            assert(forall|k: int| 0 <= k < n ==> #[trigger] kept[k] <= kept[n - 1]);
            if opens_at_anchor(st) {
                assert(st.coincides() ==> surviving(st.anchors, st.column) =~= st.anchors);
                assert(next.anchors[n - 1] == next.anchors[n]);
            } else {
                assert(n > 0 ==> kept[n - 1] < st.column) by {
                    if n > 0 && st.first {
                        assert(kept == surviving(st.anchors, st.column));
                    }
                }
            }
        }
    }
}

/// At every point of the desugaring the anchors of the open blocks are
/// ordered from the outermost to the innermost: none lies to the left of
/// one below it.
pub proof fn lemma_anchors_ordered(s: Seq<char>, n: nat)
    ensures
        reached(s, n) matches Some((_, st)) ==> ordered(st.anchors) && behind_column(st),
    decreases n,
{
    if n > 0 {
        lemma_anchors_ordered(s, (n - 1) as nat);
        if let Some((i, st)) = reached(s, (n - 1) as nat) {
            if 0 <= i < s.len() && token_at(s, i) is Some {
                lemma_step_ordered(s, i, st);
            }
        }
    }
}

/// As long as no word has opened a block at the column of the block around
/// it, the anchors increase strictly from the outermost to the innermost.
pub proof fn lemma_anchors_strictly_ordered(s: Seq<char>, n: nat)
    requires
        forall|m: nat| m < n ==> !level_opening(s, m),
    ensures
        reached(s, n) matches Some((_, st)) ==> strictly_ordered(st.anchors),
    decreases n,
{
    if n > 0 {
        let m = (n - 1) as nat;
        lemma_anchors_strictly_ordered(s, m);
        lemma_anchors_ordered(s, m);
        assert(!level_opening(s, m));
        if let Some((i, st)) = reached(s, m) {
            if 0 <= i < s.len() && token_at(s, i) is Some {
                lemma_step_ordered(s, i, st);
            }
        }
    }
}

/// A word that opens a block at the column of the block around it leaves
/// two equal anchors on top of each other: this is the one way in which two
/// anchors fail to increase strictly.
pub proof fn lemma_level_opening_repeats_anchor(s: Seq<char>, n: nat)
    requires
        level_opening(s, n),
    ensures
        reached(s, n + 1) matches Some((_, st)) && !strictly_ordered(st.anchors),
{
    lemma_anchors_ordered(s, n);
    let (i, st) = reached(s, n).unwrap();
    lemma_step_ordered(s, i, st);
}

/// The state in which a scan ends is the state after the last token.
pub proof fn lemma_scanned_is_reached(s: Seq<char>, n: nat, i: int, st: LayoutState) -> (m: nat)
    requires
        0 <= i <= s.len(),
        reached(s, n) == Some((i, st)),
    ensures
        scanned(s, i, st) matches Ok(last) ==> reached(s, m) == Some((s.len() as int, last)),
    decreases s.len() - i,
{
    if i >= s.len() {
        n
    } else if token_at(s, i) is Some {
        let (kind, len) = token_at(s, i).unwrap();
        crate::layout::lemma_token_fits(s, i);
        lemma_scanned_is_reached(s, n + 1, i + len, st.after(kind, s.subrange(i, i + len)))
    } else {
        n
    }
}

} // verus!
