//! The `qwen35` pre-tokenizer.
//!
//! Byte-level BPE only merges within pre-tokenizer pieces, so this split *is* the
//! tokenizer's word model. It is also what keeps a control token's spelling
//! (`<|im_end|>`) from assembling out of user text: the split always breaks it
//! into several pieces, and merges cannot cross pieces.
//!
//! ```text
//! (?:'[sS]|'[tT]|'[rR][eE]|'[vV][eE]|'[mM]|'[lL][lL]|'[dD])
//! |[^\r\n\p{L}\p{N}]?[\p{L}\p{M}]+
//! |\p{N}
//! | ?[^\s\p{L}\p{M}\p{N}]+[\r\n]*
//! |\s*[\r\n]+
//! |\s+(?!\S)
//! |\s+
//! ```

use crate::text;
use crate::tokenizer::ranges::{
    ascii_numbers_are_digits, line_breaks_are_no_words, numbers_are_nothing_else,
    spaces_are_space,
};
use crate::tokenizer::unicode::{flags_of, Classes, Flags};
use vstd::prelude::*;

verus! {

/// Past the end of the text no class holds.
pub open spec fn no_flags() -> Flags {
    Flags { letter: false, mark: false, number: false, whitespace: false }
}

/// The classes at `pos`.
pub open spec fn flags_at(t: Seq<char>, pos: int) -> Flags {
    if 0 <= pos < t.len() {
        flags_of(t[pos])
    } else {
        no_flags()
    }
}

/// A character that words are made of.
pub open spec fn wordy(f: Flags) -> bool {
    f.letter || f.mark
}

/// A character of none of the classes.
pub open spec fn plain(f: Flags) -> bool {
    !f.whitespace && !f.letter && !f.mark && !f.number
}

pub open spec fn newline(c: char) -> bool {
    c == '\r' || c == '\n'
}

/// The ASCII letter `c` in either case.
pub open spec fn either(c: char, lower: char, upper: char) -> bool {
    c == lower || c == upper
}

/// Length of the contraction at `pos`, 0 where there is none.
pub open spec fn contraction(t: Seq<char>, pos: int) -> int {
    if t[pos] != '\'' || pos + 1 >= t.len() {
        0
    } else {
        let a = t[pos + 1];
        if either(a, 's', 'S') || either(a, 't', 'T') || either(a, 'm', 'M') || either(
            a,
            'd',
            'D',
        ) {
            2
        } else if pos + 2 < t.len() && (either(a, 'r', 'R') && either(t[pos + 2], 'e', 'E')
            || either(a, 'v', 'V') && either(t[pos + 2], 'e', 'E') || either(a, 'l', 'L')
            && either(t[pos + 2], 'l', 'L')) {
            3
        } else {
            0
        }
    }
}

/// First position at or after `pos` that is no letter or mark.
pub open spec fn word_end(t: Seq<char>, pos: int) -> int
    decreases t.len() - pos,
{
    if 0 <= pos < t.len() && wordy(flags_of(t[pos])) {
        word_end(t, pos + 1)
    } else {
        pos
    }
}

/// First position at or after `pos` that is of one of the classes.
pub open spec fn plain_end(t: Seq<char>, pos: int) -> int
    decreases t.len() - pos,
{
    if 0 <= pos < t.len() && plain(flags_of(t[pos])) {
        plain_end(t, pos + 1)
    } else {
        pos
    }
}

/// First position at or after `pos` that is no line break.
pub open spec fn newline_end(t: Seq<char>, pos: int) -> int
    decreases t.len() - pos,
{
    if 0 <= pos < t.len() && newline(t[pos]) {
        newline_end(t, pos + 1)
    } else {
        pos
    }
}

/// First position at or after `pos` that is no whitespace.
pub open spec fn space_end(t: Seq<char>, pos: int) -> int
    decreases t.len() - pos,
{
    if 0 <= pos < t.len() && flags_of(t[pos]).whitespace {
        space_end(t, pos + 1)
    } else {
        pos
    }
}

/// Behind the last line break in `t[pos..end]`; `pos` where there is none.
pub open spec fn after_newline(t: Seq<char>, pos: int, end: int) -> int
    decreases end - pos,
{
    if pos >= end {
        pos
    } else if newline(t[end - 1]) {
        end
    } else {
        after_newline(t, pos, end - 1)
    }
}

/// Where the piece that starts at `pos` ends: the first alternative that matches.
pub open spec fn piece_end(t: Seq<char>, pos: int) -> int {
    let c = t[pos];
    let f = flags_of(c);
    let next = flags_at(t, pos + 1);
    let after_space = if c == ' ' {
        next
    } else {
        f
    };
    let from = if c == ' ' {
        pos + 1
    } else {
        pos
    };
    let ws = space_end(t, pos);
    if contraction(t, pos) > 0 {
        pos + contraction(t, pos)
    } else if !newline(c) && !f.number && (wordy(f) || wordy(next)) {
        word_end(t, pos + 1)
    } else if f.number {
        pos + 1
    } else if plain(after_space) {
        newline_end(t, plain_end(t, from))
    } else if after_newline(t, pos, ws) > pos {
        after_newline(t, pos, ws)
    } else if ws > pos + 1 && ws < t.len() {
        ws - 1
    } else if ws > pos {
        ws
    } else {
        pos + 1
    }
}

/// Every piece has at least one character and lies within the text.
proof fn lemma_runs(t: Seq<char>, pos: int)
    requires
        0 <= pos <= t.len(),
    ensures
        pos <= word_end(t, pos) <= t.len(),
        pos <= plain_end(t, pos) <= t.len(),
        pos <= newline_end(t, pos) <= t.len(),
        pos <= space_end(t, pos) <= t.len(),
    decreases t.len() - pos,
{
    if pos < t.len() {
        lemma_runs(t, pos + 1);
    }
}

proof fn lemma_after_newline(t: Seq<char>, pos: int, end: int)
    requires
        pos <= end,
    ensures
        pos <= after_newline(t, pos, end) <= end,
    decreases end - pos,
{
    if pos < end && !newline(t[end - 1]) {
        lemma_after_newline(t, pos, end - 1);
    }
}

/// Every piece has at least one character and lies within the text.
pub proof fn pieces_advance(t: Seq<char>, pos: int)
    requires
        0 <= pos < t.len(),
    ensures
        pos < piece_end(t, pos) <= t.len(),
{
    lemma_runs(t, pos);
    lemma_runs(t, pos + 1);
    lemma_after_newline(t, pos, space_end(t, pos));
    let from = if t[pos] == ' ' {
        pos + 1
    } else {
        pos
    };
    lemma_runs(t, plain_end(t, from));
}

/// The pieces of `t` from `pos` on.
pub open spec fn pieces_from(t: Seq<char>, pos: int) -> Seq<Seq<char>>
    decreases t.len() - pos,
    when 0 <= pos
    via pieces_decrease
{
    if pos >= t.len() {
        Seq::empty()
    } else {
        seq![t.subrange(pos, piece_end(t, pos))] + pieces_from(t, piece_end(t, pos))
    }
}

#[via_fn]
proof fn pieces_decrease(t: Seq<char>, pos: int) {
    if 0 <= pos < t.len() {
        pieces_advance(t, pos);
    }
}

/// The characters of the pieces, one after the other.
pub open spec fn joined(pieces: Seq<Seq<char>>) -> Seq<char>
    decreases pieces.len(),
{
    if pieces.len() == 0 {
        Seq::empty()
    } else {
        pieces[0] + joined(pieces.drop_first())
    }
}

/// Splitting loses nothing: the pieces, one after the other, are the text.
pub proof fn pieces_make_the_text(t: Seq<char>, pos: int)
    requires
        0 <= pos <= t.len(),
    ensures
        joined(pieces_from(t, pos)) == t.skip(pos),
    decreases t.len() - pos,
{
    if pos < t.len() {
        pieces_advance(t, pos);
        let end = piece_end(t, pos);
        pieces_make_the_text(t, end);
        let all = pieces_from(t, pos);
        assert(all.drop_first() =~= pieces_from(t, end));
        assert(t.subrange(pos, end) + t.skip(end) =~= t.skip(pos));
    } else {
        assert(t.skip(pos) =~= Seq::empty());
    }
}

proof fn lemma_plain_run(t: Seq<char>, pos: int, k: int)
    requires
        0 <= pos <= k < plain_end(t, pos),
    ensures
        k < t.len(),
        plain(flags_of(t[k])),
    decreases t.len() - pos,
{
    if pos < t.len() && plain(flags_of(t[pos])) && pos < k {
        lemma_plain_run(t, pos + 1, k);
    }
}

proof fn lemma_newline_run(t: Seq<char>, pos: int, k: int)
    requires
        0 <= pos <= k < newline_end(t, pos),
    ensures
        k < t.len(),
        newline(t[k]),
    decreases t.len() - pos,
{
    if pos < t.len() && newline(t[pos]) && pos < k {
        lemma_newline_run(t, pos + 1, k);
    }
}

/// A control token's spelling shatters: a piece that starts with two characters
/// of no class, as `<|` does, holds no letter, so it can spell no marker with a
/// name. The two are neither the apostrophe nor the space, which have rules of
/// their own.
pub proof fn control_spelling_shatters(t: Seq<char>, pos: int, k: int)
    requires
        0 <= pos,
        pos + 1 < t.len(),
        t[pos] != '\'' && t[pos] != ' ' && !newline(t[pos]),
        plain(flags_of(t[pos])),
        plain(flags_of(t[pos + 1])),
        pos <= k < piece_end(t, pos),
    ensures
        !flags_of(t[k]).letter,
{
    lemma_runs(t, pos);
    line_breaks_are_no_words();
    if k < plain_end(t, pos) {
        lemma_plain_run(t, pos, k);
    } else {
        lemma_newline_run(t, plain_end(t, pos), k);
    }
}

proof fn lemma_word_run(t: Seq<char>, pos: int, k: int)
    requires
        0 <= pos <= k < word_end(t, pos),
    ensures
        k < t.len(),
        wordy(flags_of(t[k])),
    decreases t.len() - pos,
{
    if pos < t.len() && wordy(flags_of(t[pos])) && pos < k {
        lemma_word_run(t, pos + 1, k);
    }
}

proof fn lemma_space_run(t: Seq<char>, pos: int, k: int)
    requires
        0 <= pos <= k < space_end(t, pos),
    ensures
        k < t.len(),
        flags_of(t[k]).whitespace,
    decreases t.len() - pos,
{
    if pos < t.len() && flags_of(t[pos]).whitespace && pos < k {
        lemma_space_run(t, pos + 1, k);
    }
}

/// A piece that holds a numeral is that numeral.
proof fn lemma_numeral(t: Seq<char>, pos: int, k: int)
    requires
        0 <= pos <= k < piece_end(t, pos),
        pos < t.len(),
        flags_of(t[k]).number,
    ensures
        k == pos,
        piece_end(t, pos) == pos + 1,
{
    let c = t[pos];
    let f = flags_of(c);
    let next = flags_at(t, pos + 1);
    let ws = space_end(t, pos);
    pieces_advance(t, pos);
    numbers_are_nothing_else(t[k]);
    if t[k] <= '\u{7f}' {
        ascii_numbers_are_digits(t[k]);
    }
    lemma_runs(t, pos);
    lemma_runs(t, pos + 1);
    lemma_after_newline(t, pos, ws);
    if contraction(t, pos) > 0 {
    } else if !newline(c) && !f.number && (wordy(f) || wordy(next)) {
        if k > pos {
            lemma_word_run(t, pos + 1, k);
        }
    } else if f.number {
    } else if plain(if c == ' ' {
        next
    } else {
        f
    }) {
        let from = if c == ' ' {
            pos + 1
        } else {
            pos
        };
        if k >= from {
            if k < plain_end(t, from) {
                lemma_plain_run(t, from, k);
            } else {
                lemma_newline_run(t, plain_end(t, from), k);
            }
        }
    } else if k < ws {
        lemma_space_run(t, pos, k);
    }
}

/// A numeral is a piece of its own, so that numbers are always spelled digit by digit.
pub proof fn numerals_stand_alone(t: Seq<char>, pos: int, k: int)
    requires
        0 <= pos <= k < t.len(),
        flags_of(t[k]).number,
    ensures
        exists|i: int|
            0 <= i < pieces_from(t, pos).len() && #[trigger] pieces_from(t, pos)[i] == seq![t[k]],
    decreases t.len() - pos,
{
    pieces_advance(t, pos);
    let end = piece_end(t, pos);
    let all = pieces_from(t, pos);
    if k < end {
        lemma_numeral(t, pos, k);
        assert(t.subrange(pos, end) =~= seq![t[k]]);
        assert(all[0] == seq![t[k]]);
    } else {
        numerals_stand_alone(t, end, k);
        let rest = pieces_from(t, end);
        let i = choose|i: int| 0 <= i < rest.len() && #[trigger] rest[i] == seq![t[k]];
        assert(all[i + 1] == rest[i]);
    }
}

// ---------------------------------------------------------------------------
// The expression
// ---------------------------------------------------------------------------
/// An ASCII letter without its case.
pub open spec fn folded(c: char) -> char {
    if 'A' <= c <= 'Z' {
        (c as u32 + 32) as char
    } else {
        c
    }
}

/// Every character of `t[a..b]` is a letter or a mark.
pub open spec fn words_only(t: Seq<char>, a: int, b: int) -> bool {
    forall|i: int|
        a <= i < b ==> flags_of(#[trigger] t[i]).letter || flags_of(t[i]).mark
}

/// Every character of `t[a..b]` is neither whitespace nor letter, mark or number.
pub open spec fn signs_only(t: Seq<char>, a: int, b: int) -> bool {
    forall|i: int|
        a <= i < b ==> !(flags_of(#[trigger] t[i]).whitespace || flags_of(t[i]).letter || flags_of(
            t[i],
        ).mark || flags_of(t[i]).number)
}

/// Every character of `t[a..b]` is whitespace.
pub open spec fn space_only(t: Seq<char>, a: int, b: int) -> bool {
    forall|i: int| a <= i < b ==> flags_of(#[trigger] t[i]).whitespace
}

/// Every character of `t[a..b]` is a line break.
pub open spec fn breaks_only(t: Seq<char>, a: int, b: int) -> bool {
    forall|i: int| a <= i < b ==> (#[trigger] t[i]) == '\r' || t[i] == '\n'
}

/// The alternatives of the expression, in order.
pub enum Alternative {
    Contraction,
    Word,
    Numeral,
    Signs,
    Breaks,
    SpaceBeforeSpace,
    Space,
}

/// An alternative matches `t[a..b]`.
pub open spec fn matches(x: Alternative, t: Seq<char>, a: int, b: int) -> bool {
    &&& 0 <= a < b <= t.len()
    &&& match x {
        // (?:'[sS]|'[tT]|'[rR][eE]|'[vV][eE]|'[mM]|'[lL][lL]|'[dD])
        Alternative::Contraction => {
            let s = t.subrange(a, b).map_values(|c: char| folded(c));
            ||| s == seq!['\'', 's']
            ||| s == seq!['\'', 't']
            ||| s == seq!['\'', 'r', 'e']
            ||| s == seq!['\'', 'v', 'e']
            ||| s == seq!['\'', 'm']
            ||| s == seq!['\'', 'l', 'l']
            ||| s == seq!['\'', 'd']
        },
        // [^\r\n\p{L}\p{N}]?[\p{L}\p{M}]+
        Alternative::Word => words_only(t, a, b) || (a + 1 < b && words_only(t, a + 1, b) && t[a]
            != '\r' && t[a] != '\n' && !flags_of(t[a]).letter && !flags_of(t[a]).number),
        // \p{N}
        Alternative::Numeral => b == a + 1 && flags_of(t[a]).number,
        //  ?[^\s\p{L}\p{M}\p{N}]+[\r\n]*
        Alternative::Signs => exists|p: int, q: int|
            (p == a || (p == a + 1 && t[a] == ' ')) && p < q <= b && #[trigger] signs_only(t, p, q)
                && #[trigger] breaks_only(t, q, b),
        // \s*[\r\n]+
        Alternative::Breaks => exists|q: int|
            a <= q < b && #[trigger] space_only(t, a, q) && breaks_only(t, q, b),
        // \s+(?!\S)
        Alternative::SpaceBeforeSpace => space_only(t, a, b) && (b < t.len() ==> flags_of(
            t[b],
        ).whitespace),
        // \s+
        Alternative::Space => space_only(t, a, b),
    }
}

/// An alternative matches from `a` at all.
pub open spec fn applies(x: Alternative, t: Seq<char>, a: int) -> bool {
    exists|b: int| #[trigger] matches(x, t, a, b)
}

/// An alternative matches `t[a..b]`, and nothing longer from there.
pub open spec fn matches_longest(x: Alternative, t: Seq<char>, a: int, b: int) -> bool {
    matches(x, t, a, b) && forall|c: int| #[trigger] matches(x, t, a, c) ==> c <= b
}

/// `t[a..b]` is what the expression finds at `a`: the longest match of the first
/// alternative that matches there.
pub open spec fn found(t: Seq<char>, a: int, b: int) -> bool {
    if applies(Alternative::Contraction, t, a) {
        matches_longest(Alternative::Contraction, t, a, b)
    } else if applies(Alternative::Word, t, a) {
        matches_longest(Alternative::Word, t, a, b)
    } else if applies(Alternative::Numeral, t, a) {
        matches_longest(Alternative::Numeral, t, a, b)
    } else if applies(Alternative::Signs, t, a) {
        matches_longest(Alternative::Signs, t, a, b)
    } else if applies(Alternative::Breaks, t, a) {
        matches_longest(Alternative::Breaks, t, a, b)
    } else if applies(Alternative::SpaceBeforeSpace, t, a) {
        matches_longest(Alternative::SpaceBeforeSpace, t, a, b)
    } else {
        matches_longest(Alternative::Space, t, a, b)
    }
}

/// Where a run ends, what it is made of does not go on.
proof fn lemma_stops(t: Seq<char>, pos: int)
    requires
        0 <= pos <= t.len(),
    ensures
        word_end(t, pos) < t.len() ==> !wordy(flags_of(t[word_end(t, pos)])),
        plain_end(t, pos) < t.len() ==> !plain(flags_of(t[plain_end(t, pos)])),
        newline_end(t, pos) < t.len() ==> !newline(t[newline_end(t, pos)]),
        space_end(t, pos) < t.len() ==> !flags_of(t[space_end(t, pos)]).whitespace,
        words_only(t, pos, word_end(t, pos)),
        signs_only(t, pos, plain_end(t, pos)),
        breaks_only(t, pos, newline_end(t, pos)),
        space_only(t, pos, space_end(t, pos)),
    decreases t.len() - pos,
{
    if pos < t.len() {
        lemma_stops(t, pos + 1);
    }
}

proof fn lemma_last_break(t: Seq<char>, pos: int, end: int)
    requires
        0 <= pos <= end <= t.len(),
    ensures
        after_newline(t, pos, end) > pos ==> newline(t[after_newline(t, pos, end) - 1]),
        forall|i: int| after_newline(t, pos, end) <= i < end ==> !newline(#[trigger] t[i]),
    decreases end - pos,
{
    if pos < end && !newline(t[end - 1]) {
        lemma_last_break(t, pos, end - 1);
    }
}

proof fn lemma_contraction(t: Seq<char>, a: int)
    requires
        0 <= a < t.len(),
    ensures
        contraction(t, a) > 0 ==> matches(Alternative::Contraction, t, a, a + contraction(t, a)),
        forall|b: int| #[trigger]
            matches(Alternative::Contraction, t, a, b) ==> contraction(t, a) > 0 && b == a
                + contraction(t, a),
{
    let k = contraction(t, a);
    if k > 0 {
        let s = t.subrange(a, a + k).map_values(|c: char| folded(c));
        if k == 2 {
            assert(s =~= seq![folded(t[a]), folded(t[a + 1])]);
        } else {
            assert(s =~= seq![folded(t[a]), folded(t[a + 1]), folded(t[a + 2])]);
        }
    }
    assert forall|b: int| #[trigger] matches(Alternative::Contraction, t, a, b) implies contraction(
        t,
        a,
    ) > 0 && b == a + contraction(t, a) by {
        let s = t.subrange(a, b).map_values(|c: char| folded(c));
        assert(s.len() == b - a);
        assert(s[0] == folded(t[a]));
        assert(s[1] == folded(t[a + 1]));
        if b == a + 3 {
            assert(s[2] == folded(t[a + 2]));
        }
        lemma_unfold(t[a]);
        lemma_unfold(t[a + 1]);
        if b == a + 3 {
            lemma_unfold(t[a + 2]);
        }
    }
}

proof fn lemma_unfold(c: char)
    ensures
        folded(c) == '\'' ==> c == '\'',
        folded(c) == 's' ==> either(c, 's', 'S'),
        folded(c) == 't' ==> either(c, 't', 'T'),
        folded(c) == 'r' ==> either(c, 'r', 'R'),
        folded(c) == 'v' ==> either(c, 'v', 'V'),
        folded(c) == 'e' ==> either(c, 'e', 'E'),
        folded(c) == 'm' ==> either(c, 'm', 'M'),
        folded(c) == 'l' ==> either(c, 'l', 'L'),
        folded(c) == 'd' ==> either(c, 'd', 'D'),
{
}

proof fn lemma_word(t: Seq<char>, a: int)
    requires
        0 <= a < t.len(),
    ensures
        applies(Alternative::Word, t, a) == (!newline(t[a]) && !flags_of(t[a]).number && (wordy(
            flags_of(t[a]),
        ) || wordy(flags_at(t, a + 1)))),
        applies(Alternative::Word, t, a) ==> matches_longest(
            Alternative::Word,
            t,
            a,
            word_end(t, a + 1),
        ),
{
    let x = Alternative::Word;
    let e = word_end(t, a + 1);
    let f = flags_of(t[a]);
    let next = flags_at(t, a + 1);
    lemma_runs(t, a + 1);
    lemma_stops(t, a + 1);
    line_breaks_are_no_words();
    numbers_are_nothing_else(t[a]);
    if !newline(t[a]) && !f.number && (wordy(f) || wordy(next)) {
        if wordy(f) {
            assert(words_only(t, a, e));
        } else {
            assert(word_end(t, a + 1) > a + 1);
        }
        assert(matches(x, t, a, e));
    }
    assert forall|c: int| #[trigger] matches(x, t, a, c) implies c <= e && !newline(t[a])
        && !f.number && (wordy(f) || wordy(next)) by {
        if c > e {
            assert(t[e] == t[e]);
        }
        if words_only(t, a, c) {
            assert(wordy(flags_of(t[a])));
        } else {
            assert(wordy(flags_of(t[a + 1])));
        }
    }
}

proof fn lemma_signs(t: Seq<char>, a: int)
    requires
        0 <= a < t.len(),
    ensures
        ({
            let c = t[a];
            let f = if c == ' ' {
                flags_at(t, a + 1)
            } else {
                flags_of(c)
            };
            let from = if c == ' ' {
                a + 1
            } else {
                a
            };
            &&& applies(Alternative::Signs, t, a) == (plain(f) && from < t.len())
            &&& applies(Alternative::Signs, t, a) ==> matches_longest(
                Alternative::Signs,
                t,
                a,
                newline_end(t, plain_end(t, from)),
            )
        }),
{
    let x = Alternative::Signs;
    let from = if t[a] == ' ' {
        a + 1
    } else {
        a
    };
    let f = flags_at(t, from);
    spaces_are_space();
    lemma_runs(t, from);
    lemma_stops(t, from);
    let mid = plain_end(t, from);
    lemma_runs(t, mid);
    lemma_stops(t, mid);
    let e = newline_end(t, mid);
    if plain(f) && from < t.len() {
        assert(mid > from);
        assert(signs_only(t, from, mid) && breaks_only(t, mid, e));
        assert(matches(x, t, a, e));
    }
    assert forall|b: int| #[trigger] matches(x, t, a, b) implies b <= e && plain(f) && from
        < t.len() by {
        let (p, q) = choose|p: int, q: int|
            (p == a || (p == a + 1 && t[a] == ' ')) && p < q <= b && #[trigger] signs_only(t, p, q)
                && #[trigger] breaks_only(t, q, b);
        assert(plain(flags_of(t[p])));
        assert(p == from);
        if q > mid {
            assert(plain(flags_of(t[mid])));
        }
        if q < mid {
            assert(plain(flags_of(t[q])));
            if q < b {
                assert(newline(t[q]));
            }
        } else if b > e {
            assert(newline(t[e]));
        }
    }
}

proof fn lemma_space(t: Seq<char>, a: int)
    requires
        0 <= a < t.len(),
    ensures
        ({
            let ws = space_end(t, a);
            let last = after_newline(t, a, ws);
            &&& a <= last <= ws <= t.len()
            &&& applies(Alternative::Breaks, t, a) == (last > a)
            &&& last > a ==> matches_longest(Alternative::Breaks, t, a, last)
            &&& applies(Alternative::SpaceBeforeSpace, t, a) == (ws > a && (ws == t.len() || ws > a
                + 1))
            &&& ws > a + 1 && ws < t.len() ==> matches_longest(
                Alternative::SpaceBeforeSpace,
                t,
                a,
                ws - 1,
            )
            &&& ws > a && ws == t.len() ==> matches_longest(
                Alternative::SpaceBeforeSpace,
                t,
                a,
                ws,
            )
            &&& ws > a ==> matches_longest(Alternative::Space, t, a, ws)
        }),
{
    let ws = space_end(t, a);
    let last = after_newline(t, a, ws);
    lemma_runs(t, a);
    lemma_stops(t, a);
    lemma_after_newline(t, a, ws);
    lemma_last_break(t, a, ws);
    line_breaks_are_no_words();
    spaces_are_space();
    assert forall|b: int|
        space_only(t, a, b) && a < b <= t.len() implies b <= ws by {
        if b > ws {
            assert(flags_of(t[ws]).whitespace);
        }
    }
    if last > a {
        assert(space_only(t, a, last - 1) && breaks_only(t, last - 1, last));
        assert(matches(Alternative::Breaks, t, a, last));
    }
    assert forall|b: int| #[trigger] matches(Alternative::Breaks, t, a, b) implies b <= last && last
        > a by {
        let q = choose|q: int|
            a <= q < b && #[trigger] space_only(t, a, q) && breaks_only(t, q, b);
        assert forall|i: int| a <= i < b implies flags_of(#[trigger] t[i]).whitespace by {
            if i >= q {
                assert(newline(t[i]));
            }
        }
        assert(space_only(t, a, b));
        assert(newline(t[b - 1]));
    }
    if ws > a {
        assert(matches(Alternative::Space, t, a, ws));
        if ws == t.len() {
            assert(matches(Alternative::SpaceBeforeSpace, t, a, ws));
        } else if ws > a + 1 {
            assert(flags_of(t[ws - 1]).whitespace);
            assert(matches(Alternative::SpaceBeforeSpace, t, a, ws - 1));
        }
    }
    assert forall|b: int| #[trigger] matches(Alternative::SpaceBeforeSpace, t, a, b) implies b <= ws
        && (b == ws ==> ws == t.len()) && (ws == t.len() || ws > a + 1) && ws > a by {
        if b < t.len() {
            assert(space_only(t, a, b + 1));
        }
    }
}

/// A piece is what the expression finds where it starts: the longest match of the first
/// alternative that matches there.
#[verifier::rlimit(40)]
pub proof fn pieces_are_what_the_expression_finds(t: Seq<char>, pos: int)
    requires
        0 <= pos < t.len(),
    ensures
        found(t, pos, piece_end(t, pos)),
{
    let end = piece_end(t, pos);
    pieces_advance(t, pos);
    lemma_contraction(t, pos);
    lemma_word(t, pos);
    lemma_signs(t, pos);
    lemma_space(t, pos);
    let c = t[pos];
    let f = flags_of(c);
    let ws = space_end(t, pos);
    spaces_are_space();
    line_breaks_are_no_words();
    numbers_are_nothing_else(c);
    if contraction(t, pos) > 0 {
        assert(applies(Alternative::Contraction, t, pos));
    } else {
        assert(!applies(Alternative::Contraction, t, pos));
        if applies(Alternative::Word, t, pos) {
        } else if f.number {
            assert(matches(Alternative::Numeral, t, pos, pos + 1));
        } else {
            assert(!applies(Alternative::Numeral, t, pos));
            if applies(Alternative::Signs, t, pos) {
            } else if c == ' ' && pos + 1 == t.len() {
                // A space that ends the text: no sign follows, so it is space before nothing.
                assert(space_end(t, pos + 1) == pos + 1);
                assert(ws == pos + 1);
                assert(after_newline(t, pos, pos) == pos);
                assert(after_newline(t, pos, pos + 1) == pos);
                assert(plain_end(t, pos + 1) == pos + 1 && newline_end(t, pos + 1) == pos + 1);
                assert(end == pos + 1);
            } else {
                assert(f.whitespace);
                lemma_runs(t, pos + 1);
                assert(ws > pos);
            }
        }
    }
}

/// Every piece of a text is found where the pieces before it end.
pub proof fn every_piece_is_found(t: Seq<char>, pos: int, i: int)
    requires
        0 <= pos <= t.len(),
        0 <= i < pieces_from(t, pos).len(),
    ensures
        ({
            let all = pieces_from(t, pos);
            let a = pos + joined(all.take(i)).len();
            let b = a + all[i].len();
            &&& 0 <= a < b <= t.len()
            &&& all[i] == t.subrange(a, b)
            &&& found(t, a, b)
        }),
    decreases t.len() - pos,
{
    let all = pieces_from(t, pos);
    pieces_advance(t, pos);
    let end = piece_end(t, pos);
    let rest = pieces_from(t, end);
    if i == 0 {
        assert(all.take(0) =~= Seq::empty());
        pieces_are_what_the_expression_finds(t, pos);
    } else {
        every_piece_is_found(t, end, i - 1);
        assert(all.take(i).drop_first() =~= rest.take(i - 1));
        assert(all.take(i)[0] == t.subrange(pos, end));
        assert(all[i] == rest[i - 1]);
    }
}

fn is_newline(c: char) -> (r: bool)
    ensures
        r == newline(c),
{
    c == '\r' || c == '\n'
}

fn flags_here(cls: &Classes, t: &Vec<char>, pos: usize) -> (r: Flags)
    requires
        cls.wf(),
    ensures
        r == flags_at(t@, pos as int),
{
    if pos < t.len() {
        cls.flags(t[pos])
    } else {
        Flags { letter: false, mark: false, number: false, whitespace: false }
    }
}

fn is_either(c: char, lower: char, upper: char) -> (r: bool)
    ensures
        r == either(c, lower, upper),
{
    c == lower || c == upper
}

fn contraction_at(t: &Vec<char>, pos: usize) -> (r: usize)
    requires
        pos < t@.len(),
    ensures
        r == contraction(t@, pos as int),
        r > 0 ==> pos + r <= t@.len(),
{
    let n: usize = t.len();
    if t[pos] != '\'' || pos + 1 >= n {
        return 0;
    }
    let a: char = t[pos + 1];
    if is_either(a, 's', 'S') || is_either(a, 't', 'T') || is_either(a, 'm', 'M') || is_either(
        a,
        'd',
        'D',
    ) {
        return 2;
    }
    if pos + 2 < n {
        let b: char = t[pos + 2];
        if is_either(a, 'r', 'R') && is_either(b, 'e', 'E') || is_either(a, 'v', 'V') && is_either(
            b,
            'e',
            'E',
        ) || is_either(a, 'l', 'L') && is_either(b, 'l', 'L') {
            return 3;
        }
    }
    0
}

fn end_of_word(cls: &Classes, t: &Vec<char>, pos: usize) -> (r: usize)
    requires
        cls.wf(),
        pos <= t@.len(),
    ensures
        r == word_end(t@, pos as int),
        r <= t@.len(),
{
    let mut i: usize = pos;
    while i < t.len()
        invariant
            cls.wf(),
            pos <= i <= t@.len(),
            word_end(t@, pos as int) == word_end(t@, i as int),
        decreases t@.len() - i,
    {
        let g = cls.flags(t[i]);
        if !(g.letter || g.mark) {
            return i;
        }
        i = i + 1;
    }
    i
}

fn end_of_plain(cls: &Classes, t: &Vec<char>, pos: usize) -> (r: usize)
    requires
        cls.wf(),
        pos <= t@.len(),
    ensures
        r == plain_end(t@, pos as int),
        r <= t@.len(),
{
    let mut i: usize = pos;
    while i < t.len()
        invariant
            cls.wf(),
            pos <= i <= t@.len(),
            plain_end(t@, pos as int) == plain_end(t@, i as int),
        decreases t@.len() - i,
    {
        let g = cls.flags(t[i]);
        if g.whitespace || g.letter || g.mark || g.number {
            return i;
        }
        i = i + 1;
    }
    i
}

fn end_of_newlines(t: &Vec<char>, pos: usize) -> (r: usize)
    requires
        pos <= t@.len(),
    ensures
        r == newline_end(t@, pos as int),
        r <= t@.len(),
{
    let mut i: usize = pos;
    while i < t.len()
        invariant
            pos <= i <= t@.len(),
            newline_end(t@, pos as int) == newline_end(t@, i as int),
        decreases t@.len() - i,
    {
        if !is_newline(t[i]) {
            return i;
        }
        i = i + 1;
    }
    i
}

/// The end of the whitespace run at `pos`, and behind its last line break.
fn end_of_space(cls: &Classes, t: &Vec<char>, pos: usize) -> (r: (usize, usize))
    requires
        cls.wf(),
        pos <= t@.len(),
    ensures
        r.0 == space_end(t@, pos as int),
        r.1 == after_newline(t@, pos as int, r.0 as int),
        pos <= r.1 <= r.0 <= t@.len(),
{
    let mut i: usize = pos;
    let mut last: usize = pos;
    while i < t.len()
        invariant
            cls.wf(),
            pos <= last <= i <= t@.len(),
            space_end(t@, pos as int) == space_end(t@, i as int),
            last == after_newline(t@, pos as int, i as int),
        decreases t@.len() - i,
    {
        if !cls.flags(t[i]).whitespace {
            return (i, last);
        }
        if is_newline(t[i]) {
            last = i + 1;
        }
        i = i + 1;
    }
    (i, last)
}

fn end_of_piece(cls: &Classes, t: &Vec<char>, pos: usize) -> (r: usize)
    requires
        cls.wf(),
        pos < t@.len(),
    ensures
        r == piece_end(t@, pos as int),
        pos < r <= t@.len(),
{
    proof {
        pieces_advance(t@, pos as int);
    }
    let n: usize = t.len();
    let c: char = t[pos];
    let f = cls.flags(c);
    let k: usize = contraction_at(t, pos);
    if k > 0 {
        return pos + k;
    }
    let next = flags_here(cls, t, pos + 1);
    if !is_newline(c) && !f.number && (f.letter || f.mark || next.letter || next.mark) {
        return end_of_word(cls, t, pos + 1);
    }
    if f.number {
        return pos + 1;
    }
    let after_space = if c == ' ' {
        next
    } else {
        f
    };
    if !(after_space.whitespace || after_space.letter || after_space.mark || after_space.number) {
        let from: usize = if c == ' ' { pos + 1 } else { pos };
        return end_of_newlines(t, end_of_plain(cls, t, from));
    }
    let (ws, last) = end_of_space(cls, t, pos);
    if last > pos {
        return last;
    }
    if ws > pos + 1 && ws < n {
        return ws - 1;
    }
    if ws > pos {
        return ws;
    }
    pos + 1
}

/// Split `text` into pre-tokenizer pieces.
pub fn split_qwen35(text: &str) -> (r: Vec<String>)
    ensures
        text::views(r@) == pieces_from(text@, 0),
{
    let cls = Classes::new();
    let t = text::chars_of(text);
    let ghost all = pieces_from(text@, 0);
    let mut r: Vec<String> = Vec::new();
    let mut pos: usize = 0;
    assert(text::views(r@) + all =~= all);
    while pos < t.len()
        invariant
            cls.wf(),
            t@ == text@,
            pos <= t@.len(),
            all == text::views(r@) + pieces_from(t@, pos as int),
        decreases t@.len() - pos,
    {
        let ghost before = text::views(r@);
        let end: usize = end_of_piece(&cls, &t, pos);
        let piece = text::slice_string(t.as_slice(), pos, end);
        let ghost p = piece@;
        r.push(piece);
        proof {
            let rest = pieces_from(t@, end as int);
            assert(text::views(r@) =~= before.push(p));
            assert(before + (seq![p] + rest) =~= text::views(r@) + rest);
        }
        pos = end;
    }
    assert(text::views(r@) + Seq::<Seq<char>>::empty() =~= text::views(r@));
    r
}

} // verus!
