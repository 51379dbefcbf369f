//! What encoding and decoding keep.

use crate::config::value_or;
use crate::header::{meta_strings, HeaderView};
use crate::text::{completes, cut_short, lemma_valid_prefix, valid_prefix};
use crate::tokenizer::bpe::{
    best_is_best, bpe, merged_at, pair_key, pair_keys_differ, Symbol,
};
use crate::tokenizer::decoder::{
    decoded, decoded_to, hex_number, hex_value, named_byte, spaced, stood_bytes, token_bytes,
};
use crate::tokenizer::pre;
use crate::tokenizer::{
    byte_name, halves, hex_digit, ids_to, merges_to, stand_in, stand_ins_are_one_to_one, Style,
    TokenKind, Tokenizer, META_SPACE,
};
use vstd::prelude::*;
use vstd::utf8::{
    decode_utf8, encode_utf8, length_of_first_scalar, pop_first_scalar,
    valid_first_scalar, valid_utf8,
};

verus! {

// ---------------------------------------------------------------------------
// The vocabulary
// ---------------------------------------------------------------------------
/// Every name stands for a token of that spelling, and every merge makes a token
/// spelled as its two sides.
pub open spec fn sound(tok: Tokenizer) -> bool {
    &&& forall|s: Seq<char>| #[trigger]
        tok.ids@.contains_key(s) ==> tok.ids@[s] < tok.tokens@.len() && tok.spelled(tok.ids@[s])
            == s
    &&& forall|l: u32, r: u32| #[trigger]
        tok.merges@.contains_key(pair_key(l, r)) ==> tok.spelled(
            tok.merges@[pair_key(l, r)].to,
        ) == tok.spelled(l) + tok.spelled(r)
}

proof fn lemma_ids(names: Seq<Seq<char>>, n: int, s: Seq<char>)
    requires
        n <= names.len() <= 0x1_0000_0000,
        ids_to(names, n).contains_key(s),
    ensures
        ids_to(names, n)[s] < n,
        names[ids_to(names, n)[s] as int] == s,
    decreases n,
{
    if n > 0 {
        if ids_to(names, n - 1).contains_key(s) {
            lemma_ids(names, n - 1, s);
        }
    }
}

proof fn lemma_merges(
    names: Seq<Seq<char>>,
    lines: Seq<Seq<char>>,
    n: int,
    l: u32,
    r: u32,
)
    requires
        names.len() <= 0x1_0000_0000,
        merges_to(ids_to(names, names.len() as int), lines, n).contains_key(pair_key(l, r)),
    ensures
        ({
            let ids = ids_to(names, names.len() as int);
            let to = merges_to(ids, lines, n)[pair_key(l, r)].to;
            &&& l < names.len()
            &&& r < names.len()
            &&& to < names.len()
            &&& names[to as int] == names[l as int] + names[r as int]
        }),
    decreases n,
{
    let ids = ids_to(names, names.len() as int);
    if n > 0 {
        let before = merges_to(ids, lines, n - 1);
        if before.contains_key(pair_key(l, r)) {
            lemma_merges(names, lines, n - 1, l, r);
        } else {
            let (a, b) = halves(lines[n - 1])->0;
            pair_keys_differ(l, r, ids[a], ids[b]);
            lemma_ids(names, names.len() as int, a);
            lemma_ids(names, names.len() as int, b);
            lemma_ids(names, names.len() as int, a + b);
        }
    }
}

/// The vocabulary of every file is sound.
pub proof fn vocabulary_is_sound(tok: Tokenizer, h: HeaderView)
    requires
        tok.is_of(h),
        tok.tokens@.len() <= 0x1_0000_0000,
    ensures
        sound(tok),
{
    let names = tok.names();
    let lines = value_or(meta_strings(h, "tokenizer.ggml.merges"@), Seq::empty());
    assert forall|s: Seq<char>| #[trigger] tok.ids@.contains_key(s) implies tok.ids@[s]
        < tok.tokens@.len() && tok.spelled(tok.ids@[s]) == s by {
        lemma_ids(names, names.len() as int, s);
        assert(names[tok.ids@[s] as int] == tok.tokens@[tok.ids@[s] as int]@);
    }
    assert forall|l: u32, r: u32| #[trigger]
        tok.merges@.contains_key(pair_key(l, r)) implies tok.spelled(
        tok.merges@[pair_key(l, r)].to,
    ) == tok.spelled(l) + tok.spelled(r) by {
        lemma_merges(names, lines, lines.len() as int, l, r);
        let to = tok.merges@[pair_key(l, r)].to;
        assert(names[to as int] == tok.tokens@[to as int]@);
        assert(names[l as int] == tok.tokens@[l as int]@);
        assert(names[r as int] == tok.tokens@[r as int]@);
    }
}

// ---------------------------------------------------------------------------
// Merging
// ---------------------------------------------------------------------------
/// The characters of one symbol.
pub open spec fn letters(tok: Tokenizer, s: Symbol) -> Seq<char> {
    match s.id {
        Some(id) => tok.spelled(id),
        None => seq![s.c],
    }
}

/// The characters of the symbols, one after the other.
pub open spec fn spelling(tok: Tokenizer, s: Seq<Symbol>) -> Seq<char>
    decreases s.len(),
{
    if s.len() == 0 {
        Seq::empty()
    } else {
        letters(tok, s[0]) + spelling(tok, s.drop_first())
    }
}

proof fn lemma_spelling_cut(tok: Tokenizer, a: Seq<Symbol>, b: Seq<Symbol>)
    ensures
        spelling(tok, a + b) == spelling(tok, a) + spelling(tok, b),
    decreases a.len(),
{
    if a.len() == 0 {
        assert(a + b =~= b);
    } else {
        assert((a + b).drop_first() =~= a.drop_first() + b);
        lemma_spelling_cut(tok, a.drop_first(), b);
    }
}

proof fn lemma_spelling_one(tok: Tokenizer, x: Symbol)
    ensures
        spelling(tok, seq![x]) == letters(tok, x),
{
    reveal_with_fuel(spelling, 2);
    assert(seq![x].drop_first() =~= Seq::empty());
    assert(spelling(tok, seq![x]) =~= letters(tok, x));
}

/// Merging keeps the text: what the symbols spell stays the same.
pub proof fn merging_keeps_the_text(tok: Tokenizer, s: Seq<Symbol>)
    requires
        sound(tok),
    ensures
        spelling(tok, bpe(tok.merges@, s)) == spelling(tok, s),
    decreases s.len(),
{
    let m = tok.merges@;
    best_is_best(m, s, 0);
    match crate::tokenizer::bpe::best(m, s) {
        None => {},
        Some(k) => {
            best_is_best(m, s, k);
            let t = merged_at(m, s, k);
            let (a, b) = (s.take(k), s.skip(k + 2));
            let pair = seq![s[k], s[k + 1]];
            let one = seq![t[k]];
            assert(s =~= a + pair + b);
            assert(t =~= a + one + b);
            lemma_spelling_cut(tok, a + pair, b);
            lemma_spelling_cut(tok, a, pair);
            lemma_spelling_cut(tok, a + one, b);
            lemma_spelling_cut(tok, a, one);
            assert(pair.drop_first() =~= seq![s[k + 1]]);
            lemma_spelling_one(tok, s[k + 1]);
            lemma_spelling_one(tok, t[k]);
            assert(spelling(tok, pair) =~= spelling(tok, one));
            merging_keeps_the_text(tok, t);
        },
    }
}

proof fn lemma_seeds(tok: Tokenizer, chars: Seq<char>)
    requires
        sound(tok),
    ensures
        spelling(tok, tok.seeds(chars)) == chars,
    decreases chars.len(),
{
    let s = tok.seeds(chars);
    if chars.len() > 0 {
        lemma_seeds(tok, chars.drop_first());
        assert(s.drop_first() =~= tok.seeds(chars.drop_first()));
        assert(letters(tok, s[0]) =~= seq![chars[0]]);
        assert(seq![chars[0]] + chars.drop_first() =~= chars);
    }
}

// ---------------------------------------------------------------------------
// UTF-8
// ---------------------------------------------------------------------------
proof fn lemma_first(a: Seq<u8>, b: Seq<u8>)
    requires
        a.len() > 0,
        valid_first_scalar(a),
    ensures
        valid_first_scalar(a + b),
        length_of_first_scalar(a + b) == length_of_first_scalar(a),
        pop_first_scalar(a + b) == pop_first_scalar(a) + b,
        1 <= length_of_first_scalar(a) <= a.len(),
        vstd::utf8::decode_first_scalar(a + b) == vstd::utf8::decode_first_scalar(a),
{
    let c = a + b;
    assert(forall|i: int| 0 <= i < a.len() ==> c[i] == a[i]);
    assert(pop_first_scalar(c) =~= pop_first_scalar(a) + b);
}

/// A well-formed start does not change how the rest reads.
pub proof fn lemma_prefix_of_concat(a: Seq<u8>, b: Seq<u8>)
    requires
        valid_utf8(a),
    ensures
        valid_prefix(a + b) == a.len() + valid_prefix(b),
        valid_utf8(a + b) == valid_utf8(b),
        valid_utf8(b) ==> decode_utf8(a + b) == decode_utf8(a) + decode_utf8(b),
    decreases a.len(),
{
    if a.len() == 0 {
        assert(a + b =~= b);
        assert(decode_utf8(a) =~= Seq::empty());
        assert(decode_utf8(a) + decode_utf8(b) =~= decode_utf8(b));
    } else {
        lemma_first(a, b);
        lemma_prefix_of_concat(pop_first_scalar(a), b);
        if valid_utf8(b) {
            assert(decode_utf8(a + b) =~= decode_utf8(a) + decode_utf8(b));
        }
    }
}

/// The start of a character, without its end, is one cut short.
proof fn lemma_cut(whole: Seq<u8>, n: int)
    requires
        valid_first_scalar(whole),
        0 < n < whole.len(),
        !valid_first_scalar(whole.take(n)),
    ensures
        cut_short(whole.take(n)),
{
    let k = length_of_first_scalar(whole);
    let one = whole.take(k);
    assert(forall|i: int| 0 <= i < k ==> one[i] == whole[i]);
    assert(valid_first_scalar(one));
    if n >= k {
        let start = whole.take(n);
        assert(forall|i: int| 0 <= i < k ==> start[i] == whole[i]);
        assert(valid_first_scalar(start));
    }
    let x = whole.subrange(n, k);
    assert(whole.take(n) + x =~= one);
    assert(completes(whole.take(n), x));
}

/// The bytes of some tokens, one after the other.
pub open spec fn bytes_of(tok: Tokenizer, ids: Seq<u32>) -> Seq<u8>
    decreases ids.len(),
{
    if ids.len() == 0 {
        Seq::empty()
    } else {
        bytes_of(tok, ids.drop_last()) + match token_bytes(tok, ids.last()) {
            Some(b) => b,
            None => Seq::empty(),
        }
    }
}

/// None of the tokens is passed over.
pub open spec fn all_text(tok: Tokenizer, ids: Seq<u32>) -> bool {
    forall|i: int| 0 <= i < ids.len() ==> token_bytes(tok, #[trigger] ids[i]) is Some
}

/// Decoding a token at a time never gives out half a character: where the bytes so far
/// are the start of well-formed ones, it has given out what is complete and holds the
/// rest.
pub proof fn decoding_streams(tok: Tokenizer, ids: Seq<u32>, tail: Seq<u8>)
    requires
        valid_utf8(bytes_of(tok, ids) + tail),
    ensures
        ({
            let b = bytes_of(tok, ids);
            let n = valid_prefix(b);
            decoded_to(tok, ids) == (decode_utf8(b.take(n)), b.skip(n))
        }),
    decreases ids.len(),
{
    let b = bytes_of(tok, ids);
    lemma_valid_prefix(b);
    if ids.len() == 0 {
        assert(b.take(0) =~= Seq::empty());
        assert(b.skip(0) =~= Seq::empty());
        assert(decode_utf8(b.take(0)) =~= Seq::empty());
    } else {
        let before = ids.drop_last();
        let a = bytes_of(tok, before);
        let more = match token_bytes(tok, ids.last()) {
            Some(x) => x,
            None => Seq::empty(),
        };
        assert(b =~= a + more);
        assert(b + tail =~= a + (more + tail));
        decoding_streams(tok, before, more + tail);
        lemma_valid_prefix(a);
        let n = valid_prefix(a);
        let (done, held) = (a.take(n), a.skip(n));
        let now = held + more;
        lemma_valid_prefix(now);
        assert(b =~= done + now);
        lemma_prefix_of_concat(done, now);
        let g = valid_prefix(now);
        if token_bytes(tok, ids.last()) is None {
            assert(b =~= a);
            assert(decode_utf8(done) + Seq::<char>::empty() =~= decode_utf8(done));
        } else if valid_utf8(now) {
            assert(b.take(n + g) =~= b);
            assert(b.skip(n + g) =~= Seq::empty());
        } else {
            assert(b.take(n + g) =~= done + now.take(g));
            assert(b.skip(n + g) =~= now.skip(g));
            lemma_prefix_of_concat(done, now.take(g));
            if g == 0 {
                let whole = now + tail;
                assert(done + whole =~= b + tail);
                lemma_prefix_of_concat(done, whole);
                assert(now.len() > 0);
                assert(whole.take(now.len() as int) =~= now);
                assert(now.skip(0) =~= now);
                if tail.len() == 0 {
                    assert(whole =~= now);
                }
                lemma_cut(whole, now.len() as int);
                assert(now.take(0) =~= Seq::empty());
                assert(decode_utf8(now.take(0)) =~= Seq::empty());
            }
        }
    }
}

/// Streaming gives out what the bytes of the tokens spell, however characters are
/// split over tokens.
pub proof fn decoding_joins_bytes(tok: Tokenizer, ids: Seq<u32>)
    requires
        valid_utf8(bytes_of(tok, ids)),
    ensures
        decoded(tok, ids) == decode_utf8(bytes_of(tok, ids)),
{
    let b = bytes_of(tok, ids);
    assert(b + Seq::<u8>::empty() =~= b);
    decoding_streams(tok, ids, Seq::empty());
    lemma_valid_prefix(b);
    assert(b.take(b.len() as int) =~= b);
    assert(b.skip(b.len() as int) =~= Seq::empty());
    assert(decoded(tok, ids) =~= decode_utf8(b));
}

proof fn lemma_encode_concat(a: Seq<char>, b: Seq<char>)
    ensures
        encode_utf8(a + b) == encode_utf8(a) + encode_utf8(b),
    decreases a.len(),
{
    if a.len() == 0 {
        assert(a + b =~= b);
        assert(encode_utf8(a) + encode_utf8(b) =~= encode_utf8(b));
    } else {
        assert((a + b).drop_first() =~= a.drop_first() + b);
        lemma_encode_concat(a.drop_first(), b);
        assert(encode_utf8(a + b) =~= encode_utf8(a) + encode_utf8(b));
    }
}

// ---------------------------------------------------------------------------
// Bytes of what is emitted
// ---------------------------------------------------------------------------
proof fn lemma_bytes_concat(tok: Tokenizer, a: Seq<u32>, b: Seq<u32>)
    ensures
        bytes_of(tok, a + b) == bytes_of(tok, a) + bytes_of(tok, b),
    decreases b.len(),
{
    if b.len() == 0 {
        assert(a + b =~= a);
        assert(bytes_of(tok, a) + bytes_of(tok, b) =~= bytes_of(tok, a));
    } else {
        assert((a + b).drop_last() =~= a + b.drop_last());
        lemma_bytes_concat(tok, a, b.drop_last());
        assert(bytes_of(tok, a + b) =~= bytes_of(tok, a) + bytes_of(tok, b));
    }
}

proof fn lemma_stood_concat(a: Seq<char>, b: Seq<char>)
    ensures
        stood_bytes(a + b) == stood_bytes(a) + stood_bytes(b),
    decreases b.len(),
{
    if b.len() == 0 {
        assert(a + b =~= a);
        assert(stood_bytes(a) + stood_bytes(b) =~= stood_bytes(a));
    } else {
        assert((a + b).drop_last() =~= a + b.drop_last());
        lemma_stood_concat(a, b.drop_last());
        assert(stood_bytes(a + b) =~= stood_bytes(a) + stood_bytes(b));
    }
}

/// Stand-ins stand for the bytes they were made of.
proof fn lemma_stood_bytes(bytes: Seq<u8>)
    ensures
        stood_bytes(bytes.map_values(|b: u8| stand_in(b) as char)) == bytes,
    decreases bytes.len(),
{
    let c = bytes.map_values(|b: u8| stand_in(b) as char);
    if bytes.len() > 0 {
        lemma_stood_bytes(bytes.drop_last());
        assert(c.drop_last() =~= bytes.drop_last().map_values(|b: u8| stand_in(b) as char));
        stand_ins_are_one_to_one(bytes.last(), 0);
        assert(c.last() as u32 == stand_in(bytes.last()));
        assert(stood_bytes(c) =~= bytes);
    } else {
        assert(stood_bytes(c) =~= bytes);
    }
}

/// The vocabulary has a token for every byte's stand-in.
pub open spec fn covers_bytes(tok: Tokenizer) -> bool {
    forall|b: u8| tok.ids@.contains_key(seq![#[trigger] stand_in(b) as char])
}

/// Every symbol is a token.
pub open spec fn all_known(s: Seq<Symbol>) -> bool {
    forall|i: int| 0 <= i < s.len() ==> (#[trigger] s[i]).id is Some
}

proof fn lemma_known_stay(tok: Tokenizer, s: Seq<Symbol>)
    requires
        all_known(s),
    ensures
        all_known(bpe(tok.merges@, s)),
    decreases s.len(),
{
    let m = tok.merges@;
    best_is_best(m, s, 0);
    match crate::tokenizer::bpe::best(m, s) {
        None => {},
        Some(k) => {
            best_is_best(m, s, k);
            lemma_known_stay(tok, merged_at(m, s, k));
        },
    }
}

/// The bytes of known symbols of a byte-level vocabulary are those that their
/// spelling stands for.
proof fn lemma_emitted_bytes(tok: Tokenizer, s: Seq<Symbol>)
    requires
        tok.style == Style::ByteLevel,
        all_known(s),
        all_text(tok, tok.emit(s)),
    ensures
        bytes_of(tok, tok.emit(s)) == stood_bytes(spelling(tok, s)),
    decreases s.len(),
{
    if s.len() > 0 {
        let (a, x) = (s.drop_last(), s.last());
        let ids = tok.emit(s);
        assert(ids =~= tok.emit(a) + seq![x.id->0]);
        assert forall|i: int| 0 <= i < tok.emit(a).len() implies token_bytes(
            tok,
            #[trigger] tok.emit(a)[i],
        ) is Some by {
            assert(ids[i] == tok.emit(a)[i]);
        }
        lemma_emitted_bytes(tok, a);
        assert(ids.last() == x.id->0);
        assert(token_bytes(tok, ids.last()) is Some) by {
            assert(ids[ids.len() - 1] == x.id->0);
        }
        assert(s =~= a + seq![x]);
        lemma_spelling_cut(tok, a, seq![x]);
        lemma_spelling_one(tok, x);
        lemma_stood_concat(spelling(tok, a), letters(tok, x));
        assert(ids.drop_last() =~= tok.emit(a));
    } else {
        assert(tok.emit(s) =~= Seq::empty());
        assert(bytes_of(tok, tok.emit(s)) =~= stood_bytes(spelling(tok, s)));
    }
}

proof fn lemma_stretch_bytes(tok: Tokenizer, piece: Seq<char>)
    requires
        sound(tok),
        tok.style == Style::ByteLevel,
        covers_bytes(tok),
        all_text(tok, tok.encode_stretch(Tokenizer::byte_chars(piece))),
    ensures
        bytes_of(tok, tok.encode_stretch(Tokenizer::byte_chars(piece))) == encode_utf8(piece),
{
    let chars = Tokenizer::byte_chars(piece);
    let s = tok.seeds(chars);
    assert forall|i: int| 0 <= i < s.len() implies (#[trigger] s[i]).id is Some by {
        let b = encode_utf8(piece)[i];
        assert(chars[i] == stand_in(b) as char);
        assert(tok.ids@.contains_key(seq![stand_in(b) as char]));
    }
    lemma_known_stay(tok, s);
    lemma_emitted_bytes(tok, bpe(tok.merges@, s));
    merging_keeps_the_text(tok, s);
    lemma_seeds(tok, chars);
    lemma_stood_bytes(encode_utf8(piece));
}

proof fn lemma_pieces_bytes(tok: Tokenizer, pieces: Seq<Seq<char>>)
    requires
        sound(tok),
        tok.style == Style::ByteLevel,
        covers_bytes(tok),
        all_text(tok, tok.encode_pieces(pieces)),
    ensures
        bytes_of(tok, tok.encode_pieces(pieces)) == encode_utf8(pre::joined(pieces)),
    decreases pieces.len(),
{
    if pieces.len() > 0 {
        let (a, x) = (pieces.drop_last(), pieces.last());
        let (ia, ix) = (tok.encode_pieces(a), tok.encode_stretch(Tokenizer::byte_chars(x)));
        let all = tok.encode_pieces(pieces);
        assert(all =~= ia + ix);
        assert forall|i: int| 0 <= i < ia.len() implies token_bytes(
            tok,
            #[trigger] ia[i],
        ) is Some by {
            assert(all[i] == ia[i]);
        }
        assert forall|i: int| 0 <= i < ix.len() implies token_bytes(
            tok,
            #[trigger] ix[i],
        ) is Some by {
            assert(all[ia.len() + i] == ix[i]);
        }
        lemma_pieces_bytes(tok, a);
        lemma_stretch_bytes(tok, x);
        lemma_bytes_concat(tok, ia, ix);
        lemma_joined_last(pieces);
        lemma_encode_concat(pre::joined(a), x);
    } else {
        assert(bytes_of(tok, tok.encode_pieces(pieces)) =~= encode_utf8(pre::joined(pieces)));
    }
}

proof fn lemma_joined_last(pieces: Seq<Seq<char>>)
    requires
        pieces.len() > 0,
    ensures
        pre::joined(pieces) == pre::joined(pieces.drop_last()) + pieces.last(),
    decreases pieces.len(),
{
    if pieces.len() == 1 {
        assert(pieces.drop_first() =~= Seq::empty());
        assert(pieces.drop_last() =~= Seq::empty());
        assert(pre::joined(pieces) =~= pre::joined(pieces.drop_last()) + pieces.last());
    } else {
        lemma_joined_last(pieces.drop_first());
        assert(pieces.drop_first().drop_last() =~= pieces.drop_last().drop_first());
        assert(pieces.drop_first().last() == pieces.last());
        assert(pre::joined(pieces) =~= pre::joined(pieces.drop_last()) + pieces.last());
    }
}

/// Byte-level text survives: decoding what a text was encoded to gives the text
/// back. The vocabulary has to have all the stand-ins, and nothing that came out
/// may be a control token, which decoding drops.
pub proof fn byte_level_round_trip(tok: Tokenizer, t: Seq<char>)
    requires
        sound(tok),
        tok.style == Style::ByteLevel,
        covers_bytes(tok),
        all_text(tok, tok.ids_of_text(t)),
    ensures
        decoded(tok, tok.ids_of_text(t)) == t,
{
    broadcast use vstd::utf8::group_utf8_lib;

    let ids = tok.ids_of_text(t);
    if t.len() == 0 {
        assert(bytes_of(tok, ids) =~= encode_utf8(t));
    } else {
        lemma_pieces_bytes(tok, pre::pieces_from(t, 0));
        pre::pieces_make_the_text(t, 0);
        assert(t.skip(0) =~= t);
    }
    vstd::utf8::encode_utf8_valid_utf8(t);
    vstd::utf8::encode_utf8_decode_utf8(t);
    decoding_joins_bytes(tok, ids);
}

// ---------------------------------------------------------------------------
// Meta-space text
// ---------------------------------------------------------------------------
/// What the symbols of a meta-space vocabulary have to be for their text to
/// survive: a token is ordinary text, and a character without a token has byte
/// tokens that are known as such.
pub open spec fn symbol_survives(tok: Tokenizer, s: Symbol) -> bool {
    match s.id {
        Some(id) => token_bytes(tok, id) == Some(encode_utf8(spaced(tok.spelled(id)))),
        None => bytes_of(tok, tok.fallback(s.c)) == encode_utf8(spaced(seq![s.c])),
    }
}

/// The spelling of a byte token names its byte.
pub proof fn byte_names_name_bytes(b: u8)
    ensures
        named_byte(byte_name(b as int)) == Some(b),
{
    reveal_strlit("<0x");
    reveal_strlit(">");
    let (hi, lo) = (b as int / 16, b as int % 16);
    let digits = seq![hex_digit(hi), hex_digit(lo)];
    let name = byte_name(b as int);
    let rest = digits + ">"@;
    assert(name =~= "<0x"@ + rest);
    assert(name.subrange(0, 3) =~= "<0x"@);
    assert(name.skip(3) =~= rest);
    assert(rest.subrange(2, 3) =~= ">"@);
    assert(rest.take(2) =~= digits);
    lemma_hex_digit(hi);
    lemma_hex_digit(lo);
    reveal_with_fuel(hex_number, 3);
    assert(digits.drop_last() =~= seq![hex_digit(hi)]);
    assert(seq![hex_digit(hi)].drop_last() =~= Seq::<char>::empty());
    assert(hex_number(digits) == Some(hi * 16 + lo));
}

proof fn lemma_hex_digit(d: int)
    requires
        0 <= d < 16,
    ensures
        hex_value(hex_digit(d)) == Some(d),
        hex_digit(d) != '+',
{
}

/// A character that falls back to byte tokens survives, where those are spelled
/// and marked as byte tokens.
pub proof fn byte_fallback_survives(tok: Tokenizer, c: char)
    requires
        tok.style == Style::MetaSpace,
        tok.byte_tokens is Some,
        tok.byte_tokens->0@.len() == 256,
        forall|b: int|
            0 <= b < 256 ==> tok.spelled(#[trigger] tok.byte_tokens->0@[b]) == byte_name(b)
                && tok.kind_at(tok.byte_tokens->0@[b]) == TokenKind::Byte,
        c != META_SPACE,
    ensures
        symbol_survives(tok, Symbol { id: None, c }),
{
    let bytes = encode_utf8(seq![c]);
    let ids = tok.fallback(c);
    assert(spaced(seq![c]) =~= seq![c]);
    lemma_fallback_bytes(tok, bytes);
}

proof fn lemma_fallback_bytes(tok: Tokenizer, bytes: Seq<u8>)
    requires
        tok.style == Style::MetaSpace,
        tok.byte_tokens is Some,
        tok.byte_tokens->0@.len() == 256,
        forall|b: int|
            0 <= b < 256 ==> tok.spelled(#[trigger] tok.byte_tokens->0@[b]) == byte_name(b)
                && tok.kind_at(tok.byte_tokens->0@[b]) == TokenKind::Byte,
    ensures
        bytes_of(tok, bytes.map_values(|b: u8| tok.byte_tokens->0@[b as int])) == bytes,
    decreases bytes.len(),
{
    let ids = bytes.map_values(|b: u8| tok.byte_tokens->0@[b as int]);
    if bytes.len() > 0 {
        lemma_fallback_bytes(tok, bytes.drop_last());
        assert(ids.drop_last() =~= bytes.drop_last().map_values(
            |b: u8| tok.byte_tokens->0@[b as int],
        ));
        let b = bytes.last();
        byte_names_name_bytes(b);
        assert(ids.last() == tok.byte_tokens->0@[b as int]);
        assert(bytes_of(tok, ids) =~= bytes);
    } else {
        assert(bytes_of(tok, ids) =~= bytes);
    }
}

proof fn lemma_spaced_concat(a: Seq<char>, b: Seq<char>)
    ensures
        spaced(a + b) == spaced(a) + spaced(b),
{
    assert(spaced(a + b) =~= spaced(a) + spaced(b));
}

proof fn lemma_surviving_bytes(tok: Tokenizer, s: Seq<Symbol>)
    requires
        forall|i: int| 0 <= i < s.len() ==> symbol_survives(tok, #[trigger] s[i]),
    ensures
        bytes_of(tok, tok.emit(s)) == encode_utf8(spaced(spelling(tok, s))),
    decreases s.len(),
{
    if s.len() > 0 {
        let (a, x) = (s.drop_last(), s.last());
        assert forall|i: int| 0 <= i < a.len() implies symbol_survives(
            tok,
            #[trigger] a[i],
        ) by {
            assert(a[i] == s[i]);
        }
        lemma_surviving_bytes(tok, a);
        assert(symbol_survives(tok, s[s.len() - 1]));
        lemma_bytes_concat(tok, tok.emit(a), tok.emitted(x));
        assert(s =~= a + seq![x]);
        lemma_spelling_cut(tok, a, seq![x]);
        lemma_spelling_one(tok, x);
        lemma_spaced_concat(spelling(tok, a), letters(tok, x));
        lemma_encode_concat(spaced(spelling(tok, a)), spaced(letters(tok, x)));
        match x.id {
            Some(id) => {
                reveal_with_fuel(bytes_of, 2);
                let one = seq![id];
                assert(one.drop_last() =~= Seq::empty());
                assert(bytes_of(tok, one) =~= token_bytes(tok, id)->0);
            },
            None => {},
        }
    } else {
        assert(spaced(spelling(tok, s)) =~= Seq::empty());
        assert(bytes_of(tok, tok.emit(s)) =~= encode_utf8(spaced(spelling(tok, s))));
    }
}

/// Meta-space text survives: decoding what a text was encoded to gives the text
/// back. The text may hold no meta-space of its own, which decoding makes a space,
/// the vocabulary may add no space in front, and what came out has to be ordinary
/// text or known byte tokens.
pub proof fn meta_space_round_trip(tok: Tokenizer, t: Seq<char>)
    requires
        sound(tok),
        tok.style == Style::MetaSpace,
        !tok.add_space_prefix,
        !t.contains(META_SPACE),
        ({
            let s = bpe(tok.merges@, tok.seeds(tok.normalized(t)));
            forall|i: int| 0 <= i < s.len() ==> symbol_survives(tok, #[trigger] s[i])
        }),
    ensures
        decoded(tok, tok.ids_of_text(t)) == t,
{
    let ids = tok.ids_of_text(t);
    let norm = tok.normalized(t);
    let s = bpe(tok.merges@, tok.seeds(norm));
    assert(spaced(norm) =~= t) by {
        assert forall|i: int| 0 <= i < t.len() implies #[trigger] spaced(norm)[i] == t[i] by {
            assert(t.contains(t[i]));
        }
    }
    if t.len() == 0 {
        assert(bytes_of(tok, ids) =~= encode_utf8(t));
    } else {
        lemma_surviving_bytes(tok, s);
        merging_keeps_the_text(tok, tok.seeds(norm));
        lemma_seeds(tok, norm);
    }
    vstd::utf8::encode_utf8_valid_utf8(t);
    vstd::utf8::encode_utf8_decode_utf8(t);
    decoding_joins_bytes(tok, ids);
}

} // verus!
