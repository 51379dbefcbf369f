//! Prompts as they are put together: control tokens by id, everything else as
//! text.
//!
//! Nothing in a text becomes a control token, whatever it spells. That is what
//! keeps user text and tool results from forging a turn boundary, and it is stated
//! here of every vocabulary in which a control token is neither a character nor
//! the result of a merge.

use crate::chat::dsl::QUOTE;
use crate::text;
use crate::tokenizer::bpe::{best, best_is_best, bpe, merged_at, Symbol};
use crate::tokenizer::{pre, Style, Tokenizer};
use vstd::prelude::*;

verus! {

/// A part of a prompt.
#[verifier::ext_equal]
pub ghost enum Piece {
    Token(u32),
    Text(Seq<char>),
}

/// The ids that a part becomes.
pub open spec fn piece_ids(tok: Tokenizer, p: Piece) -> Seq<u32> {
    match p {
        Piece::Token(id) => seq![id],
        Piece::Text(s) => tok.ids_of_text(s),
    }
}

/// The ids that the parts become, in order.
pub open spec fn ids_of(tok: Tokenizer, pieces: Seq<Piece>) -> Seq<u32>
    decreases pieces.len(),
{
    if pieces.len() == 0 {
        Seq::empty()
    } else {
        ids_of(tok, pieces.drop_last()) + piece_ids(tok, pieces.last())
    }
}

/// Parts one after the other become their ids one after the other.
pub proof fn ids_join(tok: Tokenizer, a: Seq<Piece>, b: Seq<Piece>)
    ensures
        ids_of(tok, a + b) == ids_of(tok, a) + ids_of(tok, b),
    decreases b.len(),
{
    if b.len() == 0 {
        assert(a + b =~= a);
        assert(ids_of(tok, b) =~= Seq::empty());
        assert(ids_of(tok, a) + ids_of(tok, b) =~= ids_of(tok, a));
    } else {
        assert((a + b).drop_last() =~= a + b.drop_last());
        ids_join(tok, a, b.drop_last());
        assert(ids_of(tok, a + b) =~= ids_of(tok, a) + ids_of(tok, b));
    }
}

/// A text with quote markers: the marker is a token, the rest text.
pub open spec fn marked(quote: u32, parts: Seq<Seq<char>>) -> Seq<Piece>
    decreases parts.len(),
{
    if parts.len() == 0 {
        Seq::empty()
    } else if parts.len() == 1 {
        seq![Piece::Text(parts[0])]
    } else {
        marked(quote, parts.drop_last()) + seq![Piece::Token(quote), Piece::Text(parts.last())]
    }
}

/// The parts of a text with quote markers in it.
pub open spec fn marked_text(quote: u32, s: Seq<char>) -> Seq<Piece> {
    marked(quote, text::parts_from(s, 0, QUOTE@))
}

/// Ids, and the parts they came from.
pub struct Builder<'a> {
    pub tok: &'a Tokenizer,
    pub ids: Vec<u32>,
    pub pieces: Ghost<Seq<Piece>>,
}

impl<'a> Builder<'a> {
    /// The ids are those of the parts.
    pub open spec fn wf(&self) -> bool {
        &&& self.tok.wf()
        &&& self.ids@ == ids_of(*self.tok, self.pieces@)
    }

    /// `more` was added, and nothing else.
    pub open spec fn extends(&self, before: Builder<'a>, more: Seq<Piece>) -> bool {
        &&& self.wf()
        &&& self.tok == before.tok
        &&& self.pieces@ == before.pieces@ + more
    }

    pub fn new(tok: &'a Tokenizer) -> (b: Builder<'a>)
        requires
            tok.wf(),
        ensures
            b.wf(),
            b.tok == tok,
            b.pieces@ == Seq::<Piece>::empty(),
    {
        Builder { tok, ids: Vec::new(), pieces: Ghost(Seq::empty()) }
    }

    pub fn push(&mut self, id: u32)
        requires
            old(self).wf(),
        ensures
            final(self).extends(*old(self), seq![Piece::Token(id)]),
    {
        let ghost p = self.pieces@.push(Piece::Token(id));
        self.ids.push(id);
        self.pieces = Ghost(p);
        proof {
            assert(p =~= old(self).pieces@ + seq![Piece::Token(id)]);
            assert(p.drop_last() =~= old(self).pieces@);
            assert(self.ids@ =~= ids_of(*self.tok, p));
        }
    }

    /// Encode text as ordinary content. Control-token spellings inside it are
    /// tokenized as plain text, never as control tokens.
    pub fn text(&mut self, s: &str)
        requires
            old(self).wf(),
        ensures
            final(self).extends(*old(self), seq![Piece::Text(s@)]),
    {
        let ghost p = self.pieces@.push(Piece::Text(s@));
        self.tok.encode_into(s, &mut self.ids);
        self.pieces = Ghost(p);
        proof {
            assert(p =~= old(self).pieces@ + seq![Piece::Text(s@)]);
            assert(p.drop_last() =~= old(self).pieces@);
        }
    }

    /// Encode text in which quote markers are single tokens.
    ///
    /// The rest is ordinary text; only the delimiter must land as its own id,
    /// which is exactly what makes strings unambiguous.
    pub fn marked(&mut self, quote: u32, s: &str)
        requires
            old(self).wf(),
        ensures
            final(self).extends(*old(self), marked_text(quote, s@)),
    {
        proof {
            reveal_strlit("<|\"|>");
        }
        let parts = text::split(s, QUOTE);
        let ghost all = text::views(parts@);
        let n: usize = parts.len();
        let mut i: usize = 0;
        assert(self.pieces@ + marked(quote, all.take(0)) =~= self.pieces@);
        while i < n
            invariant
                i <= n,
                n == parts@.len(),
                all == text::views(parts@),
                self.extends(*old(self), marked(quote, all.take(i as int))),
            decreases n - i,
        {
            let ghost before = self.pieces@;
            let ghost done = marked(quote, all.take(i as int));
            if i > 0 {
                self.push(quote);
            }
            self.text(parts[i].as_str());
            proof {
                let next = all.take(i + 1);
                assert(next.drop_last() =~= all.take(i as int));
                assert(next.last() == parts@[i as int]@);
                if i > 0 {
                    assert(marked(quote, next) =~= done + seq![
                        Piece::Token(quote),
                        Piece::Text(next.last()),
                    ]);
                } else {
                    assert(marked(quote, next) =~= seq![Piece::Text(next[0])]);
                    assert(done =~= Seq::empty());
                }
                assert(self.pieces@ =~= old(self).pieces@ + marked(quote, next));
            }
            i = i + 1;
        }
        assert(all.take(n as int) =~= all);
    }
}

// ---------------------------------------------------------------------------
// No forged tokens
// ---------------------------------------------------------------------------
/// No text becomes `id`: it is no character of the vocabulary, no merge gives it,
/// and nothing falls back to it.
pub open spec fn unspoken(tok: Tokenizer, id: u32) -> bool {
    &&& forall|c: char| #[trigger] tok.id_at(seq![c]) != Some(id)
    &&& forall|k: u64| tok.merges@.contains_key(k) ==> (#[trigger] tok.merges@[k]).to != id
    &&& tok.byte_tokens is Some ==> !tok.byte_tokens->0@.contains(id)
    &&& tok.unk != id
}

/// None of the symbols is `id`.
spec fn lacks(s: Seq<Symbol>, id: u32) -> bool {
    forall|i: int| 0 <= i < s.len() ==> (#[trigger] s[i]).id != Some(id)
}

proof fn lemma_bpe_lacks(tok: Tokenizer, s: Seq<Symbol>, id: u32)
    requires
        unspoken(tok, id),
        lacks(s, id),
    ensures
        lacks(bpe(tok.merges@, s), id),
    decreases s.len(),
{
    let m = tok.merges@;
    match best(m, s) {
        None => {},
        Some(k) => {
            best_is_best(m, s, k);
            let next = merged_at(m, s, k);
            let key = crate::tokenizer::bpe::pair_key(s[k].id->0, s[k + 1].id->0);
            assert(m[key].to != id);
            assert forall|i: int| 0 <= i < next.len() implies (#[trigger] next[i]).id != Some(
                id,
            ) by {
                if i < k {
                    assert(next[i] == s[i]);
                } else if i > k {
                    assert(next[i] == s[i + 1]);
                }
            }
            lemma_bpe_lacks(tok, next, id);
        },
    }
}

proof fn lemma_emit_lacks(tok: Tokenizer, s: Seq<Symbol>, id: u32)
    requires
        tok.wf(),
        unspoken(tok, id),
        lacks(s, id),
    ensures
        !tok.emit(s).contains(id),
    decreases s.len(),
{
    if s.len() > 0 {
        let rest = s.drop_last();
        assert forall|i: int| 0 <= i < rest.len() implies (#[trigger] rest[i]).id != Some(id) by {
            assert(rest[i] == s[i]);
        }
        lemma_emit_lacks(tok, rest, id);
        let e = tok.emitted(s.last());
        assert(s[s.len() - 1].id != Some(id));
        assert(!e.contains(id)) by {
            if e.contains(id) {
                let j = choose|j: int| 0 <= j < e.len() && e[j] == id;
                if s.last().id is None && tok.style == Style::MetaSpace && tok.byte_tokens is Some {
                    let table = tok.byte_tokens->0@;
                    let b = vstd::utf8::encode_utf8(seq![s.last().c])[j];
                    assert(table[b as int] == id);
                    assert(table.contains(id));
                }
            }
        }
        let all = tok.emit(s);
        if all.contains(id) {
            let j = choose|j: int| 0 <= j < all.len() && all[j] == id;
            let n = tok.emit(rest).len();
            if j < n {
                assert(tok.emit(rest)[j] == id);
            } else {
                assert(e[j - n] == id);
            }
        }
    }
}

proof fn lemma_stretch_lacks(tok: Tokenizer, chars: Seq<char>, id: u32)
    requires
        tok.wf(),
        unspoken(tok, id),
    ensures
        !tok.encode_stretch(chars).contains(id),
{
    let s = tok.seeds(chars);
    assert forall|i: int| 0 <= i < s.len() implies (#[trigger] s[i]).id != Some(id) by {
        assert(s[i].id == tok.id_at(seq![chars[i]]));
    }
    lemma_bpe_lacks(tok, s, id);
    lemma_emit_lacks(tok, bpe(tok.merges@, s), id);
}

proof fn lemma_pieces_lack(tok: Tokenizer, pieces: Seq<Seq<char>>, id: u32)
    requires
        tok.wf(),
        unspoken(tok, id),
    ensures
        !tok.encode_pieces(pieces).contains(id),
    decreases pieces.len(),
{
    if pieces.len() > 0 {
        let rest = tok.encode_pieces(pieces.drop_last());
        let e = tok.encode_stretch(Tokenizer::byte_chars(pieces.last()));
        lemma_pieces_lack(tok, pieces.drop_last(), id);
        lemma_stretch_lacks(tok, Tokenizer::byte_chars(pieces.last()), id);
        if (rest + e).contains(id) {
            let j = choose|j: int| 0 <= j < (rest + e).len() && (rest + e)[j] == id;
            if j < rest.len() {
                assert(rest[j] == id);
            } else {
                assert(e[j - rest.len()] == id);
            }
        }
    }
}

/// No text becomes a token that is neither a character nor the result of a merge,
/// whatever the text spells.
pub proof fn text_forges_no_token(tok: Tokenizer, t: Seq<char>, id: u32)
    requires
        tok.wf(),
        unspoken(tok, id),
    ensures
        !tok.ids_of_text(t).contains(id),
{
    if t.len() > 0 {
        if tok.style == Style::MetaSpace {
            lemma_stretch_lacks(tok, tok.normalized(t), id);
        } else {
            lemma_pieces_lack(tok, pre::pieces_from(t, 0), id);
        }
    }
}

/// How often `id` was put by id.
pub open spec fn placed(pieces: Seq<Piece>, id: u32) -> nat
    decreases pieces.len(),
{
    if pieces.len() == 0 {
        0
    } else {
        placed(pieces.drop_last(), id) + if pieces.last() == Piece::Token(id) {
            1nat
        } else {
            0nat
        }
    }
}

/// How often `id` occurs.
pub open spec fn occurs(ids: Seq<u32>, id: u32) -> nat
    decreases ids.len(),
{
    if ids.len() == 0 {
        0
    } else {
        occurs(ids.drop_last(), id) + if ids.last() == id {
            1nat
        } else {
            0nat
        }
    }
}

proof fn lemma_occurs_joins(a: Seq<u32>, b: Seq<u32>, id: u32)
    ensures
        occurs(a + b, id) == occurs(a, id) + occurs(b, id),
    decreases b.len(),
{
    if b.len() == 0 {
        assert(a + b =~= a);
    } else {
        assert((a + b).drop_last() =~= a + b.drop_last());
        lemma_occurs_joins(a, b.drop_last(), id);
    }
}

proof fn lemma_absent(a: Seq<u32>, id: u32)
    requires
        !a.contains(id),
    ensures
        occurs(a, id) == 0,
    decreases a.len(),
{
    if a.len() > 0 {
        assert(a.last() == a[a.len() - 1]);
        assert(!a.drop_last().contains(id)) by {
            if a.drop_last().contains(id) {
                let j = choose|j: int| 0 <= j < a.len() - 1 && a.drop_last()[j] == id;
                assert(a[j] == id);
            }
        }
        lemma_absent(a.drop_last(), id);
    }
}

/// A control token stands in a prompt as often as it was put there by id: no text
/// in it, from whomever it comes, adds one.
pub proof fn control_tokens_come_by_id(tok: Tokenizer, pieces: Seq<Piece>, id: u32)
    requires
        tok.wf(),
        unspoken(tok, id),
    ensures
        occurs(ids_of(tok, pieces), id) == placed(pieces, id),
    decreases pieces.len(),
{
    if pieces.len() > 0 {
        let rest = pieces.drop_last();
        let last = piece_ids(tok, pieces.last());
        control_tokens_come_by_id(tok, rest, id);
        lemma_occurs_joins(ids_of(tok, rest), last, id);
        match pieces.last() {
            Piece::Token(x) => {
                assert(last.drop_last() =~= Seq::empty());
                assert(occurs(last.drop_last(), id) == 0);
            },
            Piece::Text(t) => {
                text_forges_no_token(tok, t, id);
                lemma_absent(last, id);
            },
        }
    }
}

} // verus!
