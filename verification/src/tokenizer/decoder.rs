//! Incremental decoding.
//!
//! Byte-fallback tokens can split a UTF-8 sequence across token boundaries, so
//! partial bytes are held back rather than emitted as replacement characters.

use crate::cursor::{lossy_string, utf8_lossy};
use crate::text;
use crate::tokenizer::{char_to_byte, stood_for, Style, TokenKind, Tokenizer, META_SPACE};
use vstd::prelude::*;
use vstd::utf8::{decode_utf8, encode_utf8, valid_utf8};

verus! {

/// The value of a hexadecimal digit, in either case.
pub open spec fn hex_value(c: char) -> Option<int> {
    if '0' <= c <= '9' {
        Some(c as int - '0' as int)
    } else if 'a' <= c <= 'f' {
        Some(c as int - 'a' as int + 10)
    } else if 'A' <= c <= 'F' {
        Some(c as int - 'A' as int + 10)
    } else {
        None
    }
}

fn hex_digit_value(c: char) -> (r: Option<u32>)
    ensures
        match r {
            Some(v) => hex_value(c) == Some(v as int) && v < 16,
            None => hex_value(c) is None,
        },
{
    if '0' <= c && c <= '9' {
        Some(c as u32 - '0' as u32)
    } else if 'a' <= c && c <= 'f' {
        Some(c as u32 - 'a' as u32 + 10)
    } else if 'A' <= c && c <= 'F' {
        Some(c as u32 - 'A' as u32 + 10)
    } else {
        None
    }
}

/// The number that hexadecimal digits stand for; `None` where one is no digit.
pub open spec fn hex_number(s: Seq<char>) -> Option<int>
    decreases s.len(),
{
    if s.len() == 0 {
        Some(0)
    } else {
        match (hex_number(s.drop_last()), hex_value(s.last())) {
            (Some(n), Some(d)) => Some(n * 16 + d),
            _ => None,
        }
    }
}

/// A byte in hexadecimal: an optional plus sign, then digits.
pub open spec fn hex_byte(s: Seq<char>) -> Option<u8> {
    let digits = if s.len() > 0 && s[0] == '+' {
        s.skip(1)
    } else {
        s
    };
    match hex_number(digits) {
        Some(n) => if digits.len() > 0 && n <= 0xFF {
            Some(n as u8)
        } else {
            None
        },
        None => None,
    }
}

proof fn lemma_hex_number(s: Seq<char>, k: int)
    requires
        0 <= k <= s.len(),
    ensures
        hex_number(s.take(k)) is None ==> hex_number(s) is None,
        hex_number(s) is Some ==> hex_number(s.take(k)) is Some && 0 <= hex_number(s.take(k))->0
            <= hex_number(s)->0,
    decreases s.len() - k, s.len(),
{
    if k < s.len() {
        assert(s.take(k + 1).drop_last() =~= s.take(k));
        lemma_hex_number(s, k + 1);
        lemma_hex_nonneg(s.take(k));
    } else {
        assert(s.take(k) =~= s);
        lemma_hex_nonneg(s);
    }
}

proof fn lemma_hex_nonneg(s: Seq<char>)
    ensures
        hex_number(s) is Some ==> hex_number(s)->0 >= 0,
    decreases s.len(),
{
    if s.len() > 0 {
        lemma_hex_nonneg(s.drop_last());
    }
}

fn parse_hex_byte(s: &[char]) -> (r: Option<u8>)
    ensures
        r == hex_byte(s@),
{
    let n: usize = s.len();
    let from: usize = if n > 0 && s[0] == '+' { 1 } else { 0 };
    let ghost digits = s@.skip(from as int);
    assert(from == 0 ==> digits =~= s@);
    if from == n {
        return None;
    }
    let mut v: u32 = 0;
    let mut i: usize = from;
    assert(digits.take(0) =~= Seq::empty());
    while i < n
        invariant
            from <= i <= n,
            n == s@.len(),
            from < n,
            v <= 0xFF,
            digits == s@.skip(from as int),
            digits == (if s@[0] == '+' {
                s@.skip(1)
            } else {
                s@
            }),
            hex_number(digits.take(i - from)) == Some(v as int),
        decreases n - i,
    {
        proof {
            let k = i - from;
            assert(digits.take(k + 1).drop_last() =~= digits.take(k));
            assert(digits.take(k + 1).last() == s@[i as int]);
            lemma_hex_number(digits, k + 1);
        }
        match hex_digit_value(s[i]) {
            Some(d) => {
                v = v * 16 + d;
                if v > 0xFF {
                    return None;
                }
            },
            None => {
                return None;
            },
        }
        i = i + 1;
    }
    assert(digits.take(n - from) =~= digits);
    Some(v as u8)
}

/// What stands between `<0x` and `>`.
pub open spec fn byte_digits(t: Seq<char>) -> Option<Seq<char>> {
    match text::without_prefix(t, "<0x"@) {
        Some(s) => text::without_suffix(s, ">"@),
        None => None,
    }
}

/// The byte that a byte token's spelling names.
pub open spec fn named_byte(t: Seq<char>) -> Option<u8> {
    match byte_digits(t) {
        Some(d) => hex_byte(d),
        None => None,
    }
}

fn byte_of_spelling(t: &str) -> (r: Option<u8>)
    ensures
        r == named_byte(t@),
{
    match text::strip_prefix(t, "<0x") {
        Some(s) => match text::strip_suffix(s.as_str(), ">") {
            Some(d) => {
                let c = text::chars_of(d.as_str());
                parse_hex_byte(c.as_slice())
            },
            None => None,
        },
        None => None,
    }
}

/// The bytes that stand-in characters stand for; other characters are dropped.
pub open spec fn stood_bytes(t: Seq<char>) -> Seq<u8>
    decreases t.len(),
{
    if t.len() == 0 {
        Seq::empty()
    } else {
        match stood_for(t.last() as u32) {
            Some(b) => stood_bytes(t.drop_last()).push(b),
            None => stood_bytes(t.drop_last()),
        }
    }
}

/// Meta-spaces as spaces.
pub open spec fn spaced(t: Seq<char>) -> Seq<char> {
    t.map_values(
        |c: char|
            if c == META_SPACE {
                ' '
            } else {
                c
            },
    )
}

/// The bytes that a token adds to the text; `None` for a control token, which is
/// passed over.
pub open spec fn token_bytes(tok: Tokenizer, id: u32) -> Option<Seq<u8>> {
    let t = tok.spelled(id);
    if tok.kind_at(id).control() {
        None
    } else if tok.style == Style::ByteLevel {
        Some(stood_bytes(t))
    } else if tok.kind_at(id) == TokenKind::Byte && named_byte(t) is Some {
        Some(seq![named_byte(t)->0])
    } else {
        Some(encode_utf8(spaced(t)))
    }
}

/// The longest well-formed start of the bytes as text, and what is held back. A
/// tail that a later token may complete waits; bytes that nothing can complete are
/// flushed lossily rather than held forever.
pub open spec fn taken(bytes: Seq<u8>) -> (Seq<char>, Seq<u8>) {
    let good = text::valid_prefix(bytes);
    if valid_utf8(bytes) {
        (decode_utf8(bytes), Seq::empty())
    } else if good == 0 && text::cut_short(bytes) {
        (Seq::empty(), bytes)
    } else if good == 0 {
        (utf8_lossy(bytes), Seq::empty())
    } else {
        (decode_utf8(bytes.take(good)), bytes.skip(good))
    }
}

/// What a token brings out, and what is held back then.
pub open spec fn pushed(tok: Tokenizer, pending: Seq<u8>, id: u32) -> (Seq<char>, Seq<u8>) {
    match token_bytes(tok, id) {
        None => (Seq::empty(), pending),
        Some(b) => taken(pending + b),
    }
}

/// What the end of the stream brings out.
pub open spec fn flushed(pending: Seq<u8>) -> Seq<char> {
    if pending.len() == 0 {
        Seq::empty()
    } else {
        utf8_lossy(pending)
    }
}

/// The text so far and what is held back, after some tokens.
pub open spec fn decoded_to(tok: Tokenizer, ids: Seq<u32>) -> (Seq<char>, Seq<u8>)
    decreases ids.len(),
{
    if ids.len() == 0 {
        (Seq::empty(), Seq::empty())
    } else {
        let (out, pending) = decoded_to(tok, ids.drop_last());
        let (more, rest) = pushed(tok, pending, ids.last());
        (out + more, rest)
    }
}

/// The text of tokens, control tokens dropped.
pub open spec fn decoded(tok: Tokenizer, ids: Seq<u32>) -> Seq<char> {
    let (out, pending) = decoded_to(tok, ids);
    out + flushed(pending)
}

/// Incremental decoder for streaming.
pub struct Decoder<'a> {
    pub tok: &'a Tokenizer,
    pub pending: Vec<u8>,
}

fn append(v: &mut Vec<u8>, more: &[u8])
    ensures
        final(v)@ == old(v)@ + more@,
{
    let n: usize = more.len();
    let mut i: usize = 0;
    assert(v@ =~= old(v)@ + more@.take(0));
    while i < n
        invariant
            i <= n,
            n == more@.len(),
            v@ == old(v)@ + more@.take(i as int),
        decreases n - i,
    {
        v.push(more[i]);
        i = i + 1;
        assert(v@ =~= old(v)@ + more@.take(i as int));
    }
    assert(more@.take(n as int) =~= more@);
}

impl<'a> Decoder<'a> {
    pub fn new(tok: &'a Tokenizer) -> (d: Decoder<'a>)
        ensures
            d.tok == tok,
            d.pending@ == Seq::<u8>::empty(),
    {
        Decoder { tok, pending: Vec::new() }
    }

    /// Feed one token; returns whatever text is now complete.
    pub fn push(&mut self, id: u32) -> (r: String)
        ensures
            final(self).tok == old(self).tok,
            (r@, final(self).pending@) == pushed(*old(self).tok, old(self).pending@, id),
    {
        let kind = self.tok.kind(id);
        if kind.is_control() {
            let s = String::new();
            assert(s@ =~= Seq::empty());
            return s;
        }
        let t = self.tok.token_text(id);
        if self.tok.style == Style::ByteLevel {
            let c = text::chars_of(t);
            let ghost start = self.pending@;
            let mut i: usize = 0;
            assert(c@.take(0) =~= Seq::empty());
            assert(self.pending@ =~= start + stood_bytes(c@.take(0)));
            while i < c.len()
                invariant
                    i <= c@.len(),
                    self.tok == old(self).tok,
                    self.pending@ == start + stood_bytes(c@.take(i as int)),
                decreases c@.len() - i,
            {
                assert(c@.take(i + 1).drop_last() =~= c@.take(i as int));
                match char_to_byte(c[i]) {
                    Some(b) => {
                        self.pending.push(b);
                    },
                    None => {},
                }
                i = i + 1;
                assert(self.pending@ =~= start + stood_bytes(c@.take(i as int)));
            }
            assert(c@.take(i as int) =~= c@);
            return self.take_valid();
        }
        if kind == TokenKind::Byte {
            match byte_of_spelling(t) {
                Some(b) => {
                    let ghost start = self.pending@;
                    self.pending.push(b);
                    assert(self.pending@ =~= start + seq![b]);
                    return self.take_valid();
                },
                None => {},
            }
        }
        let s = spaces(t);
        append(&mut self.pending, s.as_str().as_bytes());
        self.take_valid()
    }

    /// Emit the longest valid UTF-8 prefix, keeping any partial tail buffered.
    fn take_valid(&mut self) -> (r: String)
        ensures
            final(self).tok == old(self).tok,
            (r@, final(self).pending@) == taken(old(self).pending@),
    {
        proof {
            text::lemma_valid_prefix(self.pending@);
        }
        match text::utf8(self.pending.as_slice()) {
            Ok(s) => {
                let out = s.to_owned();
                self.pending = Vec::new();
                out
            },
            Err((good, cut)) => {
                if good == 0 {
                    assert(self.pending@.skip(0) =~= self.pending@);
                    if cut {
                        let s = String::new();
                        assert(s@ =~= Seq::empty());
                        return s;
                    }
                    let out = lossy_string(self.pending.as_slice());
                    self.pending = Vec::new();
                    return out;
                }
                let n: usize = self.pending.len();
                let all = self.pending.as_slice();
                let head = vstd::slice::slice_subrange(all, 0, good);
                assert(head@ =~= self.pending@.take(good as int));
                let out = lossy_string(head);
                let mut rest: Vec<u8> = Vec::new();
                append(&mut rest, vstd::slice::slice_subrange(all, good, n));
                assert(rest@ =~= self.pending@.skip(good as int));
                self.pending = rest;
                out
            },
        }
    }

    /// Flush any trailing bytes at end of stream.
    pub fn flush(&mut self) -> (r: String)
        ensures
            final(self).tok == old(self).tok,
            final(self).pending@ == Seq::<u8>::empty(),
            r@ == flushed(old(self).pending@),
    {
        if self.pending.len() == 0 {
            assert(self.pending@ =~= Seq::empty());
            let s = String::new();
            assert(s@ =~= Seq::empty());
            return s;
        }
        let out = lossy_string(self.pending.as_slice());
        self.pending = Vec::new();
        out
    }
}

/// Meta-spaces as spaces.
pub(crate) fn spaces(t: &str) -> (r: String)
    ensures
        r@ == spaced(t@),
{
    let c = text::chars_of(t);
    let mut r = String::new();
    let mut i: usize = 0;
    assert(r@ =~= spaced(t@).take(0));
    while i < c.len()
        invariant
            i <= c@.len(),
            c@ == t@,
            r@ == spaced(t@).take(i as int),
        decreases c@.len() - i,
    {
        let x: char = c[i];
        r.push(if x == META_SPACE { ' ' } else { x });
        i = i + 1;
        assert(r@ =~= spaced(t@).take(i as int));
    }
    assert(r@ =~= spaced(t@));
    r
}

impl Tokenizer {
    /// Decode ids to text, dropping control tokens.
    pub fn decode(&self, ids: &[u32]) -> (r: String)
        ensures
            r@ == decoded(*self, ids@),
    {
        let mut d = Decoder::new(self);
        let mut s = String::new();
        let n: usize = ids.len();
        let mut i: usize = 0;
        assert(ids@.take(0) =~= Seq::empty());
        assert(s@ =~= Seq::empty());
        while i < n
            invariant
                i <= n,
                n == ids@.len(),
                d.tok == self,
                (s@, d.pending@) == decoded_to(*self, ids@.take(i as int)),
            decreases n - i,
        {
            assert(ids@.take(i + 1).drop_last() =~= ids@.take(i as int));
            let more = d.push(ids[i]);
            s.push_str(more.as_str());
            i = i + 1;
        }
        assert(ids@.take(i as int) =~= ids@);
        let last = d.flush();
        s.push_str(last.as_str());
        s
    }
}

} // verus!
