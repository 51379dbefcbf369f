//! Rank-ordered byte-pair encoding, in two dialects.
//!
//! [`Style::MetaSpace`] rewrites spaces to U+2581 before merging and decomposes
//! characters outside the vocabulary into `<0xNN>` byte tokens.
//! [`Style::ByteLevel`] first splits the text by the `qwen35` pre-tokenizer
//! ([`pre`]), and maps each piece's bytes to stand-in characters. The merge loop
//! is shared.

use crate::config::value_or;
use crate::gguf::{value_bool, Error, ErrorView};
use crate::header::{meta_str, meta_strings, meta_u32s, meta_u64, Header, HeaderView};
use crate::text;
use crate::tokenizer::bpe::{
    bpe, current, key_of, linked, merge_all, pair_key, seeded, Merge, Merges, Sym, Symbol, END,
};
use std::collections::HashMap;
use vstd::hash_map::StringHashMap;
use vstd::prelude::*;
use vstd::utf8::encode_utf8;

pub mod bpe;
pub mod decoder;
pub mod heap;
pub mod pre;
pub mod ranges;
pub mod roundtrip;
pub mod unicode;

verus! {

broadcast use vstd::std_specs::hash::group_hash_axioms;

/// SentencePiece meta-space; stands in for U+0020 inside tokens.
pub const META_SPACE: char = '\u{2581}';

/// How raw text becomes the symbols that are merged.
#[derive(Debug, Clone, Copy, PartialEq, Eq, Structural)]
pub enum Style {
    /// Spaces to `▁`, `<0xNN>` byte fallback.
    MetaSpace,
    /// Byte-level behind the qwen35 pre-tokenizer.
    ByteLevel,
}

// ---------------------------------------------------------------------------
// Bytes as characters
// ---------------------------------------------------------------------------
/// The code point that stands for a byte.
pub open spec fn stand_in(b: u8) -> u32 {
    if 0x21 <= b <= 0x7E || 0xA1 <= b <= 0xAC || 0xAE <= b {
        b as u32
    } else if b <= 0x20 {
        (0x100 + b) as u32
    } else if b <= 0xA0 {
        (0x121 + (b - 0x7F)) as u32
    } else {
        0x143
    }
}

/// A character of the Latin-1 or Latin Extended-A block.
fn low_char(u: u32) -> (c: char)
    requires
        u <= 0x17F,
    ensures
        c as u32 == u,
{
    match char::from_u32(u) {
        Some(c) => c,
        None => '\0',
    }
}

/// A byte's stand-in character. Printable Latin-1 bytes stand for themselves; the
/// others take consecutive code points from U+0100, so that every byte has a
/// visible spelling.
pub fn byte_to_char(b: u8) -> (c: char)
    ensures
        c as u32 == stand_in(b),
{
    if (0x21 <= b && b <= 0x7E) || (0xA1 <= b && b <= 0xAC) || 0xAE <= b {
        low_char(b as u32)
    } else if b <= 0x20 {
        low_char(0x100 + b as u32)
    } else if b <= 0xA0 {
        low_char(0x121 + (b - 0x7F) as u32)
    } else {
        low_char(0x143)
    }
}

/// The byte that a code point stands for.
pub open spec fn stood_for(u: u32) -> Option<u8> {
    if 0x21 <= u <= 0x7E || 0xA1 <= u <= 0xAC || 0xAE <= u <= 0xFF {
        Some(u as u8)
    } else if 0x100 <= u <= 0x120 {
        Some((u - 0x100) as u8)
    } else if 0x121 <= u <= 0x142 {
        Some((0x7F + (u - 0x121)) as u8)
    } else if u == 0x143 {
        Some(0xADu8)
    } else {
        None
    }
}

/// Inverse of [`byte_to_char`]; `None` for characters outside the image.
pub fn char_to_byte(c: char) -> (r: Option<u8>)
    ensures
        r == stood_for(c as u32),
{
    let u: u32 = c as u32;
    if (0x21 <= u && u <= 0x7E) || (0xA1 <= u && u <= 0xAC) || (0xAE <= u && u <= 0xFF) {
        Some(u as u8)
    } else if 0x100 <= u && u <= 0x120 {
        Some((u - 0x100) as u8)
    } else if 0x121 <= u && u <= 0x142 {
        Some((0x7F + (u - 0x121)) as u8)
    } else if u == 0x143 {
        Some(0xAD)
    } else {
        None
    }
}

/// Bytes and stand-ins are one to one, both ways.
pub proof fn stand_ins_are_one_to_one(b: u8, u: u32)
    ensures
        stood_for(stand_in(b)) == Some(b),
        stood_for(u) is Some ==> stand_in(stood_for(u)->0) == u,
{
}

// ---------------------------------------------------------------------------
// Vocabulary
// ---------------------------------------------------------------------------
#[derive(Debug, Clone, Copy, PartialEq, Eq, Structural)]
pub enum TokenKind {
    Normal,
    Unknown,
    Control,
    Byte,
    Unused,
}

pub open spec fn kind_of(v: u32) -> TokenKind {
    if v == 2 {
        TokenKind::Unknown
    } else if v == 3 || v == 4 {
        TokenKind::Control
    } else if v == 5 {
        TokenKind::Unused
    } else if v == 6 {
        TokenKind::Byte
    } else {
        TokenKind::Normal
    }
}

impl TokenKind {
    /// The kind under a file's number. Control (3) and user-defined (4) tokens are
    /// both atomic markers, never split and never emitted as text.
    pub fn from_gguf(v: u32) -> (r: TokenKind)
        ensures
            r == kind_of(v),
    {
        if v == 2 {
            TokenKind::Unknown
        } else if v == 3 || v == 4 {
            TokenKind::Control
        } else if v == 5 {
            TokenKind::Unused
        } else if v == 6 {
            TokenKind::Byte
        } else {
            TokenKind::Normal
        }
    }

    pub open spec fn control(self) -> bool {
        self == TokenKind::Control || self == TokenKind::Unknown
    }

    pub fn is_control(self) -> (r: bool)
        ensures
            r == self.control(),
    {
        match self {
            TokenKind::Control | TokenKind::Unknown => true,
            _ => false,
        }
    }
}

pub struct Tokenizer {
    pub tokens: Vec<String>,
    pub kinds: Vec<TokenKind>,
    pub ids: StringHashMap<u32>,
    /// By pair of ids. Resolving merges to ids up front turns the merge loop into
    /// integer hashing instead of string concatenation.
    pub merges: HashMap<u64, Merge>,
    /// `<0x00>` to `<0xFF>`, if the vocabulary has them all.
    pub byte_tokens: Option<Vec<u32>>,
    pub style: Style,
    pub bos: u32,
    pub eos: u32,
    pub unk: u32,
    pub add_bos: bool,
    pub add_space_prefix: bool,
}

#[derive(Debug)]
pub enum TokenizerError {
    Gguf(Error),
    /// A byte-level vocabulary with an unsupported pre-tokenizer.
    Pre(String),
    /// The token types do not match the tokens.
    Lengths { kinds: usize, tokens: usize },
}

#[verifier::ext_equal]
pub ghost enum TokenizerErrorView {
    Gguf(ErrorView),
    Pre(Seq<char>),
    Lengths { kinds: int, tokens: int },
}

impl View for TokenizerError {
    type V = TokenizerErrorView;

    open spec fn view(&self) -> TokenizerErrorView {
        match self {
            TokenizerError::Gguf(e) => TokenizerErrorView::Gguf(e@),
            TokenizerError::Pre(p) => TokenizerErrorView::Pre(p@),
            TokenizerError::Lengths { kinds, tokens } => TokenizerErrorView::Lengths {
                kinds: *kinds as int,
                tokens: *tokens as int,
            },
        }
    }
}

/// The ids of the first `n` tokens. The first occurrence of a spelling wins.
pub open spec fn ids_to(tokens: Seq<Seq<char>>, n: int) -> Map<Seq<char>, u32>
    decreases n,
{
    if n <= 0 {
        Map::empty()
    } else {
        let before = ids_to(tokens, n - 1);
        if before.contains_key(tokens[n - 1]) {
            before
        } else {
            before.insert(tokens[n - 1], (n - 1) as u32)
        }
    }
}

/// What stands before and behind the first space.
pub open spec fn halves(s: Seq<char>) -> Option<(Seq<char>, Seq<char>)> {
    match text::find_at(s, 0, " "@) {
        Some(p) => Some((s.take(p), s.skip(p + 1))),
        None => None,
    }
}

/// The pair and the result that a line of the merge table stands for: both sides
/// and the whole have to be in the vocabulary.
pub open spec fn merge_line(ids: Map<Seq<char>, u32>, line: Seq<char>) -> Option<(u64, u32)> {
    match halves(line) {
        None => None,
        Some((l, r)) => if ids.contains_key(l) && ids.contains_key(r) && ids.contains_key(l + r) {
            Some((pair_key(ids[l], ids[r]), ids[l + r]))
        } else {
            None
        },
    }
}

/// The merges of the first `n` lines, best rank first. The first line of a pair
/// wins.
pub open spec fn merges_to(ids: Map<Seq<char>, u32>, lines: Seq<Seq<char>>, n: int) -> Merges
    decreases n,
{
    if n <= 0 {
        Map::empty()
    } else {
        let before = merges_to(ids, lines, n - 1);
        match merge_line(ids, lines[n - 1]) {
            Some((key, to)) => if before.contains_key(key) {
                before
            } else {
                before.insert(key, Merge { rank: (n - 1) as u32, to })
            },
            None => before,
        }
    }
}

/// An upper-case hexadecimal digit.
pub open spec fn hex_digit(d: int) -> char {
    if d < 10 {
        text::digit(d)
    } else if d == 10 {
        'A'
    } else if d == 11 {
        'B'
    } else if d == 12 {
        'C'
    } else if d == 13 {
        'D'
    } else if d == 14 {
        'E'
    } else {
        'F'
    }
}

fn hex_char(d: u32) -> (c: char)
    requires
        d < 16,
    ensures
        c == hex_digit(d as int),
{
    if d < 10 {
        text::digit_char(d as u64)
    } else if d == 10 {
        'A'
    } else if d == 11 {
        'B'
    } else if d == 12 {
        'C'
    } else if d == 13 {
        'D'
    } else if d == 14 {
        'E'
    } else {
        'F'
    }
}

/// The spelling of a byte token.
pub open spec fn byte_name(b: int) -> Seq<char> {
    "<0x"@ + seq![hex_digit(b / 16), hex_digit(b % 16)] + ">"@
}

fn byte_spelling(b: u32) -> (s: String)
    requires
        b < 256,
    ensures
        s@ == byte_name(b as int),
{
    let mut s = String::new();
    s.push_str("<0x");
    s.push(hex_char(b / 16));
    s.push(hex_char(b % 16));
    s.push_str(">");
    assert(s@ =~= byte_name(b as int));
    s
}

/// The ids of the byte tokens, if every byte has one.
pub open spec fn byte_ids(ids: Map<Seq<char>, u32>) -> Option<Seq<u32>> {
    if forall|b: int| 0 <= b < 256 ==> #[trigger] ids.contains_key(byte_name(b)) {
        Some(Seq::new(256, |b: int| ids[byte_name(b)]))
    } else {
        None
    }
}

pub open spec fn opt_view(v: Option<Vec<u32>>) -> Option<Seq<u32>> {
    match v {
        Some(v) => Some(v@),
        None => None,
    }
}

/// The algorithm that a file names.
pub open spec fn style_of(h: HeaderView) -> Style {
    if value_or(meta_str(h, "tokenizer.ggml.model"@), "llama"@) == "gpt2"@ {
        Style::ByteLevel
    } else {
        Style::MetaSpace
    }
}

pub open spec fn pre_of(h: HeaderView) -> Seq<char> {
    value_or(meta_str(h, "tokenizer.ggml.pre"@), ""@)
}

pub open spec fn tokens_of(h: HeaderView) -> Seq<Seq<char>> {
    meta_strings(h, "tokenizer.ggml.tokens"@)->Ok_0
}

pub open spec fn kinds_of(h: HeaderView) -> Seq<TokenKind> {
    match meta_u32s(h, "tokenizer.ggml.token_type"@) {
        Ok(v) => v.map_values(|x: u32| kind_of(x)),
        Err(_) => Seq::new(tokens_of(h).len(), |i: int| TokenKind::Normal),
    }
}

pub open spec fn flag_or(h: HeaderView, key: Seq<char>, default: bool) -> bool {
    if h.metadata.contains_key(key) {
        match value_bool(h.metadata[key]) {
            Some(b) => b,
            None => default,
        }
    } else {
        default
    }
}

/// Why a file has no tokenizer.
pub open spec fn vocab_error(h: HeaderView) -> Option<TokenizerErrorView> {
    if style_of(h) == Style::ByteLevel && pre_of(h) != "qwen35"@ {
        Some(TokenizerErrorView::Pre(pre_of(h)))
    } else {
        match meta_strings(h, "tokenizer.ggml.tokens"@) {
            Err(e) => Some(TokenizerErrorView::Gguf(e)),
            Ok(tokens) => if kinds_of(h).len() != tokens.len() {
                Some(
                    TokenizerErrorView::Lengths {
                        kinds: kinds_of(h).len() as int,
                        tokens: tokens.len() as int,
                    },
                )
            } else {
                None
            },
        }
    }
}

fn index_tokens(tokens: &Vec<String>) -> (ids: StringHashMap<u32>)
    ensures
        ids@ == ids_to(text::views(tokens@), tokens@.len() as int),
{
    let ghost names = text::views(tokens@);
    let mut ids: StringHashMap<u32> = StringHashMap::new();
    let mut i: usize = 0;
    while i < tokens.len()
        invariant
            i <= tokens@.len(),
            names == text::views(tokens@),
            ids@ == ids_to(names, i as int),
        decreases tokens@.len() - i,
    {
        assert(names[i as int] == tokens@[i as int]@);
        if !ids.contains_key(tokens[i].as_str()) {
            ids.insert(tokens[i].clone(), i as u32);
        }
        i = i + 1;
    }
    ids
}

fn split_at_space(s: &str) -> (r: Option<(String, String)>)
    ensures
        match r {
            Some((a, b)) => halves(s@) == Some((a@, b@)),
            None => halves(s@) is None,
        },
{
    proof {
        reveal_strlit(" ");
    }
    let c = text::chars_of(s);
    let n: usize = c.len();
    match text::find_from(c.as_slice(), 0, " ") {
        Some(p) => {
            let a = text::slice_string(c.as_slice(), 0, p);
            let b = text::slice_string(c.as_slice(), p + 1, n);
            assert(a@ =~= s@.take(p as int));
            assert(b@ =~= s@.skip(p + 1));
            Some((a, b))
        },
        None => None,
    }
}

fn read_merges(ids: &StringHashMap<u32>, lines: &[String]) -> (merges: HashMap<u64, Merge>)
    ensures
        merges@ == merges_to(ids@, text::views(lines@), lines@.len() as int),
{
    let ghost names = text::views(lines@);
    let n: usize = lines.len();
    let mut merges: HashMap<u64, Merge> = HashMap::new();
    let mut i: usize = 0;
    while i < n
        invariant
            i <= n,
            n == lines@.len(),
            names == text::views(lines@),
            merges@ == merges_to(ids@, names, i as int),
        decreases n - i,
    {
        assert(names[i as int] == lines@[i as int]@);
        match split_at_space(lines[i].as_str()) {
            Some((l, r)) => {
                let mut whole = l.clone();
                whole.push_str(r.as_str());
                match (ids.get(l.as_str()), ids.get(r.as_str()), ids.get(whole.as_str())) {
                    (Some(li), Some(ri), Some(mi)) => {
                        let key: u64 = key_of(*li, *ri);
                        if !merges.contains_key(&key) {
                            merges.insert(key, Merge { rank: i as u32, to: *mi });
                        }
                    },
                    _ => {},
                }
            },
            None => {},
        }
        i = i + 1;
    }
    merges
}

fn find_byte_tokens(ids: &StringHashMap<u32>) -> (r: Option<Vec<u32>>)
    ensures
        opt_view(r) == byte_ids(ids@),
{
    let mut v: Vec<u32> = Vec::new();
    let mut b: u32 = 0;
    while b < 256
        invariant
            b <= 256,
            v@.len() == b,
            forall|k: int|
                0 <= k < b ==> ids@.contains_key(byte_name(k)) && #[trigger] v@[k]
                    == ids@[byte_name(k)],
            forall|k: int| 0 <= k < b ==> #[trigger] ids@.contains_key(byte_name(k)),
        decreases 256 - b,
    {
        match ids.get(byte_spelling(b).as_str()) {
            Some(id) => {
                v.push(*id);
            },
            None => {
                assert(!ids@.contains_key(byte_name(b as int)));
                return None;
            },
        }
        b = b + 1;
    }
    assert(v@ =~= Seq::new(256, |b: int| ids@[byte_name(b)]));
    Some(v)
}

fn map_kinds(v: &Vec<u32>) -> (r: Vec<TokenKind>)
    ensures
        r@ == v@.map_values(|x: u32| kind_of(x)),
{
    let mut r: Vec<TokenKind> = Vec::new();
    let mut i: usize = 0;
    while i < v.len()
        invariant
            i <= v@.len(),
            r@ == v@.map_values(|x: u32| kind_of(x)).take(i as int),
        decreases v@.len() - i,
    {
        r.push(TokenKind::from_gguf(v[i]));
        i = i + 1;
        assert(r@ =~= v@.map_values(|x: u32| kind_of(x)).take(i as int));
    }
    assert(r@ =~= v@.map_values(|x: u32| kind_of(x)));
    r
}

fn all_normal(n: usize) -> (r: Vec<TokenKind>)
    ensures
        r@ == Seq::new(n as nat, |i: int| TokenKind::Normal),
{
    let mut r: Vec<TokenKind> = Vec::new();
    let mut i: usize = 0;
    while i < n
        invariant
            i <= n,
            r@ == Seq::new(i as nat, |i: int| TokenKind::Normal),
        decreases n - i,
    {
        r.push(TokenKind::Normal);
        i = i + 1;
        assert(r@ =~= Seq::new(i as nat, |i: int| TokenKind::Normal));
    }
    r
}

fn copy_strings(v: &[String]) -> (r: Vec<String>)
    ensures
        text::views(r@) == text::views(v@),
        r@.len() == v@.len(),
{
    let n: usize = v.len();
    let mut r: Vec<String> = Vec::new();
    let mut i: usize = 0;
    while i < n
        invariant
            i <= n,
            n == v@.len(),
            r@.len() == i,
            text::views(r@) == text::views(v@).take(i as int),
        decreases n - i,
    {
        r.push(v[i].clone());
        i = i + 1;
        assert(text::views(r@) =~= text::views(v@).take(i as int));
    }
    assert(text::views(r@) =~= text::views(v@));
    r
}

fn flag(h: &Header, key: &str, default: bool) -> (r: bool)
    ensures
        r == flag_or(h@, key@, default),
{
    match h.get(key) {
        Some(v) => match v.as_bool() {
            Some(b) => b,
            None => default,
        },
        None => default,
    }
}

impl Tokenizer {
    pub open spec fn names(&self) -> Seq<Seq<char>> {
        text::views(self.tokens@)
    }

    /// This is the vocabulary of the file.
    pub open spec fn is_of(&self, h: HeaderView) -> bool {
        let names = tokens_of(h);
        let ids = ids_to(names, names.len() as int);
        let lines = value_or(meta_strings(h, "tokenizer.ggml.merges"@), Seq::empty());
        &&& self.names() == names
        &&& self.kinds@ == kinds_of(h)
        &&& self.ids@ == ids
        &&& self.merges@ == merges_to(ids, lines, lines.len() as int)
        &&& opt_view(self.byte_tokens) == byte_ids(ids)
        &&& self.style == style_of(h)
        &&& self.bos == value_or(meta_u64(h, "tokenizer.ggml.bos_token_id"@), 2u64) as u32
        &&& self.eos == value_or(meta_u64(h, "tokenizer.ggml.eos_token_id"@), 1u64) as u32
        &&& self.unk == value_or(meta_u64(h, "tokenizer.ggml.unknown_token_id"@), 3u64) as u32
        &&& self.add_bos == flag_or(
            h,
            "tokenizer.ggml.add_bos_token"@,
            self.style == Style::MetaSpace,
        )
        &&& self.add_space_prefix == flag_or(h, "tokenizer.ggml.add_space_prefix"@, false)
    }

    /// A byte table, where there is one, has all bytes.
    pub open spec fn wf(&self) -> bool {
        self.byte_tokens is Some ==> self.byte_tokens->0@.len() == 256
    }

    /// Read the vocabulary of a file. Only the splitter that the byte-level
    /// dialect implements is accepted: running a byte-level vocabulary through
    /// the wrong split does not fail, it tokenizes subtly differently everywhere.
    pub fn from_gguf(h: &Header) -> (r: Result<Tokenizer, TokenizerError>)
        ensures
            match r {
                Ok(t) => vocab_error(h@) is None && t.is_of(h@) && t.wf(),
                Err(e) => vocab_error(h@) == Some(e@),
            },
    {
        let gpt2: bool = match h.str("tokenizer.ggml.model") {
            Ok(m) => text::str_eq(m, "gpt2"),
            Err(_) => {
                proof {
                    reveal_strlit("llama");
                    reveal_strlit("gpt2");
                    assert("llama"@.len() != "gpt2"@.len());
                }
                false
            },
        };
        let style = if gpt2 {
            let pre: &str = match h.str("tokenizer.ggml.pre") {
                Ok(p) => p,
                Err(_) => "",
            };
            if !text::str_eq(pre, "qwen35") {
                return Err(TokenizerError::Pre(pre.to_owned()));
            }
            Style::ByteLevel
        } else {
            Style::MetaSpace
        };
        assert(style == style_of(h@));
        let tokens = match h.string_array("tokenizer.ggml.tokens") {
            Ok(v) => copy_strings(v),
            Err(e) => {
                return Err(TokenizerError::Gguf(e));
            },
        };
        let kinds = match h.u32_array("tokenizer.ggml.token_type") {
            Ok(v) => map_kinds(&v),
            Err(_) => all_normal(tokens.len()),
        };
        if kinds.len() != tokens.len() {
            return Err(TokenizerError::Lengths { kinds: kinds.len(), tokens: tokens.len() });
        }
        let ids = index_tokens(&tokens);
        let none: Vec<String> = Vec::new();
        let lines: &[String] = match h.string_array("tokenizer.ggml.merges") {
            Ok(v) => v,
            Err(_) => none.as_slice(),
        };
        assert(text::views(lines@) =~= value_or(
            meta_strings(h@, "tokenizer.ggml.merges"@),
            Seq::empty(),
        ));
        let merges = read_merges(&ids, lines);
        let byte_tokens = find_byte_tokens(&ids);
        let bos: u32 = match h.u64("tokenizer.ggml.bos_token_id") {
            Ok(v) => v as u32,
            Err(_) => 2,
        };
        let eos: u32 = match h.u64("tokenizer.ggml.eos_token_id") {
            Ok(v) => v as u32,
            Err(_) => 1,
        };
        let unk: u32 = match h.u64("tokenizer.ggml.unknown_token_id") {
            Ok(v) => v as u32,
            Err(_) => 3,
        };
        Ok(
            Tokenizer {
                tokens,
                kinds,
                ids,
                merges,
                byte_tokens,
                style,
                bos,
                eos,
                unk,
                add_bos: flag(h, "tokenizer.ggml.add_bos_token", style == Style::MetaSpace),
                add_space_prefix: flag(h, "tokenizer.ggml.add_space_prefix", false),
            },
        )
    }

    pub fn vocab_size(&self) -> (r: usize)
        ensures
            r == self.tokens@.len(),
    {
        self.tokens.len()
    }

    /// The spelling of a token; empty for an id that is none.
    pub open spec fn spelled(&self, id: u32) -> Seq<char> {
        if id < self.tokens@.len() {
            self.tokens@[id as int]@
        } else {
            Seq::empty()
        }
    }

    pub fn token_text(&self, id: u32) -> (r: &str)
        ensures
            r@ == self.spelled(id),
    {
        if (id as usize) < self.tokens.len() {
            self.tokens[id as usize].as_str()
        } else {
            proof {
                reveal_strlit("");
                assert(""@ =~= Seq::empty());
            }
            ""
        }
    }

    pub open spec fn kind_at(&self, id: u32) -> TokenKind {
        if id < self.kinds@.len() {
            self.kinds@[id as int]
        } else {
            TokenKind::Normal
        }
    }

    pub fn kind(&self, id: u32) -> (r: TokenKind)
        ensures
            r == self.kind_at(id),
    {
        if (id as usize) < self.kinds.len() {
            self.kinds[id as usize]
        } else {
            TokenKind::Normal
        }
    }

    /// Look up a token by its exact vocabulary spelling, e.g. `"<|turn>"`.
    pub fn id_of(&self, name: &str) -> (r: Option<u32>)
        ensures
            r == self.id_at(name@),
    {
        match self.ids.get(name) {
            Some(id) => Some(*id),
            None => None,
        }
    }

    pub open spec fn id_at(&self, name: Seq<char>) -> Option<u32> {
        if self.ids@.contains_key(name) {
            Some(self.ids@[name])
        } else {
            None
        }
    }

    // -- encoding -----------------------------------------------------------
    /// The symbol that a character starts as.
    pub open spec fn seed(&self, c: char) -> Symbol {
        Symbol { id: self.id_at(seq![c]), c }
    }

    pub open spec fn seeds(&self, chars: Seq<char>) -> Seq<Symbol> {
        chars.map_values(|c: char| self.seed(c))
    }

    /// What a character outside the vocabulary becomes.
    pub open spec fn fallback(&self, c: char) -> Seq<u32> {
        if self.style == Style::MetaSpace && self.byte_tokens is Some {
            encode_utf8(seq![c]).map_values(|b: u8| self.byte_tokens->0@[b as int])
        } else {
            seq![self.unk]
        }
    }

    pub open spec fn emitted(&self, s: Symbol) -> Seq<u32> {
        match s.id {
            Some(id) => seq![id],
            None => self.fallback(s.c),
        }
    }

    /// The ids of the symbols, in order.
    pub open spec fn emit(&self, s: Seq<Symbol>) -> Seq<u32>
        decreases s.len(),
    {
        if s.len() == 0 {
            Seq::empty()
        } else {
            self.emit(s.drop_last()) + self.emitted(s.last())
        }
    }

    /// The ids of one independent stretch of characters.
    pub open spec fn encode_stretch(&self, chars: Seq<char>) -> Seq<u32> {
        self.emit(bpe(self.merges@, self.seeds(chars)))
    }

    /// The text with spaces as meta-spaces, and a leading one where the
    /// vocabulary asks for it.
    pub open spec fn normalized(&self, t: Seq<char>) -> Seq<char> {
        let body = t.map_values(
            |c: char|
                if c == ' ' {
                    META_SPACE
                } else {
                    c
                },
        );
        if self.add_space_prefix {
            seq![META_SPACE] + body
        } else {
            body
        }
    }

    /// The bytes of a piece as stand-in characters.
    pub open spec fn byte_chars(piece: Seq<char>) -> Seq<char> {
        encode_utf8(piece).map_values(|b: u8| stand_in(b) as char)
    }

    /// The ids of pieces, each on its own.
    pub open spec fn encode_pieces(&self, pieces: Seq<Seq<char>>) -> Seq<u32>
        decreases pieces.len(),
    {
        if pieces.len() == 0 {
            Seq::empty()
        } else {
            self.encode_pieces(pieces.drop_last()) + self.encode_stretch(
                Self::byte_chars(pieces.last()),
            )
        }
    }

    /// The ids of a text.
    pub open spec fn ids_of_text(&self, t: Seq<char>) -> Seq<u32> {
        if t.len() == 0 {
            Seq::empty()
        } else if self.style == Style::MetaSpace {
            self.encode_stretch(self.normalized(t))
        } else {
            self.encode_pieces(pre::pieces_from(t, 0))
        }
    }

    /// Encode text, optionally prefixing the begin-of-sequence token.
    ///
    /// Control-token spellings appearing in the input are deliberately *not*
    /// interpreted: prompt assembly inserts those by id, so text arriving from a
    /// user or a tool result can never forge a turn boundary.
    pub fn encode(&self, t: &str, add_bos: bool) -> (out: Vec<u32>)
        requires
            self.wf(),
        ensures
            out@ == (if add_bos && self.add_bos {
                seq![self.bos]
            } else {
                Seq::empty()
            }) + self.ids_of_text(t@),
    {
        let mut out: Vec<u32> = Vec::new();
        if add_bos && self.add_bos {
            out.push(self.bos);
        }
        let ghost start = out@;
        assert(start =~= if add_bos && self.add_bos {
            seq![self.bos]
        } else {
            Seq::empty()
        });
        self.encode_into(t, &mut out);
        out
    }

    pub fn encode_into(&self, t: &str, out: &mut Vec<u32>)
        requires
            self.wf(),
        ensures
            final(out)@ == old(out)@ + self.ids_of_text(t@),
    {
        let chars = text::chars_of(t);
        if chars.len() == 0 {
            assert(out@ =~= old(out)@ + Seq::empty());
            return;
        }
        match self.style {
            Style::MetaSpace => {
                let norm = self.normalize(&chars);
                self.encode_chars(&norm, out);
            },
            Style::ByteLevel => {
                let pieces = pre::split_qwen35(t);
                let ghost all = text::views(pieces@);
                let mut i: usize = 0;
                assert(all.take(0) =~= Seq::empty());
                assert(out@ =~= old(out)@ + self.encode_pieces(all.take(0)));
                while i < pieces.len()
                    invariant
                        i <= pieces@.len(),
                        self.wf(),
                        all == text::views(pieces@),
                        out@ == old(out)@ + self.encode_pieces(all.take(i as int)),
                    decreases pieces@.len() - i,
                {
                    let ghost before = out@;
                    assert(all[i as int] == pieces@[i as int]@);
                    assert(all.take(i + 1).drop_last() =~= all.take(i as int));
                    let stand_ins = spell_bytes(pieces[i].as_str());
                    self.encode_chars(&stand_ins, out);
                    i = i + 1;
                    assert(out@ =~= old(out)@ + self.encode_pieces(all.take(i as int)));
                }
                assert(all.take(i as int) =~= all);
            },
        }
    }

    fn normalize(&self, chars: &Vec<char>) -> (norm: Vec<char>)
        ensures
            norm@ == self.normalized(chars@),
    {
        let mut norm: Vec<char> = Vec::new();
        if self.add_space_prefix {
            norm.push(META_SPACE);
        }
        let ghost start = norm@;
        let ghost body = chars@.map_values(
            |c: char|
                if c == ' ' {
                    META_SPACE
                } else {
                    c
                },
        );
        let mut i: usize = 0;
        assert(norm@ =~= start + body.take(0));
        while i < chars.len()
            invariant
                i <= chars@.len(),
                body.len() == chars@.len(),
                forall|k: int|
                    0 <= k < body.len() ==> #[trigger] body[k] == (if chars@[k] == ' ' {
                        META_SPACE
                    } else {
                        chars@[k]
                    }),
                norm@ == start + body.take(i as int),
            decreases chars@.len() - i,
        {
            let c: char = chars[i];
            norm.push(if c == ' ' { META_SPACE } else { c });
            i = i + 1;
            assert(norm@ =~= start + body.take(i as int));
        }
        assert(norm@ =~= self.normalized(chars@));
        norm
    }

    fn seed_sym(&self, c: char) -> (s: Sym)
        ensures
            s.id == self.seed(c).id,
            s.c == c,
    {
        let mut name = String::new();
        name.push(c);
        assert(name@ =~= seq![c]);
        Sym { id: self.id_of(name.as_str()), c, prev: END, next: END, alive: true }
    }

    fn push_byte_fallback(&self, c: char, out: &mut Vec<u32>)
        requires
            self.wf(),
        ensures
            final(out)@ == old(out)@ + self.fallback(c),
    {
        if self.style == Style::ByteLevel {
            out.push(self.unk);
            assert(out@ =~= old(out)@ + seq![self.unk]);
            return;
        }
        match &self.byte_tokens {
            Some(bt) => {
                let mut s = String::new();
                s.push(c);
                assert(s@ =~= seq![c]);
                let bytes = s.as_str().as_bytes();
                let n: usize = bytes.len();
                let ghost all = self.fallback(c);
                let mut i: usize = 0;
                assert(out@ =~= old(out)@ + all.take(0));
                while i < n
                    invariant
                        i <= n,
                        n == bytes@.len(),
                        bt@.len() == 256,
                        all == bytes@.map_values(|b: u8| bt@[b as int]),
                        out@ == old(out)@ + all.take(i as int),
                    decreases n - i,
                {
                    out.push(bt[bytes[i] as usize]);
                    i = i + 1;
                    assert(out@ =~= old(out)@ + all.take(i as int));
                }
                assert(all.take(n as int) =~= all);
            },
            None => {
                out.push(self.unk);
                assert(out@ =~= old(out)@ + seq![self.unk]);
            },
        }
    }

    /// Encode one independent stretch of characters.
    fn encode_chars(&self, chars: &Vec<char>, out: &mut Vec<u32>)
        requires
            self.wf(),
        ensures
            final(out)@ == old(out)@ + self.encode_stretch(chars@),
    {
        let mut syms: Vec<Sym> = Vec::new();
        let mut i: usize = 0;
        while i < chars.len()
            invariant
                i <= chars@.len(),
                syms@.len() == i,
                seeded(syms@) == self.seeds(chars@).take(i as int),
            decreases chars@.len() - i,
        {
            let ghost before = seeded(syms@);
            let s = self.seed_sym(chars[i]);
            syms.push(s);
            i = i + 1;
            assert(seeded(syms@) =~= before.push(self.seed(chars@[i - 1])));
            assert(seeded(syms@) =~= self.seeds(chars@).take(i as int));
        }
        assert(self.seeds(chars@).take(i as int) =~= self.seeds(chars@));
        if syms.len() == 0 {
            proof {
                let s = self.seeds(chars@);
                assert(s =~= Seq::empty());
                bpe::best_is_best(self.merges@, s, 0);
                assert(out@ =~= old(out)@ + Seq::empty());
            }
            return;
        }
        self.merge_and_emit(syms, out);
    }

    fn merge_and_emit(&self, syms: Vec<Sym>, out: &mut Vec<u32>)
        requires
            self.wf(),
            syms@.len() > 0,
        ensures
            final(out)@ == old(out)@ + self.emit(bpe(self.merges@, seeded(syms@))),
    {
        let mut syms = syms;
        let ghost all = bpe(self.merges@, seeded(syms@));
        let order: Ghost<Seq<int>> = merge_all(&self.merges, &mut syms);
        let ghost o = order@;
        let n: usize = syms.len();
        let mut i: usize = 0;
        let ghost mut k: int = 0;
        proof {
            reveal(linked);
            assert(all.take(0) =~= Seq::empty());
            assert(out@ =~= old(out)@ + self.emit(all.take(0)));
        }
        while i != END
            invariant
                self.wf(),
                n == syms@.len(),
                linked(syms@, o),
                all == current(syms@, o),
                0 <= k <= o.len(),
                i == (if k < o.len() {
                    o[k]
                } else {
                    END as int
                }),
                out@ == old(out)@ + self.emit(all.take(k)),
            decreases o.len() - k,
        {
            proof {
                reveal(linked);
                assert(bpe::links_at(syms@, o, k));
                assert(all.take(k + 1).drop_last() =~= all.take(k));
            }
            let ghost before = out@;
            let s = syms[i];
            assert(all[k] == (Symbol { id: s.id, c: s.c }));
            match s.id {
                Some(id) => {
                    out.push(id);
                    assert(out@ =~= before + seq![id]);
                },
                None => self.push_byte_fallback(s.c, out),
            }
            proof {
                assert(out@ =~= old(out)@ + self.emit(all.take(k + 1)));
                k = k + 1;
            }
            i = s.next;
        }
        proof {
            reveal(linked);
            assert(all.take(k) =~= all);
        }
    }
}

/// The bytes of a piece as stand-in characters.
fn spell_bytes(piece: &str) -> (r: Vec<char>)
    ensures
        r@ == Tokenizer::byte_chars(piece@),
{
    let bytes = piece.as_bytes();
    let n: usize = bytes.len();
    let ghost all = Tokenizer::byte_chars(piece@);
    let mut r: Vec<char> = Vec::new();
    let mut i: usize = 0;
    while i < n
        invariant
            i <= n,
            n == bytes@.len(),
            all == bytes@.map_values(|b: u8| stand_in(b) as char),
            r@ == all.take(i as int),
        decreases n - i,
    {
        let c: char = byte_to_char(bytes[i]);
        assert(c == stand_in(bytes@[i as int]) as char);
        r.push(c);
        i = i + 1;
        assert(r@ =~= all.take(i as int));
    }
    assert(r@ =~= all);
    r
}

} // verus!
