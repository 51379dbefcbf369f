use llmoxide::header::Header;
use llmoxide::tokenizer::decoder::Decoder;
use llmoxide::tokenizer::heap::{Bigram, Heap};
use llmoxide::tokenizer::pre::split_qwen35;
use llmoxide::tokenizer::unicode::Classes;
use llmoxide::tokenizer::{byte_to_char, char_to_byte, TokenKind, Tokenizer, TokenizerError};

/// A GGUF file in the making.
#[derive(Default)]
struct Build {
    meta: Vec<u8>,
    n_meta: u64,
    infos: Vec<u8>,
    n_infos: u64,
    data: Vec<u8>,
}

#[allow(dead_code)]
impl Build {
    fn string(v: &mut Vec<u8>, s: &str) {
        v.extend_from_slice(&(s.len() as u64).to_le_bytes());
        v.extend_from_slice(s.as_bytes());
    }

    fn key(&mut self, key: &str, ty: u32) {
        self.n_meta += 1;
        Self::string(&mut self.meta, key);
        self.meta.extend_from_slice(&ty.to_le_bytes());
    }

    fn number(mut self, key: &str, v: u32) -> Self {
        self.key(key, 4);
        self.meta.extend_from_slice(&v.to_le_bytes());
        self
    }

    fn single(mut self, key: &str, v: f32) -> Self {
        self.key(key, 6);
        self.meta.extend_from_slice(&v.to_le_bytes());
        self
    }

    fn flag(mut self, key: &str, v: bool) -> Self {
        self.key(key, 7);
        self.meta.push(v as u8);
        self
    }

    fn text(mut self, key: &str, v: &str) -> Self {
        self.key(key, 8);
        Self::string(&mut self.meta, v);
        self
    }

    fn texts(mut self, key: &str, v: &[&str]) -> Self {
        self.key(key, 9);
        self.meta.extend_from_slice(&8u32.to_le_bytes());
        self.meta.extend_from_slice(&(v.len() as u64).to_le_bytes());
        for s in v {
            Self::string(&mut self.meta, s);
        }
        self
    }

    fn numbers(mut self, key: &str, v: &[u32]) -> Self {
        self.key(key, 9);
        self.meta.extend_from_slice(&4u32.to_le_bytes());
        self.meta.extend_from_slice(&(v.len() as u64).to_le_bytes());
        for n in v {
            self.meta.extend_from_slice(&n.to_le_bytes());
        }
        self
    }

    fn flags(mut self, key: &str, v: &[bool]) -> Self {
        self.key(key, 9);
        self.meta.extend_from_slice(&7u32.to_le_bytes());
        self.meta.extend_from_slice(&(v.len() as u64).to_le_bytes());
        for b in v {
            self.meta.push(*b as u8);
        }
        self
    }

    fn tensor(mut self, name: &str, dims: &[u64], ty: u32, data: &[u8]) -> Self {
        self.n_infos += 1;
        Self::string(&mut self.infos, name);
        self.infos.extend_from_slice(&(dims.len() as u32).to_le_bytes());
        for d in dims {
            self.infos.extend_from_slice(&d.to_le_bytes());
        }
        self.infos.extend_from_slice(&ty.to_le_bytes());
        self.infos.extend_from_slice(&(self.data.len() as u64).to_le_bytes());
        self.data.extend_from_slice(data);
        while self.data.len() % 32 != 0 {
            self.data.push(0);
        }
        self
    }

    fn finish(self) -> Vec<u8> {
        let mut v = b"GGUF".to_vec();
        v.extend_from_slice(&3u32.to_le_bytes());
        v.extend_from_slice(&self.n_infos.to_le_bytes());
        v.extend_from_slice(&self.n_meta.to_le_bytes());
        v.extend_from_slice(&self.meta);
        v.extend_from_slice(&self.infos);
        while v.len() % 32 != 0 {
            v.push(0);
        }
        v.extend_from_slice(&self.data);
        v
    }
}

fn split(s: &str) -> Vec<String> {
    split_qwen35(s)
}

#[test]
fn digits_split_individually() {
    assert_eq!(split("123"), ["1", "2", "3"]);
    assert_eq!(split("a 42"), ["a", " ", "4", "2"]);
}

#[test]
fn space_prefixes_words() {
    assert_eq!(split("Hello, world!"), ["Hello", ",", " world", "!"]);
}

#[test]
fn contractions_detach() {
    assert_eq!(split("it's"), ["it", "'s"]);
    assert_eq!(split("WE'LL"), ["WE", "'LL"]);
}

#[test]
fn runs_of_spaces_leave_one_for_the_word() {
    assert_eq!(split("a   b"), ["a", "  ", " b"]);
}

#[test]
fn newlines_take_leading_whitespace() {
    assert_eq!(split("a  \n\nb"), ["a", "  \n\n", "b"]);
    // After the newline block, `\\s+(?!\\S)` peels the run down to the one
    // space that prefixes the word.
    assert_eq!(split("a\n  \n  b"), ["a", "\n  \n", " ", " b"]);
}

#[test]
fn punctuation_absorbs_trailing_newlines() {
    assert_eq!(split("end.\nNext"), ["end", ".\n", "Next"]);
}

#[test]
fn combining_marks_stay_with_letters() {
    // e + U+0301 combining acute: the mark must not split off.
    assert_eq!(split("cafe\u{301} x"), ["cafe\u{301}", " x"]);
}

#[test]
fn control_token_spelling_shatters() {
    // No piece equals the full spelling, so BPE can never assemble the id.
    let pieces = split("<|im_end|>");
    assert!(pieces.len() > 1, "{pieces:?}");
    assert!(!pieces.contains(&"<|im_end|>".to_string()));
}

#[test]
fn trailing_whitespace_is_kept() {
    assert_eq!(split("a "), ["a", " "]);
    assert_eq!(split("a  "), ["a", "  "]);
}

#[test]
fn pieces_join_to_the_text() {
    for s in ["", " ", "a\tb\r\nc", "\u{4e2d}\u{6587} 12,5% \u{1F600}!?", "don't  stop\n"] {
        assert_eq!(split(s).concat(), s);
    }
}

#[test]
fn characters_fall_into_their_classes() {
    let c = Classes::new();
    assert!(c.flags('a').letter && !c.flags('a').number);
    assert!(c.flags('\u{301}').mark);
    assert!(c.flags('\u{0663}').number);
    assert!(c.flags('\u{3000}').whitespace && !c.flags('_').whitespace);
    let all = "\u{7f}\u{e9}Z_ \n";
    for x in all.chars() {
        assert_eq!(c.flags(x).whitespace, x.is_whitespace());
        assert_eq!(c.flags(x).letter, x.is_alphabetic());
    }
}

#[test]
fn every_byte_has_a_stand_in() {
    for b in 0..=255u8 {
        assert_eq!(char_to_byte(byte_to_char(b)), Some(b));
    }
    assert_eq!(byte_to_char(b'a'), 'a');
    assert_eq!(byte_to_char(b' '), '\u{120}');
    assert_eq!(char_to_byte('\u{4e2d}'), None);
}

#[test]
fn the_heap_gives_the_lowest_rank_first() {
    let mut h = Heap::new();
    let b = |rank, left| Bigram { rank, left, right: left + 1, left_id: 0, right_id: 0, merged: 0 };
    for (r, l) in [(5, 0), (1, 7), (3, 2), (1, 4), (9, 1)] {
        h.push(b(r, l));
    }
    let mut got = Vec::new();
    while let Some(x) = h.pop() {
        got.push((x.rank, x.left));
    }
    assert_eq!(got, [(1, 4), (1, 7), (3, 2), (5, 0), (9, 1)]);
}

/// A metaspace vocabulary with all bytes and a few merges.
fn metaspace() -> Tokenizer {
    let bytes: Vec<String> = (0..256).map(|b| format!("<0x{b:02X}>")).collect();
    let mut tokens: Vec<&str> = vec!["<pad>", "<eos>", "<bos>", "<unk>"];
    tokens.extend(["\u{2581}", "h", "i", "hi", "\u{2581}hi", "<|turn>"]);
    let mut kinds = vec![3u32, 3, 3, 2, 1, 1, 1, 1, 1, 3];
    for b in &bytes {
        tokens.push(b);
        kinds.push(6);
    }
    let file = Build::default()
        .text("tokenizer.ggml.model", "llama")
        .texts("tokenizer.ggml.tokens", &tokens)
        .numbers("tokenizer.ggml.token_type", &kinds)
        .texts("tokenizer.ggml.merges", &["h i", "\u{2581} hi"])
        .finish();
    read(&file)
}

/// A byte-level vocabulary of single characters, with one merge.
fn bytelevel() -> Tokenizer {
    let chars: Vec<String> = (0..=255u8).map(|b| byte_to_char(b).to_string()).collect();
    let mut tokens: Vec<&str> = chars.iter().map(|s| s.as_str()).collect();
    tokens.extend(["hi", "<|im_start|>"]);
    let mut kinds = vec![1u32; 257];
    kinds.push(3);
    let file = Build::default()
        .text("tokenizer.ggml.model", "gpt2")
        .text("tokenizer.ggml.pre", "qwen35")
        .texts("tokenizer.ggml.tokens", &tokens)
        .numbers("tokenizer.ggml.token_type", &kinds)
        .texts("tokenizer.ggml.merges", &["h i"])
        .finish();
    read(&file)
}

fn read(file: &[u8]) -> Tokenizer {
    let h = Header::parse(file).unwrap_or_else(|e| panic!("{e:?}"));
    match Tokenizer::from_gguf(&h) {
        Ok(t) => t,
        Err(e) => panic!("{e:?}"),
    }
}

#[test]
fn merges_are_applied_by_rank() {
    let t = metaspace();
    assert_eq!(t.encode("hi hi", true), [2, 7, 8]);
    assert_eq!(t.encode("hi", false), [7]);
    assert_eq!(t.id_of("hi"), Some(7));
    assert_eq!(t.token_text(8), "\u{2581}hi");
    assert_eq!(t.token_text(9999), "");
    assert_eq!(t.kind(9), TokenKind::Control);
    assert!(t.kind(2).is_control() && !t.kind(7).is_control());
    assert_eq!(t.vocab_size(), 266);
}

#[test]
fn unknown_characters_fall_back_to_bytes() {
    let t = metaspace();
    let ids = t.encode("\u{e9}", false);
    assert_eq!(ids, [10 + 0xC3, 10 + 0xA9]);
    assert_eq!(t.decode(&ids), "\u{e9}");
}

#[test]
fn control_spellings_never_become_control_tokens() {
    let t = metaspace();
    assert!(!t.encode("<|turn>", false).contains(&9));
    let t = bytelevel();
    assert!(!t.encode("<|im_start|>", false).contains(&257));
}

#[test]
fn text_round_trips_through_both_dialects() {
    for t in [metaspace(), bytelevel()] {
        for s in ["", "hi hi", "caf\u{e9} \u{1F600}\n\n x  y"] {
            let ids = t.encode(s, false);
            assert_eq!(t.decode(&ids), s);
        }
    }
}

#[test]
fn a_decoder_holds_back_half_characters() {
    let t = metaspace();
    let mut d = Decoder::new(&t);
    assert_eq!(d.push(10 + 0xC3), "");
    assert_eq!(d.push(10 + 0xA9), "\u{e9}");
    assert_eq!(d.push(9), "");
    assert_eq!(d.push(10 + 0xE2), "");
    assert_eq!(d.flush(), "\u{FFFD}");
    assert_eq!(d.flush(), "");
}

#[test]
fn vocabularies_that_cannot_be_used_are_refused() {
    let h = |b: Build| Header::parse(&b.finish()).unwrap_or_else(|e| panic!("{e:?}"));
    let b = Build::default().text("tokenizer.ggml.model", "gpt2").text("tokenizer.ggml.pre", "llama3");
    assert!(matches!(Tokenizer::from_gguf(&h(b)), Err(TokenizerError::Pre(p)) if p == "llama3"));
    assert!(matches!(Tokenizer::from_gguf(&h(Build::default())), Err(TokenizerError::Gguf(_))));
    let b = Build::default()
        .texts("tokenizer.ggml.tokens", &["a", "b"])
        .numbers("tokenizer.ggml.token_type", &[1]);
    assert!(matches!(
        Tokenizer::from_gguf(&h(b)),
        Err(TokenizerError::Lengths { kinds: 1, tokens: 2 })
    ));
}

#[test]
fn numerals_are_nothing_else_and_stand_alone() {
    let cls = Classes::new();
    for n in (0u32..0x1000).chain((0x1000..0x20000).step_by(7)) {
        let Some(c) = char::from_u32(n) else { continue };
        let f = cls.flags(c);
        assert!(!(f.number && (f.letter || f.mark || f.whitespace)), "{n:x}");
        if c.is_ascii() {
            assert_eq!(f.number, c.is_ascii_digit());
        }
    }
    for c in ['\r', '\n'] {
        assert!(!cls.flags(c).letter && !cls.flags(c).mark);
    }
    // Digits of other scripts too, in whatever company.
    assert_eq!(split("x\u{664}\u{665}'s1"), ["x", "\u{664}", "\u{665}", "'s", "1"]);
    assert_eq!(split(" 1\n2"), [" ", "1", "\n", "2"]);
}
