use llmoxide::gguf::{Array, Error, FloatBits, GgmlType, Value};
use llmoxide::header::{align_up, Gguf, Header};
use llmoxide::quant::{
    decode_q4k_block, decode_q6k_block, decode_q8_0_block, dequant_dense, q4k_scale_min,
    Q4K_BLOCK_BYTES, Q6K_BLOCK_BYTES, Q8_0_BLOCK_BYTES, QK_K,
};

/// A GGUF file in the making.
#[derive(Default)]
struct Build {
    meta: Vec<u8>,
    n_meta: u64,
    infos: Vec<u8>,
    n_infos: u64,
    data: Vec<u8>,
}

#[allow(dead_code)]
impl Build {
    fn string(v: &mut Vec<u8>, s: &str) {
        v.extend_from_slice(&(s.len() as u64).to_le_bytes());
        v.extend_from_slice(s.as_bytes());
    }

    fn key(&mut self, key: &str, ty: u32) {
        self.n_meta += 1;
        Self::string(&mut self.meta, key);
        self.meta.extend_from_slice(&ty.to_le_bytes());
    }

    fn number(mut self, key: &str, v: u32) -> Self {
        self.key(key, 4);
        self.meta.extend_from_slice(&v.to_le_bytes());
        self
    }

    fn single(mut self, key: &str, v: f32) -> Self {
        self.key(key, 6);
        self.meta.extend_from_slice(&v.to_le_bytes());
        self
    }

    fn flag(mut self, key: &str, v: bool) -> Self {
        self.key(key, 7);
        self.meta.push(v as u8);
        self
    }

    fn text(mut self, key: &str, v: &str) -> Self {
        self.key(key, 8);
        Self::string(&mut self.meta, v);
        self
    }

    fn texts(mut self, key: &str, v: &[&str]) -> Self {
        self.key(key, 9);
        self.meta.extend_from_slice(&8u32.to_le_bytes());
        self.meta.extend_from_slice(&(v.len() as u64).to_le_bytes());
        for s in v {
            Self::string(&mut self.meta, s);
        }
        self
    }

    fn numbers(mut self, key: &str, v: &[u32]) -> Self {
        self.key(key, 9);
        self.meta.extend_from_slice(&4u32.to_le_bytes());
        self.meta.extend_from_slice(&(v.len() as u64).to_le_bytes());
        for n in v {
            self.meta.extend_from_slice(&n.to_le_bytes());
        }
        self
    }

    fn flags(mut self, key: &str, v: &[bool]) -> Self {
        self.key(key, 9);
        self.meta.extend_from_slice(&7u32.to_le_bytes());
        self.meta.extend_from_slice(&(v.len() as u64).to_le_bytes());
        for b in v {
            self.meta.push(*b as u8);
        }
        self
    }

    fn tensor(mut self, name: &str, dims: &[u64], ty: u32, data: &[u8]) -> Self {
        self.n_infos += 1;
        Self::string(&mut self.infos, name);
        self.infos.extend_from_slice(&(dims.len() as u32).to_le_bytes());
        for d in dims {
            self.infos.extend_from_slice(&d.to_le_bytes());
        }
        self.infos.extend_from_slice(&ty.to_le_bytes());
        self.infos.extend_from_slice(&(self.data.len() as u64).to_le_bytes());
        self.data.extend_from_slice(data);
        while self.data.len() % 32 != 0 {
            self.data.push(0);
        }
        self
    }

    fn finish(self) -> Vec<u8> {
        let mut v = b"GGUF".to_vec();
        v.extend_from_slice(&3u32.to_le_bytes());
        v.extend_from_slice(&self.n_infos.to_le_bytes());
        v.extend_from_slice(&self.n_meta.to_le_bytes());
        v.extend_from_slice(&self.meta);
        v.extend_from_slice(&self.infos);
        while v.len() % 32 != 0 {
            v.push(0);
        }
        v.extend_from_slice(&self.data);
        v
    }
}

fn error_of<T>(r: Result<T, Error>) -> Error {
    match r {
        Ok(_) => panic!("no error"),
        Err(e) => e,
    }
}

#[test]
fn align_up_rounds_to_multiple() {
    assert_eq!(align_up(0, 32), 0);
    assert_eq!(align_up(1, 32), 32);
    assert_eq!(align_up(32, 32), 32);
    assert_eq!(align_up(15_821_832, 32), 15_821_856);
}

#[test]
fn block_sizes_match_ggml() {
    assert_eq!(GgmlType::Q4K.bytes_for(256), 144);
    assert_eq!(GgmlType::Q6K.bytes_for(256), 210);
    assert_eq!(GgmlType::F32.bytes_for(10), 40);
}

#[test]
fn types_are_numbered_as_in_the_format() {
    let all = [
        (0, GgmlType::F32, "F32"),
        (1, GgmlType::F16, "F16"),
        (8, GgmlType::Q8_0, "Q8_0"),
        (12, GgmlType::Q4K, "Q4_K"),
        (14, GgmlType::Q6K, "Q6_K"),
        (30, GgmlType::BF16, "BF16"),
    ];
    for (n, ty, name) in all {
        assert_eq!(GgmlType::from_u32(n).unwrap(), ty);
        assert_eq!(ty.name(), name);
    }
    assert!(matches!(GgmlType::from_u32(2), Err(Error::BadTensorType(2))));
    assert!(GgmlType::Q8_0.is_quantized() && !GgmlType::BF16.is_quantized());
}

#[test]
fn metadata_and_tensors_are_read() {
    let data: Vec<u8> = [1.0f32, -2.0].iter().flat_map(|f| f.to_le_bytes()).collect();
    let file = Build::default()
        .text("general.architecture", "gemma4")
        .number("n", 7)
        .single("f", 1.5)
        .flag("b", true)
        .texts("s", &["a", "b\u{e9}"])
        .numbers("u", &[1, 2, 3])
        .flags("p", &[true, false])
        .tensor("t", &[2], 0, &data)
        .tensor("r", &[2, 2], 0, &[9u8; 16])
        .finish();
    let g = Gguf::from_mmap(&file).unwrap_or_else(|e| panic!("{e:?}"));
    let h = g.header();
    assert_eq!(h.version, 3);
    assert_eq!(h.str("general.architecture").unwrap(), "gemma4");
    assert_eq!(h.u64("n").unwrap(), 7);
    assert_eq!(h.usize("n").unwrap(), 7);
    assert_eq!(h.float("f").unwrap(), FloatBits::Single(1.5f32.to_bits()));
    assert_eq!(h.get("b").unwrap().as_bool(), Some(true));
    assert_eq!(h.string_array("s").unwrap(), ["a".to_string(), "b\u{e9}".to_string()]);
    assert_eq!(h.u32_array("u").unwrap(), [1, 2, 3]);
    assert_eq!(h.bool_array("p").unwrap(), [true, false]);
    assert_eq!(h.array("u").unwrap().len(), 3);
    assert!(h.has_tensor("t") && !h.has_tensor("x"));
    let t = g.tensor("t").unwrap_or_else(|e| panic!("{e:?}"));
    assert_eq!(t.data, &data[..]);
    assert_eq!((t.in_dim(), t.out_dim(), t.elem_count()), (2, 1, 2));
    let r = g.tensor("r").unwrap_or_else(|e| panic!("{e:?}"));
    assert_eq!(r.row_bytes(1), &[9u8; 8]);
    assert_eq!(g.tensor_bytes(), 24);
    assert!(g.tensor_opt("x").is_none());
    assert_eq!(g.file_size(), file.len() as u64);
    assert_eq!(g.tensor_data_offset() % 32, 0);
}

#[test]
fn bad_files_are_refused_with_the_reason() {
    assert!(matches!(error_of(Header::parse(b"GGU")), Error::Eof(0)));
    assert!(matches!(error_of(Header::parse(b"ABCDEFGH")), Error::BadMagic(0x4443_4241)));
    let mut one = Build::default().finish();
    one[4] = 1;
    assert!(matches!(error_of(Header::parse(&one)), Error::BadVersion(1)));
    let file = Build::default().number("n", 7).tensor("t", &[8], 0, &[0u8; 32]).finish();
    for n in 0..file.len() - 64 {
        assert!(matches!(error_of(Header::parse(&file[..n])), Error::Eof(_)), "{n}");
    }
    let short = &file[..file.len() - 1];
    match error_of(Gguf::from_mmap(short)) {
        Error::TensorOutOfBounds { name, end, len } => {
            assert_eq!((name.as_str(), end, len), ("t", file.len() as u64, short.len() as u64));
        }
        e => panic!("{e:?}"),
    }
    let strange = Build::default().tensor("t", &[8], 99, &[0u8; 32]).finish();
    assert!(matches!(error_of(Header::parse(&strange)), Error::BadTensorType(99)));
    let mut v = Build::default();
    v.key("k", 77);
    assert!(matches!(error_of(Header::parse(&v.finish())), Error::BadValueType(77)));
}

#[test]
fn lookups_name_what_is_wrong() {
    let file = Build::default().text("s", "x").number("n", 1).finish();
    let h = Header::parse(&file).unwrap_or_else(|e| panic!("{e:?}"));
    assert!(matches!(error_of(h.u64("absent")), Error::NoKey(k) if k == "absent"));
    match error_of(h.u64("s")) {
        Error::WrongType { key, actual, .. } => assert_eq!((key.as_str(), actual), ("s", "string")),
        e => panic!("{e:?}"),
    }
    assert!(matches!(error_of(h.string_array("n")), Error::WrongType { .. }));
    assert!(matches!(error_of(h.info("t").map(|_| ())), Error::NoTensor(n) if n == "t"));
}

#[test]
fn values_convert_as_far_as_they_can() {
    assert_eq!(Value::U8(3).as_u64(), Some(3));
    // Negative numbers wrap.
    assert_eq!(Value::I32(-1).as_u64(), Some(u64::MAX));
    assert_eq!(Value::I64(5).as_u64(), Some(5));
    assert_eq!(Value::F64(2.5f64.to_bits()).as_f32(), Some(FloatBits::Double(2.5f64.to_bits())));
    assert_eq!(Value::String("x".into()).as_str(), Some("x"));
    assert_eq!(Array::I32(vec![1, 2]).as_u32_vec(), Some(vec![1, 2]));
    assert_eq!(Array::String(vec![]).as_u32_vec(), None);
}

#[test]
fn text_that_is_not_utf8_is_kept_with_replacements() {
    let mut b = Build::default();
    b.key("s", 8);
    b.meta.extend_from_slice(&3u64.to_le_bytes());
    b.meta.extend_from_slice(&[b'a', 0xFF, b'b']);
    let h = Header::parse(&b.finish()).unwrap_or_else(|e| panic!("{e:?}"));
    assert_eq!(h.str("s").unwrap(), "a\u{FFFD}b");
}

#[test]
fn q4k_scale_min_unpacks_six_bits() {
    // All-ones input: every 6-bit field should read back as 63.
    let q = [0xFFu8; 12];
    for j in 0..8 {
        let (sc, m) = q4k_scale_min(j, &q);
        assert_eq!((sc, m), (63, 63), "sub-block {j}");
    }
}

#[test]
fn q4k_zero_quants_give_negative_min() {
    // d=1, dmin=1, scales byte 0 => sc=0,m=0 for j<4; nibbles zero.
    let mut blk = vec![0u8; Q4K_BLOCK_BYTES];
    blk[0..2].copy_from_slice(&half::f16::from_f32(1.0).to_le_bytes());
    blk[2..4].copy_from_slice(&half::f16::from_f32(1.0).to_le_bytes());
    blk[4] = 5; // sub-block 0 scale = 5
    blk[8] = 7; // sub-block 0 min = 7
    let out = decode_q4k_block(&blk);
    let d = half::f16::from_le_bytes([blk[0], blk[1]]).to_f32();
    let dmin = half::f16::from_le_bytes([blk[2], blk[3]]).to_f32();
    let e = out[0];
    assert_eq!((e.scale, e.min, e.quant), (5, 7, 0));
    // quant nibble is 0, so value = 0*5 - 1*7
    assert_eq!(d * e.scale as f32 * e.quant as f32 - dmin * e.min as f32, -7.0);
    assert_eq!(out.len(), QK_K);
}

#[test]
fn q6k_zero_quants_center_at_minus_32() {
    let mut blk = vec![0u8; Q6K_BLOCK_BYTES];
    blk[208..210].copy_from_slice(&half::f16::from_f32(1.0).to_le_bytes());
    blk[192] = 2; // scales[0] = 2
    let out = decode_q6k_block(&blk);
    let d = half::f16::from_le_bytes([blk[208], blk[209]]).to_f32();
    // (0 | 0) - 32 = -32, times scale 2, times d 1
    assert_eq!(d * out[0].scale as f32 * out[0].quant as f32, -64.0);
}

#[test]
fn q4k_elements_sit_where_the_layout_says() {
    let mut blk = vec![0u8; Q4K_BLOCK_BYTES];
    blk[16] = 0x21; // element 0 is the low nibble, element 32 the high one
    blk[5] = 9; // sub-block 1 scale
    let out = decode_q4k_block(&blk);
    assert_eq!(out[0].quant, 1);
    assert_eq!(out[32].quant, 2);
    assert_eq!(out[32].scale, 9);
    let mut blk = vec![0u8; Q6K_BLOCK_BYTES];
    blk[0] = 0xF3; // low bits of elements 0 and 64
    blk[128] = 0b0000_0001; // high bits of element 0
    let out = decode_q6k_block(&blk);
    assert_eq!(out[0].quant, 3 + 16 - 32);
    assert_eq!(out[64].quant, 15 - 32);
    let mut blk = vec![0u8; Q8_0_BLOCK_BYTES];
    blk[2] = 0xFF;
    assert_eq!(decode_q8_0_block(&blk)[0], -1);
}

#[test]
fn dense_values_keep_their_bits() {
    let f: Vec<u8> = [1.0f32, -0.5].iter().flat_map(|x| x.to_le_bytes()).collect();
    assert_eq!(dequant_dense(false, &f, 2), [1.0f32.to_bits(), (-0.5f32).to_bits()]);
    // bfloat16 is the upper half of a single.
    assert_eq!(dequant_dense(true, &[0x80, 0x3F], 1), [1.0f32.to_bits()]);
}
