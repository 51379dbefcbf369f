use llmoxide::arch::Arch;
use llmoxide::cache::{self, KvCache, LayerCache};
use llmoxide::config::{Config, ConfigError};
use llmoxide::cpu::{self, Cpu, Gain, Label, Matrix, PassError, Rows, Scratch, Step};
use llmoxide::gguf::FloatBits;
use llmoxide::gpu::{forward, qwen35 as linear};
use llmoxide::header::{Gguf, Header};
use llmoxide::qwen35::config::Config as Qwen;
use llmoxide::qwen35::cpu::{self as qcpu, Cpu as QwenCpu};
use llmoxide::qwen35::state::{self, slide, LayerState, State};
use llmoxide::qwen35::weights::{self as qweights, Weights as QwenWeights};
use llmoxide::sample::{argmax, penalized, top_candidates, Choice, Rng, Sampler, Sampling};
use llmoxide::weights::{can_load, Weights, WeightsError};

/// A GGUF file in the making.
#[derive(Default)]
struct Build {
    meta: Vec<u8>,
    n_meta: u64,
    infos: Vec<u8>,
    n_infos: u64,
    data: Vec<u8>,
}

#[allow(dead_code)]
impl Build {
    fn string(v: &mut Vec<u8>, s: &str) {
        v.extend_from_slice(&(s.len() as u64).to_le_bytes());
        v.extend_from_slice(s.as_bytes());
    }

    fn key(&mut self, key: &str, ty: u32) {
        self.n_meta += 1;
        Self::string(&mut self.meta, key);
        self.meta.extend_from_slice(&ty.to_le_bytes());
    }

    fn number(mut self, key: &str, v: u32) -> Self {
        self.key(key, 4);
        self.meta.extend_from_slice(&v.to_le_bytes());
        self
    }

    fn single(mut self, key: &str, v: f32) -> Self {
        self.key(key, 6);
        self.meta.extend_from_slice(&v.to_le_bytes());
        self
    }

    fn flag(mut self, key: &str, v: bool) -> Self {
        self.key(key, 7);
        self.meta.push(v as u8);
        self
    }

    fn text(mut self, key: &str, v: &str) -> Self {
        self.key(key, 8);
        Self::string(&mut self.meta, v);
        self
    }

    fn texts(mut self, key: &str, v: &[&str]) -> Self {
        self.key(key, 9);
        self.meta.extend_from_slice(&8u32.to_le_bytes());
        self.meta.extend_from_slice(&(v.len() as u64).to_le_bytes());
        for s in v {
            Self::string(&mut self.meta, s);
        }
        self
    }

    fn numbers(mut self, key: &str, v: &[u32]) -> Self {
        self.key(key, 9);
        self.meta.extend_from_slice(&4u32.to_le_bytes());
        self.meta.extend_from_slice(&(v.len() as u64).to_le_bytes());
        for n in v {
            self.meta.extend_from_slice(&n.to_le_bytes());
        }
        self
    }

    fn flags(mut self, key: &str, v: &[bool]) -> Self {
        self.key(key, 9);
        self.meta.extend_from_slice(&7u32.to_le_bytes());
        self.meta.extend_from_slice(&(v.len() as u64).to_le_bytes());
        for b in v {
            self.meta.push(*b as u8);
        }
        self
    }

    fn tensor(mut self, name: &str, dims: &[u64], ty: u32, data: &[u8]) -> Self {
        self.n_infos += 1;
        Self::string(&mut self.infos, name);
        self.infos.extend_from_slice(&(dims.len() as u32).to_le_bytes());
        for d in dims {
            self.infos.extend_from_slice(&d.to_le_bytes());
        }
        self.infos.extend_from_slice(&ty.to_le_bytes());
        self.infos.extend_from_slice(&(self.data.len() as u64).to_le_bytes());
        self.data.extend_from_slice(data);
        while self.data.len() % 32 != 0 {
            self.data.push(0);
        }
        self
    }

    fn finish(self) -> Vec<u8> {
        let mut v = b"GGUF".to_vec();
        v.extend_from_slice(&3u32.to_le_bytes());
        v.extend_from_slice(&self.n_infos.to_le_bytes());
        v.extend_from_slice(&self.n_meta.to_le_bytes());
        v.extend_from_slice(&self.meta);
        v.extend_from_slice(&self.infos);
        while v.len() % 32 != 0 {
            v.push(0);
        }
        v.extend_from_slice(&self.data);
        v
    }
}

/// A gemma4 checkpoint of two layers, the second of which sees everything.
fn gemma4() -> Build {
    let mut b = Build::default()
        .text("general.architecture", "gemma4")
        .number("gemma4.block_count", 2)
        .number("gemma4.embedding_length", 256)
        .number("gemma4.attention.head_count", 2)
        .number("gemma4.feed_forward_length", 512)
        .single("gemma4.attention.layer_norm_rms_epsilon", 1e-6)
        .numbers("gemma4.attention.head_count_kv", &[2, 1])
        .flags("gemma4.attention.sliding_window_pattern", &[true, false])
        .number("gemma4.attention.key_length", 256)
        .number("gemma4.attention.key_length_swa", 128)
        .single("gemma4.rope.freq_base", 1_000_000.0)
        .single("gemma4.rope.freq_base_swa", 10_000.0)
        .number("gemma4.attention.sliding_window", 4)
        .single("gemma4.final_logit_softcapping", 30.0)
        .texts("tokenizer.ggml.tokens", &["<pad>", "<eos>", "<bos>", "<turn|>"])
        .tensor("token_embd.weight", &[256, 4], 14, &[0u8; 840])
        .tensor("output_norm.weight", &[256], 0, &[0u8; 1024]);
    for il in 0..2u64 {
        let (head, kv) = if il == 0 { (128, 256) } else { (256, 256) };
        let q = 2 * head;
        let name = |s: &str| format!("blk.{il}.{s}.weight");
        let wide = |n: u64| vec![0u8; (n * 4) as usize];
        let quant = |i: u64, o: u64| vec![0u8; (i / 256 * 144 * o) as usize];
        b = b
            .tensor(&name("attn_norm"), &[256], 0, &wide(256))
            .tensor(&name("attn_q"), &[256, q], 12, &quant(256, q))
            .tensor(&name("attn_k"), &[256, kv], 12, &quant(256, kv));
        if il == 0 {
            b = b.tensor(&name("attn_v"), &[256, kv], 12, &quant(256, kv));
        }
        b = b
            .tensor(&name("attn_q_norm"), &[head], 0, &wide(head))
            .tensor(&name("attn_k_norm"), &[head], 0, &wide(head))
            .tensor(&name("attn_output"), &[q, 256], 12, &quant(q, 256))
            .tensor(&name("post_attention_norm"), &[256], 0, &wide(256))
            .tensor(&name("ffn_norm"), &[256], 0, &wide(256))
            .tensor(&name("ffn_gate"), &[256, 512], 12, &quant(256, 512))
            .tensor(&name("ffn_up"), &[256, 512], 12, &quant(256, 512))
            .tensor(&name("ffn_down"), &[512, 256], 12, &quant(512, 256))
            .tensor(&name("post_ffw_norm"), &[256], 0, &wide(256))
            .tensor(&name("layer_output_scale"), &[1], 0, &1.0f32.to_le_bytes());
    }
    b
}

fn header(file: &[u8]) -> Header {
    Header::parse(file).unwrap_or_else(|e| panic!("{e:?}"))
}
/// A qwen35 checkpoint of four layers, the last of which is full attention.
fn qwen35() -> Build {
    let mut b = Build::default()
        .text("general.architecture", "qwen35")
        .number("qwen35.block_count", 4)
        .number("qwen35.embedding_length", 256)
        .number("qwen35.attention.key_length", 128)
        .number("qwen35.attention.value_length", 128)
        .number("qwen35.ssm.state_size", 64)
        .number("qwen35.ssm.group_count", 2)
        .number("qwen35.ssm.time_step_rank", 4)
        .number("qwen35.ssm.inner_size", 256)
        .number("qwen35.feed_forward_length", 512)
        .single("qwen35.attention.layer_norm_rms_epsilon", 1e-6)
        .number("qwen35.attention.head_count", 2)
        .number("qwen35.attention.head_count_kv", 2)
        .number("qwen35.rope.dimension_count", 32)
        .single("qwen35.rope.freq_base", 10_000_000.0)
        .number("qwen35.ssm.conv_kernel", 4)
        .texts("tokenizer.ggml.tokens", &["a", "<|im_end|>", "<|endoftext|>"])
        .tensor("token_embd.weight", &[256, 3], 14, &[0u8; 630])
        .tensor("output_norm.weight", &[256], 0, &[0u8; 1024]);
    for il in 0..4u64 {
        let name = |s: &str| format!("blk.{il}.{s}");
        let wide = |n: u64| vec![0u8; (n * 4) as usize];
        let quant = |i: u64, o: u64| vec![0u8; (i / 256 * 144 * o) as usize];
        b = b
            .tensor(&name("attn_norm.weight"), &[256], 0, &wide(256))
            .tensor(&name("post_attention_norm.weight"), &[256], 0, &wide(256))
            .tensor(&name("ffn_gate.weight"), &[256, 512], 12, &quant(256, 512))
            .tensor(&name("ffn_up.weight"), &[256, 512], 12, &quant(256, 512))
            .tensor(&name("ffn_down.weight"), &[512, 256], 12, &quant(512, 256));
        if il < 3 {
            b = b
                .tensor(&name("attn_qkv.weight"), &[256, 512], 12, &quant(256, 512))
                .tensor(&name("attn_gate.weight"), &[256, 256], 12, &quant(256, 256))
                .tensor(&name("ssm_alpha.weight"), &[256, 4], 12, &quant(256, 4))
                .tensor(&name("ssm_beta.weight"), &[256, 4], 12, &quant(256, 4))
                .tensor(&name("ssm_conv1d.weight"), &[4, 512], 0, &wide(2048))
                .tensor(&name("ssm_a"), &[4], 0, &wide(4))
                .tensor(&name("ssm_dt.bias"), &[4], 0, &wide(4))
                .tensor(&name("ssm_norm.weight"), &[64], 0, &wide(64))
                .tensor(&name("ssm_out.weight"), &[256, 256], 12, &quant(256, 256));
        } else {
            b = b
                .tensor(&name("attn_q.weight"), &[256, 512], 12, &quant(256, 512))
                .tensor(&name("attn_k.weight"), &[256, 256], 12, &quant(256, 256))
                .tensor(&name("attn_v.weight"), &[256, 256], 12, &quant(256, 256))
                .tensor(&name("attn_q_norm.weight"), &[128], 0, &wide(128))
                .tensor(&name("attn_k_norm.weight"), &[128], 0, &wide(128))
                .tensor(&name("attn_output.weight"), &[256, 256], 12, &quant(256, 256));
        }
    }
    b
}

fn bits(v: &[f32]) -> Vec<u32> {
    v.iter().map(|x| x.to_bits()).collect()
}

#[test]
fn architectures_are_told_apart() {
    let one = |name: &str| {
        let file = Build::default().text("general.architecture", name).finish();
        Arch::detect(&header(&file))
    };
    assert!(matches!(one("gemma4"), Ok(Arch::Gemma4)));
    assert!(matches!(one("qwen35"), Ok(Arch::Qwen35)));
    assert!(matches!(one("qwen3"), Ok(Arch::Qwen35)));
    assert!(matches!(one("llama"), Err(ConfigError::Architecture(n)) if n == "llama"));
    assert!(matches!(Arch::detect(&header(&Build::default().finish())), Err(ConfigError::Gguf(_))));
}

#[test]
fn gemma4_is_described_by_its_file() {
    let file = gemma4().finish();
    let sentinel = 1e30f32.to_bits();
    let c = Config::from_gguf(&header(&file), vec![1.0f32.to_bits(), sentinel]).unwrap();
    assert_eq!((c.n_layers, c.d_model, c.n_heads, c.ffn_dim, c.vocab), (2, 256, 2, 512, 4));
    assert_eq!(c.logit_softcap, Some(FloatBits::Single(30.0f32.to_bits())));
    assert_eq!(c.rope_pairs, 1);
    assert_eq!((c.bos, c.eos, c.context_length), (2, 1, 8192));
    assert_eq!(c.eog, [1, 3]);
    let (a, b) = (&c.layers[0], &c.layers[1]);
    assert!(a.swa && !a.v_from_k && a.window == Some(4) && a.head_dim == 128);
    assert!(!b.swa && b.v_from_k && b.window.is_none() && b.head_dim == 256);
    assert_eq!((a.kv_dim(), b.kv_dim()), (256, 256));
    assert_eq!(c.gqa_group(1), 2);
    // A sliding layer needs its window, a global one the whole context.
    assert_eq!((c.kv_slots(0, 100), c.kv_slots(1, 100), c.kv_slots(0, 3)), (4, 100, 3));
    assert_eq!(c.kv_bytes(100), (4 + 100) * 256 * 4);
}

#[test]
fn a_description_with_a_hole_is_refused() {
    let file = Build::default().text("general.architecture", "qwen35").finish();
    assert!(matches!(
        Config::from_gguf(&header(&file), vec![]),
        Err(ConfigError::Architecture(n)) if n == "qwen35"
    ));
    let file = Build::default().text("general.architecture", "gemma4").finish();
    assert!(matches!(Config::from_gguf(&header(&file), vec![]), Err(ConfigError::Gguf(_))));
    let file = Build::default()
        .text("general.architecture", "gemma4")
        .number("gemma4.block_count", 2)
        .number("gemma4.embedding_length", 256)
        .number("gemma4.attention.head_count", 2)
        .number("gemma4.feed_forward_length", 512)
        .single("gemma4.attention.layer_norm_rms_epsilon", 1e-6)
        .numbers("gemma4.attention.head_count_kv", &[2])
        .flags("gemma4.attention.sliding_window_pattern", &[true, false])
        .finish();
    assert!(matches!(
        Config::from_gguf(&header(&file), vec![]),
        Err(ConfigError::LayerArrays { n_layers: 2, kv_heads: 1, swa_pattern: 2 })
    ));
    let file = Build::default()
        .text("general.architecture", "qwen35")
        .number("qwen35.block_count", 2)
        .number("qwen35.embedding_length", 256)
        .number("qwen35.attention.key_length", 128)
        .number("qwen35.attention.value_length", 64)
        .finish();
    match Qwen::from_gguf(&header(&file)) {
        Err(ConfigError::Mismatch { what, got, want }) => {
            assert_eq!((what, got, want), ("value_length", 64, 128))
        }
        _ => panic!("accepted"),
    }
}

#[test]
fn qwen35_alternates_by_its_interval() {
    let file = qwen35().finish();
    let c = Qwen::from_gguf(&header(&file)).unwrap();
    assert_eq!(c.recurrent, [true, true, true, false]);
    assert_eq!((c.n_rot, c.head_dim, c.conv_dim(), c.q_stride()), (32, 128, 512, 256));
    assert!(c.query_gate);
    assert_eq!(c.eog, [1, 2]);
    assert_eq!(
        c.summary("10000000"),
        "qwen35: 4L (3 gated-delta-net @ 4 v-heads/2 k-heads x64, 1 full-attn @ 2 heads/2 kv, \
         head_dim 128 rope 32/128 base 10000000) d_model 256 ffn 512 vocab 3"
    );
}

#[test]
fn plain_qwen3_is_dense_and_ungated() {
    let file = Build::default()
        .text("general.architecture", "qwen3")
        .number("qwen3.block_count", 3)
        .number("qwen3.nextn_predict_layers", 1)
        .number("qwen3.embedding_length", 256)
        .number("qwen3.attention.key_length", 128)
        .number("qwen3.attention.value_length", 128)
        .number("qwen3.feed_forward_length", 512)
        .single("qwen3.attention.layer_norm_rms_epsilon", 1e-6)
        .number("qwen3.attention.head_count", 4)
        .number("qwen3.attention.head_count_kv", 2)
        .single("qwen3.rope.freq_base", 1e6)
        .tensor("token_embd.weight", &[256, 3], 14, &[0u8; 630])
        .finish();
    let c = Qwen::from_gguf(&header(&file)).unwrap();
    assert_eq!(c.recurrent, [false, false]);
    assert!(!c.query_gate);
    assert_eq!((c.q_stride(), c.gqa_group(), c.n_rot), (128, 2, 128));
    assert_eq!(
        c.summary("1000000"),
        "qwen3: 2L dense @ 4 heads/2 kv, head_dim 128 rope 128/128 base 1000000 d_model 256 \
         ffn 512 vocab 3"
    );
}

#[test]
fn gemma4_is_summed_up_in_words() {
    let file = gemma4().finish();
    let c = Config::from_gguf(&header(&file), vec![]).unwrap();
    assert_eq!(
        c.summary("10000", "1000000", "Some(30.0)"),
        "gemma4: 2L (\n  1 sliding-window @ window Some(4), 2 kv-heads, head_dim 128, rope_base \
         10000\n  1 global,           full attention, 1 kv-heads, head_dim 256, rope_base 1000000, \
         V shares K proj\n) d_model 256 ffn 512 heads 2 vocab 4 rope_dim 256 (rest NoPE) softcap \
         Some(30.0)"
    );
    assert_eq!(c.line(), "gemma4 \u{b7} 2 layers, d_model 256, vocab 4");
}

#[test]
fn weights_are_found_and_measured() {
    let file = gemma4().finish();
    let g = Gguf::from_mmap(&file).unwrap_or_else(|e| panic!("{e:?}"));
    let c = Config::from_gguf(g.header(), vec![]).unwrap();
    let w = Weights::load(&g, &c);
    assert!(w.is_ok(), "{:?}", w.err());
    let file = qwen35().finish();
    let g = Gguf::from_mmap(&file).unwrap_or_else(|e| panic!("{e:?}"));
    let c = Qwen::from_gguf(g.header()).unwrap();
    let w = QwenWeights::load(&g, &c);
    assert!(w.is_ok(), "{:?}", w.err());
}

#[test]
fn a_weight_of_the_wrong_shape_is_named() {
    let file = gemma4().finish();
    let g = Gguf::from_mmap(&file).unwrap_or_else(|e| panic!("{e:?}"));
    let mut c = Config::from_gguf(g.header(), vec![]).unwrap();
    c.ffn_dim = 511;
    match Weights::load(&g, &c) {
        Err(WeightsError::Length { layer: Some(0), what: "ffn_gate.out", got: 512, want: 511 }) => {}
        r => panic!("{:?}", r.err()),
    }
    let mut c = Config::from_gguf(g.header(), vec![]).unwrap();
    c.layers[1].v_from_k = false;
    assert!(matches!(Weights::load(&g, &c), Err(WeightsError::ValueProjection { layer: 1 })));
}

fn ring(window: Option<usize>, slots: usize) -> LayerCache {
    LayerCache {
        k: vec![0; slots],
        v: vec![0; slots],
        slots,
        kv_dim: 1,
        window,
    }
}

#[test]
fn ring_wraps_and_window_slides() {
    let c = ring(Some(4), 4);
    assert_eq!(c.slot(0), 0);
    assert_eq!(c.slot(5), 1);
    // At position 5 with window 4 we see 2..=5 - exactly 4 positions.
    let (a, b) = c.visible(5);
    assert_eq!(a..=b, 2..=5);
    assert_eq!((a..=b).count(), 4);
}

#[test]
fn window_clamps_at_sequence_start() {
    let c = ring(Some(4), 4);
    let (a, b) = c.visible(1);
    assert_eq!(a..=b, 0..=1);
}

#[test]
fn global_layer_sees_everything() {
    let c = ring(None, 16);
    let (a, b) = c.visible(9);
    assert_eq!(a..=b, 0..=9);
    assert_eq!(c.slot(9), 9);
}

#[test]
fn windowed_positions_never_collide_within_view() {
    // Any two distinct positions visible at once must map to distinct slots,
    // otherwise the ring would overwrite live entries.
    let c = ring(Some(4), 4);
    let pos = 11;
    let (a, b) = c.visible(pos);
    let slots: Vec<_> = (a..=b).map(|p| c.slot(p)).collect();
    let mut uniq = slots.clone();
    uniq.sort_unstable();
    uniq.dedup();
    assert_eq!(slots.len(), uniq.len(), "slot collision in {slots:?}");
}

#[test]
fn stored_rows_are_read_and_wiped() {
    let file = gemma4().finish();
    let c = Config::from_gguf(&header(&file), vec![]).unwrap();
    let mut kv = KvCache::new(&c, 8);
    let (k, v) = (vec![7u32; 256], vec![9u32; 256]);
    kv.store(0, 5, &k, &v);
    kv.store(1, 5, &v, &k);
    assert_eq!(kv.layer(0).k_at(5), &k[..]);
    assert_eq!(kv.layer(0).v_at(5), &v[..]);
    // The sliding layer's ring has four slots: position 1 shares one with 5.
    assert_eq!(kv.layer(0).k_at(1), &k[..]);
    assert_eq!(kv.layer(1).k_at(5), &v[..]);
    assert_eq!(kv.layer(1).k_at(1), &vec![0u32; 256][..]);
    assert_eq!(kv.bytes(), (4 + 8) * 256 * 2 * 4);
    kv.wipe();
    assert!(kv.layers.iter().all(|l| l.k.iter().chain(&l.v).all(|w| *w == 0)));
    assert_eq!(kv.len, 0);
}

#[test]
fn truncation_only_shortens() {
    let file = gemma4().finish();
    let c = Config::from_gguf(&header(&file), vec![]).unwrap();
    let mut kv = KvCache::new(&c, 8);
    kv.len = 5;
    kv.truncate(9);
    assert_eq!(kv.len, 5);
    kv.truncate(2);
    assert_eq!(kv.len, 2);
    kv.clear();
    assert_eq!(kv.len, 0);
}

#[test]
fn the_window_slides_and_key_heads_tile() {
    let mut w = vec![1, 2, 3, 4, 5, 6];
    slide(&mut w, &[7, 8]);
    assert_eq!(w, [3, 4, 5, 6, 7, 8]);
    slide(&mut w, &[9, 10]);
    slide(&mut w, &[11, 12]);
    assert_eq!(w, [7, 8, 9, 10, 11, 12]);
    slide(&mut w, &[1, 2, 3, 4, 5, 6]);
    assert_eq!(w, [1, 2, 3, 4, 5, 6]);
    slide(&mut w, &[]);
    assert_eq!(w, [1, 2, 3, 4, 5, 6]);

    let file = qwen35().finish();
    let c = Qwen::from_gguf(&header(&file)).unwrap();
    let starts: Vec<usize> = (0..c.n_v_heads).map(|hv| c.key_start(hv)).collect();
    assert_eq!(starts, [0, 64, 0, 64]);
}

#[test]
fn recurrent_state_is_cleared_and_erased() {
    let file = qwen35().finish();
    let c = Qwen::from_gguf(&header(&file)).unwrap();
    let mut s = State::new(&c, 8);
    assert_eq!(s.layers.len(), 4);
    match (&mut s.layers[0], 1u32) {
        (LayerState::Linear { conv, s }, one) => {
            assert_eq!((conv.len(), s.len()), (3 * 512, 4 * 64 * 64));
            conv[0] = one;
            s[5] = one;
        }
        _ => panic!("layer 0 is recurrent"),
    }
    let rows = match &s.layers[3] {
        LayerState::Attn(a) => a.k.len() + a.v.len(),
        _ => panic!("layer 3 attends"),
    };
    assert_eq!(rows, 8 * 256 * 2);
    assert_eq!(s.bytes(), (3 * (3 * 512 + 4 * 64 * 64) + rows) * 4);
    s.len = 3;
    s.clear();
    assert_eq!(s.len, 0);
    match &s.layers[0] {
        LayerState::Linear { conv, s } => assert!(conv.iter().chain(s).all(|w| *w == 0)),
        _ => panic!("layer 0 is recurrent"),
    }
    s.wipe();
}

/// Settles a choice: the nucleus of the softmax, then the dice.
fn settle(s: &mut Sampler, l: &[f32]) -> u32 {
    let (temperature, top_p) = match (s.config().temperature, s.config().top_p) {
        (FloatBits::Single(t), FloatBits::Single(p)) => (f32::from_bits(t), f32::from_bits(p)),
        other => panic!("{other:?}"),
    };
    let (candidates, dice) = match s.sample(&bits(l)) {
        Choice::Take(id) => return id,
        Choice::Draw { candidates, dice } => (candidates, dice),
    };
    let max = f32::from_bits(candidates[0].logit);
    let mass: Vec<f32> = candidates
        .iter()
        .map(|c| ((f32::from_bits(c.logit) - max) / temperature).exp())
        .collect();
    let target = top_p * mass.iter().sum::<f32>();
    let mut cutoff = 0;
    let mut kept = 0.0;
    while cutoff < mass.len() && (cutoff == 0 || kept < target) {
        kept += mass[cutoff];
        cutoff += 1;
    }
    let mut r = dice as f32 / (1u32 << 24) as f32 * kept;
    for i in 0..cutoff {
        r -= mass[i];
        if r <= 0.0 {
            return candidates[i].id;
        }
    }
    candidates[cutoff - 1].id
}

fn single(v: f32) -> FloatBits {
    FloatBits::Single(v.to_bits())
}

#[test]
fn greedy_picks_the_max() {
    let mut s = Sampler::new(Sampling { temperature: single(0.0), ..Default::default() });
    assert!(s.config().is_greedy());
    let l = [0.1, 5.0, 2.0];
    assert_eq!(settle(&mut s, &l), 1);
    assert!(matches!(s.sample(&bits(&l)), Choice::Take(1)));
    assert!(matches!(s.sample(&[]), Choice::Take(0)));
}

#[test]
fn doubles_that_round_to_zero_are_zero() {
    let tie = 2f64.powi(-150);
    let up = f64::from_bits(tie.to_bits() + 1);
    let all = [0.0, -0.0, tie, up, f64::MIN_POSITIVE, -tie, 1.0, -1.0, f64::INFINITY, f64::NAN];
    for v in all {
        let f = FloatBits::Double(v.to_bits());
        let s = Sampling { temperature: f, ..Default::default() };
        assert_eq!(s.is_greedy(), v as f32 <= 0.0, "{v:e}");
        assert_eq!(f.is_positive(), v as f32 > 0.0, "{v:e}");
        let f = single(v as f32);
        let s = Sampling { temperature: f, ..Default::default() };
        assert_eq!(s.is_greedy(), v as f32 <= 0.0, "{v:e}");
        assert_eq!(f.is_positive(), v as f32 > 0.0, "{v:e}");
    }
    assert!(tie > 0.0 && tie as f32 == 0.0 && up as f32 > 0.0);
}

#[test]
fn top_k_one_is_deterministic() {
    let mut s = Sampler::new(Sampling {
        temperature: single(1.0),
        top_k: 1,
        top_p: single(1.0),
        ..Default::default()
    });
    for _ in 0..10 {
        assert_eq!(settle(&mut s, &[0.1, 5.0, 2.0]), 1);
    }
}

#[test]
fn never_returns_a_suppressed_token() {
    // -inf logits must be unreachable regardless of temperature.
    let mut s = Sampler::new(Sampling { temperature: single(2.0), ..Default::default() });
    for _ in 0..50 {
        assert_eq!(settle(&mut s, &[f32::NEG_INFINITY, 1.0, f32::NEG_INFINITY]), 1);
    }
}

#[test]
fn nothing_to_draw_from_takes_the_max() {
    let mut s = Sampler::new(Sampling { temperature: single(2.0), ..Default::default() });
    let l = bits(&[f32::NEG_INFINITY, f32::NEG_INFINITY]);
    assert!(matches!(s.sample(&l), Choice::Take(1)));
}

#[test]
fn each_draw_rolls_new_dice() {
    let mut s = Sampler::new(Sampling { seed: 7, ..Default::default() });
    let mut r = Rng::new(7);
    for _ in 0..3 {
        let want = r.next_bits();
        match s.sample(&bits(&[1.0, 3.0, 2.0])) {
            Choice::Draw { candidates, dice } => {
                assert_eq!(dice, want);
                let ids: Vec<u32> = candidates.iter().map(|c| c.id).collect();
                assert_eq!(ids, [1, 2, 0]);
            }
            Choice::Take(id) => panic!("took {id}"),
        }
    }
}

#[test]
fn sampling_stays_in_the_top_k_set() {
    let mut s = Sampler::new(Sampling {
        temperature: single(5.0),
        top_k: 2,
        top_p: single(1.0),
        ..Default::default()
    });
    for _ in 0..200 {
        assert!(settle(&mut s, &[10.0, 9.0, 1.0, 0.5]) < 2);
    }
    let c = top_candidates(&bits(&[10.0, 9.0, 1.0, 0.5]), 2);
    assert_eq!(c.len(), 2);
}

#[test]
fn repeat_penalty_demotes_recent_tokens() {
    let mut s = Sampler::new(Sampling {
        temperature: single(0.0),
        repeat_penalty: single(10.0),
        ..Default::default()
    });
    let mut l = vec![1.0f32, 1.2, 0.9];
    // Without the penalty token 1 wins; penalizing it hands over to 0.
    assert_eq!(settle(&mut s, &l), 1);
    for id in penalized(&[1], s.config().repeat_window, l.len()) {
        l[id as usize] /= 10.0;
    }
    assert_eq!(settle(&mut s, &l), 0);
    // A token is penalized once for each time it stands in the window.
    assert_eq!(penalized(&[9, 0, 1, 0], 2, 3), [1, 0]);
}

#[test]
fn rng_is_uniform_enough_and_in_range() {
    let mut r = Rng::new(42);
    let mut sum = 0.0;
    for _ in 0..10_000 {
        let v = r.next_bits() as f32 / (1u32 << 24) as f32;
        assert!((0.0..1.0).contains(&v), "out of range: {v}");
        sum += v;
    }
    let mean = sum / 10_000.0;
    assert!((mean - 0.5).abs() < 0.02, "mean {mean}");
}

#[test]
fn the_generator_never_sticks_at_zero() {
    for seed in [0u64, 1, u64::MAX] {
        let mut r = Rng::new(seed);
        for _ in 0..100 {
            r.next_bits();
            assert_ne!(r.state, 0);
        }
    }
}

#[test]
fn sampling_comes_from_the_checkpoint() {
    let file = Build::default()
        .single("general.sampling.temp", 0.5)
        .number("general.sampling.top_k", 20)
        .single("general.sampling.top_p", 0.8)
        .finish();
    let s = Sampling::from_gguf(&header(&file));
    assert_eq!(s.temperature, FloatBits::Single(0.5f32.to_bits()));
    assert_eq!(s.top_k, 20);
    assert_eq!(s.top_p, FloatBits::Single(0.8f32.to_bits()));
    let d = Sampling::default();
    assert_eq!((d.top_k, d.repeat_window, d.seed), (64, 64, 0));
    assert_eq!(d.top_p, FloatBits::Single(0.95f32.to_bits()));
}

#[test]
fn ties_go_to_the_last_and_order_is_total() {
    assert_eq!(argmax(&bits(&[1.0, 1.0])), 1);
    assert_eq!(argmax(&bits(&[-1.0, -2.0])), 0);
    assert_eq!(argmax(&[]), 0);
}

fn gemma4_config(file: &[u8]) -> Config {
    Config::from_gguf(&header(file), Vec::new()).unwrap_or_else(|e| panic!("{e:?}"))
}

/// The end of the last row.
fn end(r: Rows) -> usize {
    if r.n == 0 {
        0
    } else {
        r.first + (r.n - 1) * r.stride + r.width
    }
}

fn touched(s: &Step) -> Vec<Rows> {
    match *s {
        Step::Embed(r) | Step::ScaleEmbedding(r) | Step::SoftCap(r) => vec![r],
        Step::Copy { from, to } | Step::Add { to, from } | Step::AddScaled { to, from, .. } => {
            vec![from, to]
        }
        Step::Norm { rows, .. } | Step::Rotate { rows, .. } | Step::Mark { rows, .. } => vec![rows],
        Step::Project { x, y, .. } => vec![x, y],
        Step::Store { k, v, .. } => vec![k, v],
        Step::Attend { q, out, .. } => vec![q, out],
        Step::Open { rows, by } => vec![rows, by],
        Step::Geglu { gate, up } | Step::Swiglu { gate, up } => vec![gate, up],
        Step::Recur { mixed, alpha, beta, out, .. } => vec![mixed, alpha, beta, out],
        Step::GatedNorm { heads, z, .. } => vec![heads, z],
        Step::Suppress(_) => vec![],
    }
}

#[test]
fn gemma4_passes_run_in_order() {
    let file = gemma4().finish();
    let cfg = gemma4_config(&file);
    assert!(cpu::can_run(&cfg, 3));
    let v = Cpu::new(&cfg, 3).forward_traced(2, 5, 16).unwrap_or_else(|e| panic!("{e:?}"));
    let h = Rows { buf: Scratch::H, first: 0, n: 2, width: 256, stride: 256 };
    assert_eq!(v[0], Step::Embed(h));
    assert_eq!(v[2], Step::ScaleEmbedding(h));
    // The global layer has no V projection of its own: V is the same projection as K.
    let values = v.iter().filter(|s| matches!(s, Step::Project { matrix: Matrix::Value(_), .. }));
    assert_eq!(values.count(), 1);
    let names: Vec<String> = v
        .iter()
        .filter_map(|s| match s {
            Step::Mark { label, .. } => Some(label.text()),
            _ => None,
        })
        .collect();
    assert_eq!(&names[..3], ["embd", "inp_scaled", "attn_norm-0"]);
    assert_eq!(names.last().map(String::as_str), Some("result_output"));
    // Each token stores its position and reads before the next one stores.
    let places: Vec<(bool, usize, usize)> = v
        .iter()
        .filter_map(|s| match *s {
            Step::Store { layer: 0, pos, .. } => Some((true, pos, pos)),
            Step::Attend { layer: 0, from, pos, .. } => Some((false, from, pos)),
            _ => None,
        })
        .collect();
    assert_eq!(places, [(true, 5, 5), (false, 2, 5), (true, 6, 6), (false, 3, 6)]);
    // The global layer sees everything from the start.
    let wide = v.iter().any(|s| matches!(s, Step::Attend { layer: 1, from: 0, pos: 6, .. }));
    assert!(wide);
    // Only the last token reaches the logits.
    let out = v.iter().find_map(|s| match *s {
        Step::Project { matrix: Matrix::Output, x, y } => Some((x, y)),
        _ => None,
    });
    let (x, y) = out.unwrap_or_else(|| panic!("no output projection"));
    assert_eq!((x.first, x.n, x.width), (256, 1, 256));
    assert_eq!((y.buf, y.width), (Scratch::Logits, 4));
    assert!(v.contains(&Step::SoftCap(y)));
    assert!(v.iter().any(|s| matches!(s, Step::Norm { gain: Some(Gain::OutputNorm), .. })));
}

#[test]
fn a_batch_reads_what_its_tokens_read_one_by_one() {
    let file = gemma4().finish();
    let cfg = gemma4_config(&file);
    // What stands in the rows that a pass over `t` tokens sees, the positions before
    // `base` being kept.
    let seen = |base: usize, t: usize, cache: &mut Vec<Vec<usize>>| {
        let rows = KvCache::new(&cfg, 16);
        let mut out = Vec::new();
        for s in Cpu::new(&cfg, 3).forward_traced(t, base, 16).unwrap_or_else(|e| panic!("{e:?}")) {
            match s {
                Step::Store { layer, pos, .. } => cache[layer][rows.layer(layer).slot(pos)] = pos,
                Step::Attend { layer, from, pos, .. } => {
                    let row = |p: usize| cache[layer][rows.layer(layer).slot(p)];
                    out.push((layer, pos, (from..=pos).map(row).collect::<Vec<_>>()));
                }
                _ => {}
            }
        }
        out
    };
    let mut fresh = || vec![vec![usize::MAX; 16]; cfg.n_layers];
    let (mut one, mut many) = (fresh(), fresh());
    for p in 0..8 {
        seen(p, 1, &mut one);
        seen(p, 1, &mut many);
    }
    let mut single = seen(8, 1, &mut one);
    single.extend(seen(9, 1, &mut one));
    single.sort();
    let mut batch = seen(8, 2, &mut many);
    batch.sort();
    assert_eq!(batch, single);
    // The windowed layer still finds position 5 when token 8 looks.
    assert!(batch.contains(&(0, 8, vec![5, 6, 7, 8])));
    assert_eq!(one, many);
}

#[test]
fn passes_stay_in_their_buffers() {
    let file = gemma4().finish();
    let cfg = gemma4_config(&file);
    assert_eq!(cpu::buffer_size(&cfg, 3, Scratch::Q), 3 * 2 * 256);
    assert_eq!(cpu::buffer_size(&cfg, 3, Scratch::K), 3 * 256);
    assert_eq!(cpu::buffer_size(&cfg, 3, Scratch::Logits), 4);
    for t in 1..=3 {
        let v = Cpu::new(&cfg, 3).forward_traced(t, 0, 8).unwrap_or_else(|e| panic!("{e:?}"));
        for r in v.iter().flat_map(touched) {
            assert!(end(r) <= cpu::buffer_size(&cfg, 3, r.buf), "{r:?}");
        }
    }
    let file = qwen35().finish();
    let cfg = Qwen::from_gguf(&header(&file)).unwrap_or_else(|e| panic!("{e:?}"));
    assert!(qcpu::can_run(&cfg, 3));
    for t in 1..=3 {
        let v = QwenCpu::new(&cfg, 3).forward_traced(t, 0, 8).unwrap_or_else(|e| panic!("{e:?}"));
        for r in v.iter().flat_map(touched) {
            assert!(end(r) <= qcpu::buffer_size(&cfg, 3, r.buf), "{r:?}");
        }
    }
}

#[test]
fn a_pass_that_cannot_run_says_why() {
    let file = gemma4().finish();
    let cfg = gemma4_config(&file);
    let c = Cpu::new(&cfg, 3);
    assert_eq!(c.forward_traced(0, 0, 8), Err(PassError::NoTokens));
    assert_eq!(c.forward_traced(4, 0, 8), Err(PassError::Batch { tokens: 4, max: 3 }));
    let full = PassError::Overflow { at: 7, tokens: 2, capacity: 8 };
    assert_eq!(c.forward_traced(2, 7, 8), Err(full));
    assert!(c.forward_traced(1, 7, 8).is_ok());
    assert!(!cpu::can_run(&cfg, usize::MAX));
}

#[test]
fn qwen35_passes_mix_recurrence_and_attention() {
    let file = qwen35().finish();
    let cfg = Qwen::from_gguf(&header(&file)).unwrap_or_else(|e| panic!("{e:?}"));
    let v = QwenCpu::new(&cfg, 2).forward_traced(2, 3, 8).unwrap_or_else(|e| panic!("{e:?}"));
    let recurrent: Vec<usize> = v
        .iter()
        .filter_map(|s| match s {
            Step::Recur { layer, .. } => Some(*layer),
            _ => None,
        })
        .collect();
    assert_eq!(recurrent, [0, 1, 2]);
    let seen: Vec<(usize, usize, usize)> = v
        .iter()
        .filter_map(|s| match *s {
            Step::Attend { layer, from, pos, .. } => Some((layer, from, pos)),
            _ => None,
        })
        .collect();
    assert_eq!(seen, [(3, 0, 3), (3, 0, 4)]);
    // Half of each fused head is the query, the other half opens the output.
    let open = v.iter().any(|s| matches!(s, Step::Open { .. }));
    assert!(open);
    assert_eq!(v.iter().filter(|s| matches!(s, Step::Swiglu { .. })).count(), 4);
    assert_eq!(Label::QkvMixed(2).text(), "linear_attn_qkv_mixed-2");
    assert_eq!(Label::AttnResidual(0).text(), "attn_residual-0");
}

#[test]
fn a_layer_is_written_through_its_owner() {
    let file = gemma4().finish();
    let cfg = gemma4_config(&file);
    let mut cache = KvCache::new(&cfg, 8);
    cache.layer_mut(1).store(2, &[7; 256], &[8; 256]);
    assert_eq!(cache.layer(1).k_at(2), &[7; 256][..]);
    assert_eq!(cache.layer(1).v_at(2), &[8; 256][..]);
    assert_eq!(cache.layer(0).k_at(2), &[0; 256][..]);
}

#[test]
fn a_file_answers_for_its_header() {
    let file = gemma4().finish();
    let g = Gguf::from_mmap(&file).unwrap_or_else(|e| panic!("{e:?}"));
    assert_eq!(g.usize("gemma4.block_count").ok(), Some(2));
    assert_eq!(g.u64("gemma4.embedding_length").ok(), Some(256));
    assert_eq!(g.str("general.architecture").ok(), Some("gemma4"));
    assert_eq!(g.float("gemma4.rope.freq_base").ok(), Some(single(1_000_000.0)));
    assert_eq!(g.u32_array("gemma4.attention.head_count_kv").ok(), Some(vec![2, 1]));
    let pattern = g.bool_array("gemma4.attention.sliding_window_pattern").ok();
    assert_eq!(pattern, Some(vec![true, false]));
    assert_eq!(g.string_array("tokenizer.ggml.tokens").map(|v| v.len()).ok(), Some(4));
    assert!(g.array("gemma4.attention.head_count_kv").is_ok());
    assert!(g.f32_array("general.architecture").is_err());
    assert!(g.get("nothing").is_none());
    assert!(g.has_tensor("output_norm.weight") && !g.has_tensor("output.weight"));
    let scale = g.tensor("blk.0.layer_output_scale.weight").unwrap_or_else(|e| panic!("{e:?}"));
    assert_eq!(scale.as_f32(), Some(vec![1.0f32.to_bits()]));
    let q = g.tensor("blk.0.attn_q.weight").unwrap_or_else(|e| panic!("{e:?}"));
    assert_eq!(q.as_f32(), None);
}

#[test]
fn what_cannot_be_counted_is_not_built() {
    let file = gemma4().finish();
    let mut c = gemma4_config(&file);
    assert!(can_load(&c) && cache::can_hold(&c, 16) && cache::can_hold(&c, 0));
    assert!(forward::can_size(&c, 16, 3));
    // Only the global layer holds the whole context.
    assert!(!cache::can_hold(&c, usize::MAX / 128) && !forward::can_size(&c, usize::MAX / 512, 3));
    assert!(!forward::can_size(&c, 16, usize::MAX / 512));
    c.layers[1].kv_source = 2;
    assert!(!cache::can_hold(&c, 16));
    c.layers[1].kv_source = 1;
    c.layers[0].window = Some(0);
    assert!(!cache::can_hold(&c, 16));
    c.layers[0].window = None;
    c.layers[0].head_dim = usize::MAX;
    assert!(!can_load(&c) && !cache::can_hold(&c, 1) && !forward::can_size(&c, 1, 1));
    c.layers.pop();
    assert!(!can_load(&c) && !cache::can_hold(&c, 1) && !forward::can_size(&c, 1, 1));

    let file = qwen35().finish();
    let mut c = Qwen::from_gguf(&header(&file)).unwrap_or_else(|e| panic!("{e:?}"));
    assert!(qweights::can_load(&c) && state::can_hold(&c, 16) && linear::can_size(&c, 16, 3));
    assert!(!state::can_hold(&c, usize::MAX / 128) && !linear::can_size(&c, usize::MAX / 512, 3));
    c.conv_kernel = 0;
    assert!(!state::can_hold(&c, 16) && qweights::can_load(&c));
    c.recurrent = vec![false; 4];
    assert!(state::can_hold(&c, 16));
    c.conv_kernel = usize::MAX;
    assert!(state::can_hold(&c, 16) && !qweights::can_load(&c) && !linear::can_size(&c, 16, 3));
    c.conv_kernel = 4;
    c.recurrent.pop();
    assert!(!state::can_hold(&c, 16) && !qweights::can_load(&c) && !linear::can_size(&c, 16, 3));
}

/// An arithmetic of whole numbers: every number of a row's result depends on every
/// number that the row is made of.
fn stir(what: &str, from: &[&[u32]], width: usize) -> Vec<u32> {
    let mut h: u32 = 0x811c_9dc5;
    let mut eat = |x: u32| h = (h ^ x).wrapping_mul(0x0100_0193).rotate_left(5);
    what.bytes().for_each(|b| eat(b as u32));
    for r in from {
        eat(r.len() as u32);
        r.iter().for_each(|x| eat(*x));
    }
    (0..width as u32).map(|j| (h ^ j).wrapping_mul(0x9e37_79b1).rotate_left(j % 31)).collect()
}

struct Machine {
    buffers: Vec<(Scratch, Vec<u32>)>,
    kept: Vec<Vec<(Vec<u32>, Vec<u32>)>>,
    state: Vec<Vec<u32>>,
}

impl Machine {
    fn new(layers: usize, size: impl Fn(Scratch) -> usize) -> Machine {
        let all = [
            Scratch::H,
            Scratch::X,
            Scratch::Q,
            Scratch::K,
            Scratch::V,
            Scratch::Attn,
            Scratch::Proj,
            Scratch::Gate,
            Scratch::Up,
            Scratch::Z,
            Scratch::Alpha,
            Scratch::Beta,
            Scratch::Logits,
        ];
        let buffers = all.iter().map(|b| (*b, vec![7; size(*b)])).collect();
        Machine { buffers, kept: vec![vec![]; layers], state: vec![vec![0]; layers] }
    }

    fn of(&mut self, b: Scratch) -> &mut Vec<u32> {
        &mut self.buffers.iter_mut().find(|(x, _)| *x == b).unwrap().1
    }

    fn get(&mut self, r: &Rows, i: usize) -> Vec<u32> {
        let at = r.first + i * r.stride;
        self.of(r.buf)[at..at + r.width].to_vec()
    }

    fn put(&mut self, r: &Rows, i: usize, row: Vec<u32>) {
        let at = r.first + i * r.stride;
        self.of(r.buf)[at..at + r.width].copy_from_slice(&row);
    }

    fn one(&mut self, what: impl Fn(usize) -> String, x: &Rows, y: &Rows) {
        for i in 0..y.n {
            let row = self.get(x, i);
            self.put(y, i, stir(&what(i), &[&row], y.width));
        }
    }

    fn two(&mut self, what: &str, x: &Rows, y: &Rows) {
        for i in 0..x.n {
            let (a, b) = (self.get(x, i), self.get(y, i));
            self.put(x, i, stir(what, &[&a, &b], x.width));
        }
    }

    fn run(&mut self, ids: &[u32], steps: Vec<Step>) -> Vec<u32> {
        for s in steps {
            match s {
                Step::Embed(r) => {
                    for (i, id) in ids.iter().enumerate() {
                        self.put(&r, i, stir("embed", &[&[*id]], r.width));
                    }
                }
                Step::ScaleEmbedding(r) => self.one(|_| "scale".into(), &r, &r),
                Step::Copy { from, to } => {
                    for i in 0..to.n {
                        let row = self.get(&from, i);
                        self.put(&to, i, row);
                    }
                }
                Step::Norm { rows, gain } => self.one(|_| format!("{gain:?}"), &rows, &rows),
                Step::Project { matrix, x, y } => self.one(|_| format!("{matrix:?}"), &x, &y),
                Step::Rotate { rows, per_token, base_pos, layer, .. } => {
                    self.one(|i| format!("{layer} {}", base_pos + i / per_token), &rows, &rows)
                }
                Step::Store { layer, pos, k, v } => {
                    let row = (self.get(&k, 0), self.get(&v, 0));
                    assert_eq!(pos, self.kept[layer].len());
                    self.kept[layer].push(row);
                }
                Step::Attend { layer, q, out, group, from, pos } => {
                    for h in 0..q.n {
                        let row = self.get(&q, h);
                        let mut rows: Vec<&[u32]> = vec![&row];
                        for (k, v) in &self.kept[layer][from..=pos] {
                            rows.extend([k.as_slice(), v]);
                        }
                        let o = stir(&format!("attend {}", h / group), &rows, out.width);
                        self.put(&out, h, o);
                    }
                }
                Step::Open { rows, by } => self.two("open", &rows, &by),
                Step::Add { to, from } => self.two("sum", &to, &from),
                Step::AddScaled { to, from, layer } => self.two(&format!("{layer}"), &to, &from),
                Step::Geglu { gate, up } => self.two("geglu", &gate, &up),
                Step::Swiglu { gate, up } => self.two("swiglu", &gate, &up),
                Step::Recur { layer, mixed, alpha, beta, out } => {
                    for i in 0..out.n {
                        let m = [self.get(&mixed, i), self.get(&alpha, i), self.get(&beta, i)];
                        let s = stir("absorb", &[&self.state[layer], &m[0], &m[1], &m[2]], 8);
                        self.put(&out, i, stir("emit", &[&s, &m[0]], out.width));
                        self.state[layer] = s;
                    }
                }
                Step::GatedNorm { layer, heads, z } => {
                    let z = Rows { n: heads.n, width: heads.width, stride: heads.stride, ..z };
                    self.two(&format!("gated {layer}"), &heads, &z)
                }
                Step::SoftCap(r) => self.one(|_| "cap".into(), &r, &r),
                Step::Suppress(id) => self.of(Scratch::Logits)[id as usize] = u32::MAX,
                Step::Mark { .. } => {}
            }
        }
        self.of(Scratch::Logits).clone()
    }
}

#[test]
fn splitting_a_batch_changes_nothing() {
    let ids: Vec<u32> = vec![2, 0, 1, 1, 2, 0, 2];
    // Each way to cut the tokens, by how many come at a time.
    let cuts: [&[usize]; 5] = [&[7], &[1, 6], &[3, 4], &[2, 3, 2], &[1, 1, 1, 1, 1, 1, 1]];

    let file = gemma4().numbers("tokenizer.ggml.suppress_tokens", &[3]).finish();
    let cfg = gemma4_config(&file);
    let mut seen = Vec::new();
    for cut in cuts {
        let mut m = Machine::new(cfg.n_layers, |b| cpu::buffer_size(&cfg, 7, b));
        let (mut at, mut logits) = (0, vec![]);
        for n in cut {
            let v = Cpu::new(&cfg, 7).forward_traced(*n, at, 16).unwrap_or_else(|e| panic!("{e:?}"));
            logits = m.run(&ids[at..at + n], v);
            at += n;
        }
        assert_eq!(logits.len(), cfg.vocab);
        assert!(cfg.suppress_tokens.iter().all(|s| logits[*s as usize] == u32::MAX));
        seen.push((logits, m.kept));
    }
    assert!(seen.iter().all(|s| *s == seen[0]));

    let file = qwen35().finish();
    let cfg = Qwen::from_gguf(&header(&file)).unwrap_or_else(|e| panic!("{e:?}"));
    let mut seen = Vec::new();
    for cut in cuts {
        let mut m = Machine::new(cfg.n_layers, |b| qcpu::buffer_size(&cfg, 7, b));
        let (mut at, mut logits) = (0, vec![]);
        for n in cut {
            let v =
                QwenCpu::new(&cfg, 7).forward_traced(*n, at, 16).unwrap_or_else(|e| panic!("{e:?}"));
            logits = m.run(&ids[at..at + n], v);
            at += n;
        }
        seen.push((logits, m.kept, m.state));
    }
    assert!(seen.iter().all(|s| *s == seen[0]));
    assert!(seen[0].2[..3].iter().all(|s| s.len() == 8) && seen[0].1[3].len() == 7);
}
