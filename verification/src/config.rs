//! Gemma4 architecture description, derived from GGUF metadata.
//!
//! Everything here is read out of the model file rather than hard-coded, so a
//! differently-shaped gemma4 checkpoint should load without edits.

use crate::checks::{
    first_error, lemma_first_error, lemma_no_error, no_error_exactly_when, unless,
};
use crate::gguf::{Error, ErrorView, FloatBits};
use crate::gpu::arena::tensor_named;
use crate::header::{
    meta_bools, meta_float, meta_str, meta_strings, meta_u32s, meta_u64, Header, HeaderView,
};
use crate::text;
use vstd::prelude::*;

verus! {

/// Frequency factors at or above this value (`1e20`, as bits) are the
/// converter's "do not rotate this dimension" sentinel.
pub const NO_ROPE_SENTINEL: u32 = 0x60AD_78EC;

/// Positive infinity, as bits.
pub const INFINITY: u32 = 0x7F80_0000;

#[derive(Debug, Clone, Copy, PartialEq, Eq, Structural)]
pub struct LayerConfig {
    /// Sliding-window attention layer. Global (full-attention) layers are the
    /// every-6th exception.
    pub swa: bool,
    pub n_kv_heads: usize,
    pub head_dim: usize,
    pub rope_base: FloatBits,
    /// `Some(w)` limits attention to the last `w` positions inclusive of self.
    pub window: Option<usize>,
    /// Whether this layer divides its RoPE angles by [`Config::rope_factors`].
    /// Only global layers do.
    pub rope_factors: bool,
    /// Global layers ship no `attn_v` tensor: V is projected with `attn_k` and
    /// then normalized differently.
    pub v_from_k: bool,
    /// The layer whose cache this one reads: itself, or an earlier one.
    pub kv_source: usize,
}

impl LayerConfig {
    pub open spec fn kv_width(self) -> int {
        self.n_kv_heads * self.head_dim
    }

    pub fn kv_dim(&self) -> (r: usize)
        requires
            self.kv_width() <= usize::MAX,
        ensures
            r == self.kv_width(),
    {
        self.n_kv_heads * self.head_dim
    }

    /// Whether layer `il`, described by this, writes a cache of its own.
    pub fn owns_kv(&self, il: usize) -> (r: bool)
        ensures
            r == (self.kv_source == il),
    {
        self.kv_source == il
    }
}

#[derive(Debug)]
pub struct Config {
    pub n_layers: usize,
    pub d_model: usize,
    pub n_heads: usize,
    pub ffn_dim: usize,
    pub vocab: usize,
    /// Width of the per-layer embeddings; 0 on checkpoints without them.
    pub n_embd_per_layer: usize,
    pub rms_eps: FloatBits,
    /// Logits are squashed as `cap * tanh(x / cap)`.
    pub logit_softcap: Option<FloatBits>,
    /// Per-rotary-pair frequency divisors, as bits. Entries at the sentinel make
    /// that pair's angle zero.
    pub rope_factors: Vec<u32>,
    /// How many leading pairs actually rotate; for reporting only.
    pub rope_pairs: usize,
    pub context_length: usize,
    pub layers: Vec<LayerConfig>,
    /// Token ids the model must never emit (image/audio sentinels).
    pub suppress_tokens: Vec<u32>,
    pub bos: u32,
    pub eos: u32,
    /// Tokens that end a generation.
    pub eog: Vec<u32>,
}

#[derive(Debug)]
pub enum ConfigError {
    Gguf(Error),
    /// Unsupported architecture.
    Architecture(String),
    /// The per-layer arrays disagree with the layer count.
    LayerArrays { n_layers: usize, kv_heads: usize, swa_pattern: usize },
    /// Two values that should agree do not.
    Mismatch { what: &'static str, got: usize, want: usize },
}

#[verifier::ext_equal]
pub ghost enum ConfigErrorView {
    Gguf(ErrorView),
    Architecture(Seq<char>),
    LayerArrays { n_layers: usize, kv_heads: int, swa_pattern: int },
    Mismatch { what: Seq<char>, got: int, want: int },
}

impl View for ConfigError {
    type V = ConfigErrorView;

    open spec fn view(&self) -> ConfigErrorView {
        match self {
            ConfigError::Gguf(e) => ConfigErrorView::Gguf(e@),
            ConfigError::Architecture(a) => ConfigErrorView::Architecture(a@),
            ConfigError::LayerArrays { n_layers, kv_heads, swa_pattern } => {
                ConfigErrorView::LayerArrays {
                    n_layers: *n_layers,
                    kv_heads: *kv_heads as int,
                    swa_pattern: *swa_pattern as int,
                }
            },
            ConfigError::Mismatch { what, got, want } => ConfigErrorView::Mismatch {
                what: what@,
                got: *got as int,
                want: *want as int,
            },
        }
    }
}

/// A lookup's error, as a configuration error.
pub open spec fn lifted<T>(r: Result<T, ErrorView>) -> Option<ConfigErrorView> {
    match r {
        Ok(_) => None,
        Err(e) => Some(ConfigErrorView::Gguf(e)),
    }
}

/// A lookup's value, or `default` where it fails.
pub open spec fn value_or<T>(r: Result<T, ErrorView>, default: T) -> T {
    match r {
        Ok(v) => v,
        Err(_) => default,
    }
}

// ---------------------------------------------------------------------------
// End-of-generation tokens
// ---------------------------------------------------------------------------
/// The position of the first token spelled `name`.
pub open spec fn first_spelled(tokens: Seq<Seq<char>>, name: Seq<char>) -> Option<int>
    decreases tokens.len(),
{
    if tokens.len() == 0 {
        None
    } else if tokens[0] == name {
        Some(0)
    } else {
        match first_spelled(tokens.drop_first(), name) {
            Some(i) => Some(i + 1),
            None => None,
        }
    }
}

/// A strictly ascending list: sorted, and nothing twice.
pub open spec fn ascending(v: Seq<u32>) -> bool {
    forall|i: int, j: int| 0 <= i < j < v.len() ==> v[i] < v[j]
}

/// `id` ends a generation: it is the first token spelled as one of `names`, or
/// it is the file's end-of-sequence token.
pub open spec fn ends_generation(
    h: HeaderView,
    tokens: Seq<Seq<char>>,
    names: Seq<Seq<char>>,
    id: u32,
) -> bool {
    ||| exists|k: int|
        0 <= k < names.len() && first_spelled(tokens, #[trigger] names[k]) is Some && id
            == first_spelled(tokens, names[k])->0 as u32
    ||| meta_u64(h, "tokenizer.ggml.eos_token_id"@) is Ok && id == meta_u64(
        h,
        "tokenizer.ggml.eos_token_id"@,
    )->Ok_0 as u32
}

/// The vocabulary, or nothing where the file has none.
pub open spec fn vocabulary(h: HeaderView) -> Seq<Seq<char>> {
    value_or(meta_strings(h, "tokenizer.ggml.tokens"@), Seq::empty())
}

/// The end-of-generation set as a sorted list without repetitions.
pub open spec fn is_eog(h: HeaderView, names: Seq<Seq<char>>, eog: Seq<u32>) -> bool {
    &&& ascending(eog)
    &&& forall|id: u32| #[trigger]
        eog.contains(id) <==> ends_generation(h, vocabulary(h), names, id)
}

fn position_of(tokens: &[String], name: &str) -> (r: Option<usize>)
    ensures
        match r {
            Some(i) => first_spelled(text::views(tokens@), name@) == Some(i as int),
            None => first_spelled(text::views(tokens@), name@) is None,
        },
{
    let ghost all = text::views(tokens@);
    let mut i: usize = 0;
    assert(all.skip(0) =~= all);
    while i < tokens.len()
        invariant
            i <= tokens@.len(),
            all == text::views(tokens@),
            match first_spelled(all.skip(i as int), name@) {
                Some(p) => first_spelled(all, name@) == Some(p + i),
                None => first_spelled(all, name@) is None,
            },
        decreases tokens@.len() - i,
    {
        assert(all.skip(i as int)[0] == tokens@[i as int]@);
        if text::str_eq(tokens[i].as_str(), name) {
            return Some(i);
        }
        assert(all.skip(i as int).drop_first() =~= all.skip(i + 1));
        i = i + 1;
    }
    assert(all.skip(i as int).len() == 0);
    None
}

/// Put `id` in its place, unless it is there.
fn insert_ascending(v: &mut Vec<u32>, id: u32)
    requires
        ascending(old(v)@),
    ensures
        ascending(final(v)@),
        forall|x: u32| #[trigger] final(v)@.contains(x) <==> (x == id || old(v)@.contains(x)),
{
    let ghost before = v@;
    let mut i: usize = 0;
    while i < v.len() && v[i] < id
        invariant
            i <= v@.len(),
            v@ == before,
            ascending(before),
            forall|j: int| 0 <= j < i ==> #[trigger] before[j] < id,
        decreases v@.len() - i,
    {
        i = i + 1;
    }
    if i < v.len() && v[i] == id {
        assert(before[i as int] == id);
        return ;
    }
    v.insert(i, id);
    proof {
        let after = v@;
        assert(after =~= before.insert(i as int, id));
        assert(after[i as int] == id);
        assert forall|x: u32| #[trigger] after.contains(x) <==> (x == id || before.contains(x)) by {
            if before.contains(x) {
                let k = choose|k: int| 0 <= k < before.len() && before[k] == x;
                if k < i {
                    assert(after[k] == x);
                } else {
                    assert(after[k + 1] == x);
                }
            }
            if after.contains(x) {
                let k = choose|k: int| 0 <= k < after.len() && after[k] == x;
                if k < i {
                    assert(before[k] == x);
                } else if k > i {
                    assert(before[k - 1] == x);
                }
            }
        }
        assert forall|a: int, b: int| 0 <= a < b < after.len() implies after[a] < after[b] by {
            let a0 = if a < i {
                a
            } else {
                a - 1
            };
            let b0 = if b < i {
                b
            } else {
                b - 1
            };
            if i < before.len() {
                assert(before[i as int] >= id);
            }
            if a == i {
                assert(before[b0] >= before[i as int]);
            } else if b != i {
                assert(before[a0] < before[b0]);
            }
        }
    }
}

/// Resolve the end-of-generation token set by spelling, together with the
/// end-of-sequence token that the file names.
pub fn eog_tokens(h: &Header, names: &Vec<&'static str>) -> (out: Vec<u32>)
    ensures
        is_eog(h@, names@.map_values(|s: &'static str| s@), out@),
{
    let ghost ns = names@.map_values(|s: &'static str| s@);
    let empty: Vec<String> = Vec::new();
    assert(text::views(empty@) =~= Seq::<Seq<char>>::empty());
    let tokens: &[String] = match h.string_array("tokenizer.ggml.tokens") {
        Ok(t) => t,
        Err(_) => empty.as_slice(),
    };
    let ghost toks = text::views(tokens@);
    assert(toks == vocabulary(h@));
    let mut out: Vec<u32> = Vec::new();
    let mut i: usize = 0;
    while i < names.len()
        invariant
            i <= names@.len(),
            ns == names@.map_values(|s: &'static str| s@),
            toks == text::views(tokens@),
            ascending(out@),
            forall|id: u32| #[trigger]
                out@.contains(id) <==> exists|k: int|
                    0 <= k < i && first_spelled(toks, #[trigger] ns[k]) is Some && id
                        == first_spelled(toks, ns[k])->0 as u32,
        decreases names@.len() - i,
    {
        let ghost before = out@;
        assert(ns[i as int] == names@[i as int]@);
        match position_of(tokens, names[i]) {
            Some(p) => {
                insert_ascending(&mut out, p as u32);
            },
            None => {},
        }
        proof {
            assert forall|id: u32| #[trigger] out@.contains(id) <==> exists|k: int|
                0 <= k < i + 1 && first_spelled(toks, #[trigger] ns[k]) is Some && id
                    == first_spelled(toks, ns[k])->0 as u32 by {
                if before.contains(id) {
                    let k = choose|k: int|
                        0 <= k < i && first_spelled(toks, #[trigger] ns[k]) is Some && id
                            == first_spelled(toks, ns[k])->0 as u32;
                    assert(0 <= k < i + 1 && first_spelled(toks, ns[k]) is Some);
                }
                if exists|k: int|
                    0 <= k < i + 1 && first_spelled(toks, #[trigger] ns[k]) is Some && id
                        == first_spelled(toks, ns[k])->0 as u32 {
                    let k = choose|k: int|
                        0 <= k < i + 1 && first_spelled(toks, #[trigger] ns[k]) is Some && id
                            == first_spelled(toks, ns[k])->0 as u32;
                    if k < i {
                        assert(before.contains(id));
                    }
                }
                assert(ns[i as int] == ns[i as int]);
            }
        }
        i = i + 1;
    }
    let ghost spelled = out@;
    match h.u64("tokenizer.ggml.eos_token_id") {
        Ok(eos) => {
            insert_ascending(&mut out, eos as u32);
        },
        Err(_) => {},
    }
    proof {
        assert forall|id: u32| #[trigger] out@.contains(id) <==> ends_generation(
            h@,
            vocabulary(h@),
            ns,
            id,
        ) by {
            assert(spelled.contains(id) <==> exists|k: int|
                0 <= k < ns.len() && first_spelled(toks, #[trigger] ns[k]) is Some && id
                    == first_spelled(toks, ns[k])->0 as u32);
        }
    }
    out
}

// ---------------------------------------------------------------------------
// Reading the configuration
// ---------------------------------------------------------------------------
/// At or above the sentinel, infinity included; a NaN is not.
pub open spec fn unrotated(bits: u32) -> bool {
    NO_ROPE_SENTINEL <= bits <= INFINITY
}

/// How many leading factors stand before the first sentinel.
pub open spec fn leading_rotated(factors: Seq<u32>) -> int
    decreases factors.len(),
{
    if factors.len() == 0 || unrotated(factors[0]) {
        0
    } else {
        1 + leading_rotated(factors.drop_first())
    }
}

pub open spec fn spec_max(a: int, b: int) -> int {
    if a > b {
        a
    } else {
        b
    }
}

/// How many leading pairs rotate. Without a sentinel, all of them.
pub open spec fn rotating_pairs(factors: Seq<u32>, head_dim: int) -> int {
    if leading_rotated(factors) < factors.len() {
        leading_rotated(factors)
    } else {
        spec_max(factors.len() as int, head_dim / 2)
    }
}

pub open spec fn arch(h: HeaderView) -> Result<Seq<char>, ErrorView> {
    meta_str(h, "general.architecture"@)
}

pub open spec fn block_count(h: HeaderView) -> Result<u64, ErrorView> {
    meta_u64(h, "gemma4.block_count"@)
}

pub open spec fn kv_heads(h: HeaderView) -> Result<Seq<u32>, ErrorView> {
    meta_u32s(h, "gemma4.attention.head_count_kv"@)
}

pub open spec fn swa_pattern(h: HeaderView) -> Result<Seq<bool>, ErrorView> {
    meta_bools(h, "gemma4.attention.sliding_window_pattern"@)
}

/// What can be wrong with a file, in the order in which it is noticed.
pub open spec fn config_errors(h: HeaderView) -> Seq<Option<ConfigErrorView>> {
    let n = block_count(h)->Ok_0 as usize;
    let kv = kv_heads(h)->Ok_0.len() as int;
    let swa = swa_pattern(h)->Ok_0.len() as int;
    seq![
        lifted(arch(h)),
        unless(arch(h)->Ok_0 == "gemma4"@, ConfigErrorView::Architecture(arch(h)->Ok_0)),
        lifted(block_count(h)),
        lifted(meta_u64(h, "gemma4.embedding_length"@)),
        lifted(meta_u64(h, "gemma4.attention.head_count"@)),
        lifted(meta_u64(h, "gemma4.feed_forward_length"@)),
        lifted(meta_float(h, "gemma4.attention.layer_norm_rms_epsilon"@)),
        lifted(kv_heads(h)),
        lifted(swa_pattern(h)),
        unless(
            kv == n && swa == n,
            ConfigErrorView::LayerArrays { n_layers: n, kv_heads: kv, swa_pattern: swa },
        ),
        lifted(meta_u64(h, "gemma4.attention.key_length"@)),
        lifted(meta_u64(h, "gemma4.attention.key_length_swa"@)),
        lifted(meta_float(h, "gemma4.rope.freq_base"@)),
        lifted(meta_float(h, "gemma4.rope.freq_base_swa"@)),
        lifted(meta_u64(h, "gemma4.attention.sliding_window"@)),
        unless(
            tensor_named(h, "token_embd.weight"@) is Some,
            ConfigErrorView::Gguf(ErrorView::NoTensor("token_embd.weight"@)),
        ),
    ]
}

/// Layer `i`: sliding-window layers and global layers each have a head width and
/// a RoPE base; only global layers use the factors and project V from K.
pub open spec fn layer_of(h: HeaderView, i: int) -> LayerConfig {
    let swa = swa_pattern(h)->Ok_0[i];
    LayerConfig {
        swa,
        n_kv_heads: kv_heads(h)->Ok_0[i] as usize,
        head_dim: if swa {
            meta_u64(h, "gemma4.attention.key_length_swa"@)->Ok_0 as usize
        } else {
            meta_u64(h, "gemma4.attention.key_length"@)->Ok_0 as usize
        },
        rope_base: if swa {
            meta_float(h, "gemma4.rope.freq_base_swa"@)->Ok_0
        } else {
            meta_float(h, "gemma4.rope.freq_base"@)->Ok_0
        },
        window: if swa {
            Some(meta_u64(h, "gemma4.attention.sliding_window"@)->Ok_0 as usize)
        } else {
            None
        },
        rope_factors: !swa,
        v_from_k: !swa,
        kv_source: i as usize,
    }
}

/// The spellings that end a generation: the end-of-sequence token, the model
/// closing its turn, and the block it opens to wait for a tool's result.
pub open spec fn eog_names() -> Seq<Seq<char>> {
    seq!["<eos>"@, "<turn|>"@, "<|tool_response>"@]
}

impl Config {
    /// This is what the file describes, with the given RoPE factors.
    pub open spec fn describes(&self, h: HeaderView, factors: Seq<u32>) -> bool {
        &&& self.n_layers == block_count(h)->Ok_0 as usize
        &&& self.d_model == meta_u64(h, "gemma4.embedding_length"@)->Ok_0 as usize
        &&& self.n_heads == meta_u64(h, "gemma4.attention.head_count"@)->Ok_0 as usize
        &&& self.ffn_dim == meta_u64(h, "gemma4.feed_forward_length"@)->Ok_0 as usize
        &&& self.vocab == tensor_named(h, "token_embd.weight"@)->0.outer()
        &&& self.n_embd_per_layer == 0
        &&& self.rms_eps == meta_float(h, "gemma4.attention.layer_norm_rms_epsilon"@)->Ok_0
        &&& self.logit_softcap == match meta_float(h, "gemma4.final_logit_softcapping"@) {
            Ok(c) => if c.positive() {
                Some(c)
            } else {
                None
            },
            Err(_) => None,
        }
        &&& self.rope_factors@ == factors
        &&& self.rope_pairs == rotating_pairs(
            factors,
            (meta_u64(h, "gemma4.attention.key_length"@)->Ok_0 as usize) as int,
        )
        &&& self.context_length == value_or(meta_u64(h, "gemma4.context_length"@), 8192u64) as usize
        &&& self.layers@ == Seq::new(self.n_layers as nat, |i: int| layer_of(h, i))
        &&& self.suppress_tokens@ == value_or(
            meta_u32s(h, "tokenizer.ggml.suppress_tokens"@),
            Seq::empty(),
        )
        &&& self.bos == value_or(meta_u64(h, "tokenizer.ggml.bos_token_id"@), 2u64) as u32
        &&& self.eos == value_or(meta_u64(h, "tokenizer.ggml.eos_token_id"@), 1u64) as u32
        &&& is_eog(h, eog_names(), self.eog@)
    }

    /// Read the description. `rope_factors` are the elements of the tensor
    /// `rope_freqs.weight` as bits, empty where the file has none.
    #[verifier::rlimit(50)]
    pub fn from_gguf(h: &Header, rope_factors: Vec<u32>) -> (r: Result<Config, ConfigError>)
        requires
            h.wf(),
        ensures
            match r {
                Ok(c) => first_error(config_errors(h@)) is None && c.describes(
                    h@,
                    rope_factors@,
                ),
                Err(e) => first_error(config_errors(h@)) == Some(e@),
            },
    {
        let ghost errs = config_errors(h@);
        let arch = match h.str("general.architecture") {
            Ok(v) => v,
            Err(e) => {
                proof {
                    lemma_first_error(errs, 0);
                }
                return Err(ConfigError::Gguf(e));
            },
        };
        if !text::str_eq(arch, "gemma4") {
            proof {
                lemma_first_error(errs, 1);
            }
            return Err(ConfigError::Architecture(arch.to_owned()));
        }
        let n_layers: usize = match h.usize("gemma4.block_count") {
            Ok(v) => v,
            Err(e) => {
                proof {
                    lemma_first_error(errs, 2);
                }
                return Err(ConfigError::Gguf(e));
            },
        };
        let d_model: usize = match h.usize("gemma4.embedding_length") {
            Ok(v) => v,
            Err(e) => {
                proof {
                    lemma_first_error(errs, 3);
                }
                return Err(ConfigError::Gguf(e));
            },
        };
        let n_heads: usize = match h.usize("gemma4.attention.head_count") {
            Ok(v) => v,
            Err(e) => {
                proof {
                    lemma_first_error(errs, 4);
                }
                return Err(ConfigError::Gguf(e));
            },
        };
        let ffn_dim: usize = match h.usize("gemma4.feed_forward_length") {
            Ok(v) => v,
            Err(e) => {
                proof {
                    lemma_first_error(errs, 5);
                }
                return Err(ConfigError::Gguf(e));
            },
        };
        let rms_eps = match h.float("gemma4.attention.layer_norm_rms_epsilon") {
            Ok(v) => v,
            Err(e) => {
                proof {
                    lemma_first_error(errs, 6);
                }
                return Err(ConfigError::Gguf(e));
            },
        };
        let kv = match h.u32_array("gemma4.attention.head_count_kv") {
            Ok(v) => v,
            Err(e) => {
                proof {
                    lemma_first_error(errs, 7);
                }
                return Err(ConfigError::Gguf(e));
            },
        };
        let swa = match h.bool_array("gemma4.attention.sliding_window_pattern") {
            Ok(v) => v,
            Err(e) => {
                proof {
                    lemma_first_error(errs, 8);
                }
                return Err(ConfigError::Gguf(e));
            },
        };
        if kv.len() != n_layers || swa.len() != n_layers {
            proof {
                lemma_first_error(errs, 9);
            }
            return Err(
                ConfigError::LayerArrays {
                    n_layers,
                    kv_heads: kv.len(),
                    swa_pattern: swa.len(),
                },
            );
        }
        let head_global: usize = match h.usize("gemma4.attention.key_length") {
            Ok(v) => v,
            Err(e) => {
                proof {
                    lemma_first_error(errs, 10);
                }
                return Err(ConfigError::Gguf(e));
            },
        };
        let head_swa: usize = match h.usize("gemma4.attention.key_length_swa") {
            Ok(v) => v,
            Err(e) => {
                proof {
                    lemma_first_error(errs, 11);
                }
                return Err(ConfigError::Gguf(e));
            },
        };
        let base_global = match h.float("gemma4.rope.freq_base") {
            Ok(v) => v,
            Err(e) => {
                proof {
                    lemma_first_error(errs, 12);
                }
                return Err(ConfigError::Gguf(e));
            },
        };
        let base_swa = match h.float("gemma4.rope.freq_base_swa") {
            Ok(v) => v,
            Err(e) => {
                proof {
                    lemma_first_error(errs, 13);
                }
                return Err(ConfigError::Gguf(e));
            },
        };
        let window: usize = match h.usize("gemma4.attention.sliding_window") {
            Ok(v) => v,
            Err(e) => {
                proof {
                    lemma_first_error(errs, 14);
                }
                return Err(ConfigError::Gguf(e));
            },
        };
        let vocab: usize = match h.info("token_embd.weight") {
            Ok(t) => {
                proof {
                    crate::gpu::arena::lemma_named(h@, "token_embd.weight"@, t@);
                }
                t.out_dim()
            },
            Err(e) => {
                proof {
                    lemma_first_error(errs, 15);
                }
                return Err(ConfigError::Gguf(e));
            },
        };
        proof {
            lemma_no_error(errs);
        }
        let layers = layer_list(h, n_layers, &kv, &swa, head_global, head_swa, base_global, base_swa, window);
        let rope_pairs = count_pairs(&rope_factors, head_global);
        let logit_softcap = match h.float("gemma4.final_logit_softcapping") {
            Ok(c) => if c.is_positive() {
                Some(c)
            } else {
                None
            },
            Err(_) => None,
        };
        let context_length: usize = match h.usize("gemma4.context_length") {
            Ok(v) => v,
            Err(_) => 8192,
        };
        let suppress_tokens = match h.u32_array("tokenizer.ggml.suppress_tokens") {
            Ok(v) => v,
            Err(_) => Vec::new(),
        };
        let bos: u32 = match h.u64("tokenizer.ggml.bos_token_id") {
            Ok(v) => v as u32,
            Err(_) => 2,
        };
        let eos: u32 = match h.u64("tokenizer.ggml.eos_token_id") {
            Ok(v) => v as u32,
            Err(_) => 1,
        };
        let mut names: Vec<&'static str> = Vec::new();
        names.push("<eos>");
        names.push("<turn|>");
        names.push("<|tool_response>");
        assert(names@.map_values(|s: &'static str| s@) =~= eog_names());
        let eog = eog_tokens(h, &names);
        Ok(
            Config {
                n_layers,
                d_model,
                n_heads,
                ffn_dim,
                vocab,
                n_embd_per_layer: 0,
                rms_eps,
                logit_softcap,
                rope_factors,
                rope_pairs,
                context_length,
                layers,
                suppress_tokens,
                bos,
                eos,
                eog,
            },
        )
    }

    /// Query heads per KV head (GQA group size).
    pub fn gqa_group(&self, layer: usize) -> (r: usize)
        requires
            layer < self.layers@.len(),
            self.layers@[layer as int].n_kv_heads > 0,
        ensures
            r == self.n_heads / self.layers@[layer as int].n_kv_heads,
    {
        self.n_heads / self.layers[layer].n_kv_heads
    }

    /// How many KV slots a layer needs to serve `n_ctx` tokens. Sliding-window
    /// layers only ever look back `window` positions, so their cache is a ring.
    pub open spec fn slots(&self, layer: int, n_ctx: int) -> int {
        match self.layers@[layer].window {
            Some(w) => if w < n_ctx {
                w as int
            } else {
                n_ctx
            },
            None => n_ctx,
        }
    }

    /// How many KV slots a layer needs to serve `n_ctx` tokens.
    pub fn kv_slots(&self, layer: usize, n_ctx: usize) -> (r: usize)
        requires
            layer < self.layers@.len(),
        ensures
            r == self.slots(layer as int, n_ctx as int),
    {
        match self.layers[layer].window {
            Some(w) => if w < n_ctx {
                w
            } else {
                n_ctx
            },
            None => n_ctx,
        }
    }

    /// KV cache bytes of the first `k` layers at f16: keys and values, two bytes
    /// each.
    pub open spec fn cache_bytes(&self, n_ctx: int, k: int) -> int
        decreases k,
    {
        if k <= 0 {
            0
        } else {
            self.cache_bytes(n_ctx, k - 1) + self.slots(k - 1, n_ctx) * self.layers@[k - 1].kv_width()
                * 4
        }
    }

    /// Total KV cache bytes at f16 for a given context length.
    pub fn kv_bytes(&self, n_ctx: usize) -> (r: usize)
        requires
            self.n_layers <= self.layers@.len(),
            forall|i: int|
                0 <= i < self.n_layers ==> (#[trigger] self.layers@[i]).kv_width() <= usize::MAX,
            self.cache_bytes(n_ctx as int, self.n_layers as int) <= usize::MAX,
        ensures
            r == self.cache_bytes(n_ctx as int, self.n_layers as int),
    {
        let mut total: usize = 0;
        let mut i: usize = 0;
        while i < self.n_layers
            invariant
                i <= self.n_layers,
                self.n_layers <= self.layers@.len(),
                forall|k: int|
                    0 <= k < self.n_layers ==> (#[trigger] self.layers@[k]).kv_width() <= usize::MAX,
                self.cache_bytes(n_ctx as int, self.n_layers as int) <= usize::MAX,
                total == self.cache_bytes(n_ctx as int, i as int),
            decreases self.n_layers - i,
        {
            proof {
                self.lemma_cache_bytes(n_ctx as int, i + 1, self.n_layers as int);
            }
            let slots: usize = self.kv_slots(i, n_ctx);
            let width: usize = self.layers[i].kv_dim();
            assert(0 <= slots * width) by (nonlinear_arith);
            total = total + slots * width * 4;
            i = i + 1;
        }
        total
    }

    proof fn lemma_cache_bytes(&self, n_ctx: int, j: int, k: int)
        requires
            0 <= j <= k,
            0 <= n_ctx,
        ensures
            0 <= self.cache_bytes(n_ctx, j) <= self.cache_bytes(n_ctx, k),
        decreases k,
    {
        if j < k {
            self.lemma_cache_bytes(n_ctx, j, k - 1);
            let a = self.slots(k - 1, n_ctx);
            let l = self.layers@[k - 1];
            let b = l.kv_width();
            assert(b >= 0) by (nonlinear_arith)
                requires
                    b == l.n_kv_heads * l.head_dim,
            ;
            assert(a * b * 4 >= 0) by (nonlinear_arith)
                requires
                    a >= 0,
                    b >= 0,
            ;
        } else if k > 0 {
            self.lemma_cache_bytes(n_ctx, k - 1, k - 1);
            let a = self.slots(k - 1, n_ctx);
            let l = self.layers@[k - 1];
            let b = l.kv_width();
            assert(b >= 0) by (nonlinear_arith)
                requires
                    b == l.n_kv_heads * l.head_dim,
            ;
            assert(a * b * 4 >= 0) by (nonlinear_arith)
                requires
                    a >= 0,
                    b >= 0,
            ;
        }
    }
}

fn layer_list(
    h: &Header,
    n_layers: usize,
    kv: &Vec<u32>,
    swa: &Vec<bool>,
    head_global: usize,
    head_swa: usize,
    base_global: FloatBits,
    base_swa: FloatBits,
    window: usize,
) -> (layers: Vec<LayerConfig>)
    requires
        kv_heads(h@) == Ok::<Seq<u32>, ErrorView>(kv@),
        swa_pattern(h@) == Ok::<Seq<bool>, ErrorView>(swa@),
        kv@.len() == n_layers,
        swa@.len() == n_layers,
        head_global == meta_u64(h@, "gemma4.attention.key_length"@)->Ok_0 as usize,
        head_swa == meta_u64(h@, "gemma4.attention.key_length_swa"@)->Ok_0 as usize,
        base_global == meta_float(h@, "gemma4.rope.freq_base"@)->Ok_0,
        base_swa == meta_float(h@, "gemma4.rope.freq_base_swa"@)->Ok_0,
        window == meta_u64(h@, "gemma4.attention.sliding_window"@)->Ok_0 as usize,
    ensures
        layers@ == Seq::new(n_layers as nat, |i: int| layer_of(h@, i)),
{
    let mut layers: Vec<LayerConfig> = Vec::new();
    let mut i: usize = 0;
    while i < n_layers
        invariant
            i <= n_layers,
            kv_heads(h@) == Ok::<Seq<u32>, ErrorView>(kv@),
            swa_pattern(h@) == Ok::<Seq<bool>, ErrorView>(swa@),
            kv@.len() == n_layers,
            swa@.len() == n_layers,
            head_global == meta_u64(h@, "gemma4.attention.key_length"@)->Ok_0 as usize,
            head_swa == meta_u64(h@, "gemma4.attention.key_length_swa"@)->Ok_0 as usize,
            base_global == meta_float(h@, "gemma4.rope.freq_base"@)->Ok_0,
            base_swa == meta_float(h@, "gemma4.rope.freq_base_swa"@)->Ok_0,
            window == meta_u64(h@, "gemma4.attention.sliding_window"@)->Ok_0 as usize,
            layers@ == Seq::new(i as nat, |k: int| layer_of(h@, k)),
        decreases n_layers - i,
    {
        let s = swa[i];
        layers.push(
            LayerConfig {
                swa: s,
                n_kv_heads: kv[i] as usize,
                head_dim: if s { head_swa } else { head_global },
                rope_base: if s { base_swa } else { base_global },
                window: if s { Some(window) } else { None },
                rope_factors: !s,
                v_from_k: !s,
                kv_source: i,
            },
        );
        i = i + 1;
        assert(layers@ =~= Seq::new(i as nat, |k: int| layer_of(h@, k)));
    }
    layers
}

fn count_pairs(factors: &Vec<u32>, head_dim: usize) -> (r: usize)
    ensures
        r == rotating_pairs(factors@, head_dim as int),
{
    let ghost all = factors@;
    let mut i: usize = 0;
    assert(all.skip(0) =~= all);
    while i < factors.len()
        invariant
            i <= factors@.len(),
            all == factors@,
            leading_rotated(all) == i + leading_rotated(all.skip(i as int)),
        decreases factors@.len() - i,
    {
        let f: u32 = factors[i];
        assert(all.skip(i as int)[0] == f);
        if NO_ROPE_SENTINEL <= f && f <= INFINITY {
            return i;
        }
        assert(all.skip(i as int).drop_first() =~= all.skip(i + 1));
        i = i + 1;
    }
    assert(all.skip(i as int).len() == 0);
    if factors.len() > head_dim / 2 {
        factors.len()
    } else {
        head_dim / 2
    }
}

// ---------------------------------------------------------------------------
// Laws
// ---------------------------------------------------------------------------
/// A file is accepted exactly when it says that it is of this architecture, has every
/// number that the pass needs, says for each layer how many key heads it has and whether
/// it slides, and ships the embedding table.
pub proof fn a_file_is_accepted_exactly_when(h: HeaderView)
    ensures
        first_error(config_errors(h)) is None <==> {
            &&& meta_str(h, "general.architecture"@) == Ok::<Seq<char>, ErrorView>("gemma4"@)
            &&& meta_u64(h, "gemma4.block_count"@) is Ok
            &&& meta_u64(h, "gemma4.embedding_length"@) is Ok
            &&& meta_u64(h, "gemma4.attention.head_count"@) is Ok
            &&& meta_u64(h, "gemma4.feed_forward_length"@) is Ok
            &&& meta_float(h, "gemma4.attention.layer_norm_rms_epsilon"@) is Ok
            &&& meta_u32s(h, "gemma4.attention.head_count_kv"@) is Ok
            &&& meta_bools(h, "gemma4.attention.sliding_window_pattern"@) is Ok
            &&& meta_u32s(h, "gemma4.attention.head_count_kv"@)->Ok_0.len() == meta_u64(
                h,
                "gemma4.block_count"@,
            )->Ok_0 as usize
            &&& meta_bools(h, "gemma4.attention.sliding_window_pattern"@)->Ok_0.len() == meta_u64(
                h,
                "gemma4.block_count"@,
            )->Ok_0 as usize
            &&& meta_u64(h, "gemma4.attention.key_length"@) is Ok
            &&& meta_u64(h, "gemma4.attention.key_length_swa"@) is Ok
            &&& meta_float(h, "gemma4.rope.freq_base"@) is Ok
            &&& meta_float(h, "gemma4.rope.freq_base_swa"@) is Ok
            &&& meta_u64(h, "gemma4.attention.sliding_window"@) is Ok
            &&& tensor_named(h, "token_embd.weight"@) is Some
        },
{
    let s = config_errors(h);
    no_error_exactly_when(s);
    assert(s[0] is None && s[1] is None <==> arch(h) == Ok::<Seq<char>, ErrorView>("gemma4"@));
    assert(s[9] is None <==> kv_heads(h)->Ok_0.len() == block_count(h)->Ok_0 as usize
        && swa_pattern(h)->Ok_0.len() == block_count(h)->Ok_0 as usize);
    assert(s[2] is None <==> block_count(h) is Ok);
    assert(s[3] is None <==> meta_u64(h, "gemma4.embedding_length"@) is Ok);
    assert(s[4] is None <==> meta_u64(h, "gemma4.attention.head_count"@) is Ok);
    assert(s[5] is None <==> meta_u64(h, "gemma4.feed_forward_length"@) is Ok);
    assert(s[6] is None <==> meta_float(h, "gemma4.attention.layer_norm_rms_epsilon"@) is Ok);
    assert(s[7] is None <==> kv_heads(h) is Ok);
    assert(s[8] is None <==> swa_pattern(h) is Ok);
    assert(s[10] is None <==> meta_u64(h, "gemma4.attention.key_length"@) is Ok);
    assert(s[11] is None <==> meta_u64(h, "gemma4.attention.key_length_swa"@) is Ok);
    assert(s[12] is None <==> meta_float(h, "gemma4.rope.freq_base"@) is Ok);
    assert(s[13] is None <==> meta_float(h, "gemma4.rope.freq_base_swa"@) is Ok);
    assert(s[14] is None <==> meta_u64(h, "gemma4.attention.sliding_window"@) is Ok);
    assert(s[15] is None <==> tensor_named(h, "token_embd.weight"@) is Some);
    assert(s.len() == 16);
}

/// Each number of a description is the file's number of that name.
pub proof fn numbers_are_read_under_their_names(h: HeaderView, factors: Seq<u32>, c: Config)
    requires
        c.describes(h, factors),
        first_error(config_errors(h)) is None,
    ensures
        meta_u64(h, "gemma4.block_count"@) matches Ok(n) && c.n_layers == n as usize,
        meta_u64(h, "gemma4.embedding_length"@) matches Ok(n) && c.d_model == n as usize,
        meta_u64(h, "gemma4.attention.head_count"@) matches Ok(n) && c.n_heads == n as usize,
        meta_u64(h, "gemma4.feed_forward_length"@) matches Ok(n) && c.ffn_dim == n as usize,
        meta_float(h, "gemma4.attention.layer_norm_rms_epsilon"@) matches Ok(e) && c.rms_eps == e,
        tensor_named(h, "token_embd.weight"@) matches Some(t) && c.vocab == t.outer(),
        meta_u64(h, "gemma4.context_length"@) matches Ok(n) ==> c.context_length == n as usize,
        meta_u64(h, "tokenizer.ggml.bos_token_id"@) matches Ok(n) ==> c.bos == n as u32,
        meta_u64(h, "tokenizer.ggml.eos_token_id"@) matches Ok(n) ==> c.eos == n as u32,
        meta_u32s(h, "tokenizer.ggml.suppress_tokens"@) matches Ok(v) ==> c.suppress_tokens@ == v,
        meta_u32s(h, "tokenizer.ggml.suppress_tokens"@) is Err ==> c.suppress_tokens@.len() == 0,
        c.logit_softcap is Some ==> meta_float(h, "gemma4.final_logit_softcapping"@) == Ok::<
            FloatBits,
            ErrorView,
        >(c.logit_softcap->0),
        meta_float(h, "gemma4.final_logit_softcapping"@) matches Ok(f) ==> (f.positive()
            <==> c.logit_softcap is Some),
        c.rope_factors@ == factors,
{
    a_file_is_accepted_exactly_when(h);
}

/// A layer that slides has the window, the head width and the rotation base of sliding
/// layers and a V projection of its own; the others see everything, rotate by the model's
/// factors and take V from K. Each has its own number of key heads, and its own cache.
pub proof fn layers_alternate_as_the_file_says(
    h: HeaderView,
    factors: Seq<u32>,
    c: Config,
    i: int,
)
    requires
        c.describes(h, factors),
        first_error(config_errors(h)) is None,
        0 <= i < c.n_layers,
    ensures
        ({
            let l = c.layers@[i];
            let slides = meta_bools(h, "gemma4.attention.sliding_window_pattern"@)->Ok_0[i];
            &&& c.layers@.len() == c.n_layers
            &&& l.n_kv_heads == meta_u32s(h, "gemma4.attention.head_count_kv"@)->Ok_0[i]
            &&& l.kv_source == i
            &&& l.swa == slides
            &&& slides ==> {
                &&& l.head_dim == meta_u64(h, "gemma4.attention.key_length_swa"@)->Ok_0 as usize
                &&& l.rope_base == meta_float(h, "gemma4.rope.freq_base_swa"@)->Ok_0
                &&& l.window == Some(
                    meta_u64(h, "gemma4.attention.sliding_window"@)->Ok_0 as usize,
                )
                &&& !l.rope_factors
                &&& !l.v_from_k
            }
            &&& !slides ==> {
                &&& l.head_dim == meta_u64(h, "gemma4.attention.key_length"@)->Ok_0 as usize
                &&& l.rope_base == meta_float(h, "gemma4.rope.freq_base"@)->Ok_0
                &&& l.window is None
                &&& l.rope_factors
                &&& l.v_from_k
            }
        }),
{
}

/// The pairs that rotate are those in front of the first factor at which rotation stands
/// still; where there is none, all do.
pub proof fn the_pairs_in_front_rotate(h: HeaderView, factors: Seq<u32>, c: Config)
    requires
        c.describes(h, factors),
    ensures
        ({
            let k = c.rope_pairs as int;
            let half = (meta_u64(h, "gemma4.attention.key_length"@)->Ok_0 as usize) as int / 2;
            ||| 0 <= k < factors.len() && 0x60AD_78EC <= factors[k] <= 0x7F80_0000 && forall|j: int|
                0 <= j < k ==> !(0x60AD_78EC <= #[trigger] factors[j] <= 0x7F80_0000)
            ||| k >= factors.len() && k >= half && (k == factors.len() || k == half) && forall|
                j: int,
            |
                0 <= j < factors.len() ==> !(0x60AD_78EC <= #[trigger] factors[j] <= 0x7F80_0000)
        }),
{
    lemma_leading(factors);
}

proof fn lemma_leading(factors: Seq<u32>)
    ensures
        0 <= leading_rotated(factors) <= factors.len(),
        forall|j: int|
            0 <= j < leading_rotated(factors) ==> !unrotated(#[trigger] factors[j]),
        leading_rotated(factors) < factors.len() ==> unrotated(factors[leading_rotated(factors)]),
    decreases factors.len(),
{
    if factors.len() > 0 && !unrotated(factors[0]) {
        let t = factors.drop_first();
        lemma_leading(t);
        assert forall|j: int| 0 <= j < leading_rotated(factors) implies !unrotated(
            #[trigger] factors[j],
        ) by {
            if j > 0 {
                assert(factors[j] == t[j - 1]);
            }
        }
        let k = leading_rotated(t);
        if k < t.len() {
            assert(t[k] == factors[k + 1]);
        }
    }
}

/// Generation ends with the file's end token, and with the first tokens that are spelled
/// like one of the turn's ends, and with no other.
pub proof fn generation_ends_with_the_named_tokens(
    h: HeaderView,
    names: Seq<Seq<char>>,
    eog: Seq<u32>,
    id: u32,
)
    requires
        is_eog(h, names, eog),
    ensures
        ({
            let words = value_or(meta_strings(h, "tokenizer.ggml.tokens"@), Seq::empty());
            eog.contains(id) <==> {
                ||| meta_u64(h, "tokenizer.ggml.eos_token_id"@) matches Ok(e) && id == e as u32
                ||| exists|i: int|
                    0 <= i < words.len() && names.contains(#[trigger] words[i]) && id == i as u32
                        && !words.take(i).contains(words[i])
            }
        }),
{
    let words = vocabulary(h);
    if exists|k: int|
        0 <= k < names.len() && first_spelled(words, #[trigger] names[k]) is Some && id
            == first_spelled(words, names[k])->0 as u32 {
        let k = choose|k: int|
            0 <= k < names.len() && first_spelled(words, #[trigger] names[k]) is Some && id
                == first_spelled(words, names[k])->0 as u32;
        lemma_spelled(words, names[k]);
        let i = first_spelled(words, names[k])->0;
        assert(names.contains(words[i]));
    }
    if exists|i: int|
        0 <= i < words.len() && names.contains(#[trigger] words[i]) && id == i as u32
            && !words.take(i).contains(words[i]) {
        let i = choose|i: int|
            0 <= i < words.len() && names.contains(#[trigger] words[i]) && id == i as u32
                && !words.take(i).contains(words[i]);
        let k = choose|k: int| 0 <= k < names.len() && names[k] == words[i];
        lemma_spelled(words, names[k]);
        let f = first_spelled(words, names[k]);
        if f is None {
            assert(words[i] != names[k]);
        } else if f->0 < i {
            assert(words.take(i)[f->0] == words[i]);
        } else if f->0 > i {
            assert(words[i] != names[k]);
        }
        assert(first_spelled(words, names[k]) is Some);
    }
}

proof fn lemma_spelled(words: Seq<Seq<char>>, name: Seq<char>)
    ensures
        match first_spelled(words, name) {
            Some(i) => 0 <= i < words.len() && words[i] == name && !words.take(i).contains(name)
                && forall|j: int| 0 <= j < i ==> #[trigger] words[j] != name,
            None => forall|j: int| 0 <= j < words.len() ==> #[trigger] words[j] != name,
        },
    decreases words.len(),
{
    if words.len() > 0 && words[0] != name {
        let t = words.drop_first();
        lemma_spelled(t, name);
        match first_spelled(words, name) {
            Some(i) => {
                assert(t[i - 1] == words[i]);
                assert forall|j: int| 0 <= j < i implies #[trigger] words[j] != name by {
                    if j > 0 {
                        assert(t[j - 1] != name);
                    }
                }
            },
            None => {
                assert forall|j: int| 0 <= j < words.len() implies #[trigger] words[j] != name by {
                    if j > 0 {
                        assert(t[j - 1] != name);
                    }
                }
            },
        }
    }
}

} // verus!
