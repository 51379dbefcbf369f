//! qwen35 and qwen3 architecture description, derived from GGUF metadata.
//!
//! qwen35 is a *hybrid* stack: most layers are gated-delta-net linear attention,
//! with a full-attention layer every `full_attention_interval`-th position. A
//! checkpoint may append NextN blocks past the main stack; they serve speculative
//! decoding only, so `n_layers` counts main layers.
//!
//! Plain qwen3 is the same description with two things switched off: every layer
//! is full attention, and the query projection carries no fused output gate.

use crate::checks::{
    first_error, lemma_first_error, lemma_no_error, no_error_exactly_when, unless,
};
use crate::config::{eog_tokens, is_eog, lifted, value_or, ConfigError, ConfigErrorView};
use crate::gguf::{ErrorView, FloatBits};
use crate::gpu::arena::tensor_named;
use crate::header::{meta_bools, meta_float, meta_str, meta_u64, Header, HeaderView};
use crate::text;
use vstd::prelude::*;

verus! {

#[derive(Debug)]
pub struct Config {
    /// Main layers only.
    pub n_layers: usize,
    pub d_model: usize,
    pub ffn_dim: usize,
    pub vocab: usize,
    pub rms_eps: FloatBits,
    pub context_length: usize,
    pub n_heads: usize,
    pub n_kv_heads: usize,
    /// Per-head width of the full-attention layers.
    pub head_dim: usize,
    /// Only the first `n_rot` dims of each head rotate; the rest are NoPE.
    pub n_rot: usize,
    pub rope_base: FloatBits,
    /// Whether `attn_q` emits a fused `[query | output-gate]` pair per head.
    pub query_gate: bool,
    /// Depthwise causal conv width over the fused QKV stream.
    pub conv_kernel: usize,
    /// Head width for both K and V sides of the recurrent state.
    pub lin_head_dim: usize,
    /// K/Q head count; V heads tile over these mod-wise.
    pub n_k_heads: usize,
    pub n_v_heads: usize,
    /// `n_v_heads * lin_head_dim`, the value stream width.
    pub d_inner: usize,
    /// `true` = gated delta net, `false` = full attention, per main layer.
    pub recurrent: Vec<bool>,
    pub bos: u32,
    pub eos: u32,
    pub eog: Vec<u32>,
}

/// A metadata key of this architecture; `s` starts with a dot.
pub open spec fn key(hybrid: bool, s: Seq<char>) -> Seq<char> {
    (if hybrid {
        "qwen35"@
    } else {
        "qwen3"@
    }) + s
}

fn key_string(hybrid: bool, s: &str) -> (k: String)
    ensures
        k@ == key(hybrid, s@),
{
    let mut k = String::new();
    k.push_str(if hybrid { "qwen35" } else { "qwen3" });
    k.push_str(s);
    assert(k@ =~= key(hybrid, s@));
    k
}

pub open spec fn arch(h: HeaderView) -> Result<Seq<char>, ErrorView> {
    meta_str(h, "general.architecture"@)
}

pub open spec fn hybrid(h: HeaderView) -> bool {
    arch(h)->Ok_0 == "qwen35"@
}

/// An integer of this architecture.
pub open spec fn int_of(h: HeaderView, s: Seq<char>) -> Result<u64, ErrorView> {
    meta_u64(h, key(hybrid(h), s))
}

/// Its value, where it is there.
pub open spec fn num(h: HeaderView, s: Seq<char>) -> usize {
    int_of(h, s)->Ok_0 as usize
}

/// Its value, or a default.
pub open spec fn num_or(h: HeaderView, s: Seq<char>, default: u64) -> usize {
    value_or(int_of(h, s), default) as usize
}

pub open spec fn float_of(h: HeaderView, s: Seq<char>) -> Result<FloatBits, ErrorView> {
    meta_float(h, key(hybrid(h), s))
}

/// The explicit list of recurrent layers.
pub open spec fn listed(h: HeaderView) -> Result<Seq<bool>, ErrorView> {
    meta_bools(h, key(hybrid(h), ".attention.recurrent_layers"@))
}

/// Where the list is not explicit, every `interval`-th layer is full attention.
pub open spec fn interval(h: HeaderView) -> usize {
    num_or(h, ".full_attention_interval"@, 4)
}

pub open spec fn main_layers(h: HeaderView) -> int {
    num(h, ".block_count"@) - num_or(h, ".nextn_predict_layers"@, 0)
}

/// Which layers are recurrent: an explicit list wins, else the interval. A dense
/// stack has none.
pub open spec fn is_recurrent(h: HeaderView, i: int) -> bool {
    if !hybrid(h) {
        false
    } else {
        match listed(h) {
            Ok(v) => v[i],
            Err(_) => (i + 1) % (interval(h) as int) != 0,
        }
    }
}

pub open spec fn mismatch(what: Seq<char>, got: int, want: int) -> ConfigErrorView {
    ConfigErrorView::Mismatch { what, got, want }
}

/// `e`, where the file is of the hybrid architecture.
pub open spec fn if_hybrid(h: HeaderView, e: Option<ConfigErrorView>) -> Option<ConfigErrorView> {
    if hybrid(h) {
        e
    } else {
        None
    }
}

/// What can be wrong with the recurrent layers: the list is too short, or the
/// interval is zero.
pub open spec fn recurrent_error(h: HeaderView) -> Option<ConfigErrorView> {
    match listed(h) {
        Ok(v) => unless(
            v.len() >= main_layers(h),
            mismatch("recurrent_layers"@, v.len() as int, main_layers(h)),
        ),
        Err(_) => unless(interval(h) != 0, mismatch("full_attention_interval"@, 0, 1)),
    }
}

/// What can be wrong with a file, in the order in which it is noticed.
pub open spec fn config_errors(h: HeaderView) -> Seq<Option<ConfigErrorView>> {
    let lin = num(h, ".ssm.state_size"@);
    let nk = num(h, ".ssm.group_count"@);
    let nv = num(h, ".ssm.time_step_rank"@);
    let inner = num(h, ".ssm.inner_size"@);
    seq![
        lifted(arch(h)),
        unless(
            arch(h)->Ok_0 == "qwen35"@ || arch(h)->Ok_0 == "qwen3"@,
            ConfigErrorView::Architecture(arch(h)->Ok_0),
        ),
        lifted(int_of(h, ".block_count"@)),
        unless(
            main_layers(h) > 0,
            mismatch(
                "nextn_predict_layers"@,
                num_or(h, ".nextn_predict_layers"@, 0) as int,
                num(h, ".block_count"@) as int,
            ),
        ),
        lifted(int_of(h, ".embedding_length"@)),
        lifted(int_of(h, ".attention.key_length"@)),
        lifted(int_of(h, ".attention.value_length"@)),
        unless(
            num(h, ".attention.value_length"@) == num(h, ".attention.key_length"@),
            mismatch(
                "value_length"@,
                num(h, ".attention.value_length"@) as int,
                num(h, ".attention.key_length"@) as int,
            ),
        ),
        if_hybrid(h, lifted(int_of(h, ".ssm.state_size"@))),
        if_hybrid(h, lifted(int_of(h, ".ssm.group_count"@))),
        if_hybrid(h, lifted(int_of(h, ".ssm.time_step_rank"@))),
        if_hybrid(h, lifted(int_of(h, ".ssm.inner_size"@))),
        if_hybrid(
            h,
            unless(inner == nv * lin, mismatch("ssm.inner_size"@, inner as int, nv as int)),
        ),
        if_hybrid(
            h,
            unless(
                nk != 0 && nv % nk == 0,
                mismatch("ssm.time_step_rank"@, nv as int, nk as int),
            ),
        ),
        if_hybrid(h, recurrent_error(h)),
        unless(
            tensor_named(h, "token_embd.weight"@) is Some,
            ConfigErrorView::Gguf(ErrorView::NoTensor("token_embd.weight"@)),
        ),
        lifted(int_of(h, ".feed_forward_length"@)),
        lifted(float_of(h, ".attention.layer_norm_rms_epsilon"@)),
        lifted(int_of(h, ".attention.head_count"@)),
        lifted(int_of(h, ".attention.head_count_kv"@)),
        lifted(float_of(h, ".rope.freq_base"@)),
        if_hybrid(h, lifted(int_of(h, ".ssm.conv_kernel"@))),
    ]
}

/// The spellings that end a generation: the assistant's turn terminator and the
/// end of a document.
pub open spec fn eog_names() -> Seq<Seq<char>> {
    seq!["<|im_end|>"@, "<|endoftext|>"@]
}

impl Config {
    /// This is what the file describes.
    pub open spec fn describes(&self, h: HeaderView) -> bool {
        &&& self.n_layers == main_layers(h)
        &&& self.d_model == num(h, ".embedding_length"@)
        &&& self.ffn_dim == num(h, ".feed_forward_length"@)
        &&& self.vocab == tensor_named(h, "token_embd.weight"@)->0.outer()
        &&& self.rms_eps == float_of(h, ".attention.layer_norm_rms_epsilon"@)->Ok_0
        &&& self.context_length == num_or(h, ".context_length"@, 8192)
        &&& self.n_heads == num(h, ".attention.head_count"@)
        &&& self.n_kv_heads == num(h, ".attention.head_count_kv"@)
        &&& self.head_dim == num(h, ".attention.key_length"@)
        &&& self.n_rot == match int_of(h, ".rope.dimension_count"@) {
            Ok(n) => n as usize,
            Err(_) => self.head_dim,
        }
        &&& self.rope_base == float_of(h, ".rope.freq_base"@)->Ok_0
        &&& self.query_gate == hybrid(h)
        &&& hybrid(h) ==> self.conv_kernel == num(h, ".ssm.conv_kernel"@) && self.lin_head_dim
            == num(h, ".ssm.state_size"@) && self.n_k_heads == num(h, ".ssm.group_count"@)
            && self.n_v_heads == num(h, ".ssm.time_step_rank"@) && self.d_inner == num(
            h,
            ".ssm.inner_size"@,
        )
        &&& !hybrid(h) ==> self.conv_kernel == 0 && self.lin_head_dim == 0 && self.n_k_heads == 0
            && self.n_v_heads == 0 && self.d_inner == 0
        &&& self.recurrent@ == Seq::new(self.n_layers as nat, |i: int| is_recurrent(h, i))
        &&& self.bos == value_or(meta_u64(h, "tokenizer.ggml.bos_token_id"@), 0u64) as u32
        &&& self.eos == value_or(meta_u64(h, "tokenizer.ggml.eos_token_id"@), 0u64) as u32
        &&& is_eog(h, eog_names(), self.eog@)
    }

    /// Read the description.
    #[verifier::rlimit(80)]
    pub fn from_gguf(h: &Header) -> (r: Result<Config, ConfigError>)
        requires
            h.wf(),
        ensures
            match r {
                Ok(c) => first_error(config_errors(h@)) is None && c.describes(h@),
                Err(e) => first_error(config_errors(h@)) == Some(e@),
            },
    {
        let ghost errs = config_errors(h@);
        let arch = match h.str("general.architecture") {
            Ok(v) => v,
            Err(e) => {
                proof {
                    lemma_first_error(errs, 0);
                }
                return Err(ConfigError::Gguf(e));
            },
        };
        let hy: bool = text::str_eq(arch, "qwen35");
        if !hy && !text::str_eq(arch, "qwen3") {
            proof {
                lemma_first_error(errs, 1);
            }
            return Err(ConfigError::Architecture(arch.to_owned()));
        }
        assert(hy == hybrid(h@));
        let all: usize = match h.usize(key_string(hy, ".block_count").as_str()) {
            Ok(v) => v,
            Err(e) => {
                proof {
                    lemma_first_error(errs, 2);
                }
                return Err(ConfigError::Gguf(e));
            },
        };
        let nextn: usize = match h.usize(key_string(hy, ".nextn_predict_layers").as_str()) {
            Ok(v) => v,
            Err(_) => 0,
        };
        if nextn >= all {
            proof {
                lemma_first_error(errs, 3);
            }
            return Err(ConfigError::Mismatch { what: "nextn_predict_layers", got: nextn, want: all });
        }
        let n_layers: usize = all - nextn;
        let d_model: usize = match h.usize(key_string(hy, ".embedding_length").as_str()) {
            Ok(v) => v,
            Err(e) => {
                proof {
                    lemma_first_error(errs, 4);
                }
                return Err(ConfigError::Gguf(e));
            },
        };
        let head_dim: usize = match h.usize(key_string(hy, ".attention.key_length").as_str()) {
            Ok(v) => v,
            Err(e) => {
                proof {
                    lemma_first_error(errs, 5);
                }
                return Err(ConfigError::Gguf(e));
            },
        };
        let value_length: usize = match h.usize(key_string(hy, ".attention.value_length").as_str()) {
            Ok(v) => v,
            Err(e) => {
                proof {
                    lemma_first_error(errs, 6);
                }
                return Err(ConfigError::Gguf(e));
            },
        };
        if value_length != head_dim {
            proof {
                lemma_first_error(errs, 7);
            }
            return Err(ConfigError::Mismatch { what: "value_length", got: value_length, want: head_dim });
        }
        let mut lin_head_dim: usize = 0;
        let mut n_k_heads: usize = 0;
        let mut n_v_heads: usize = 0;
        let mut d_inner: usize = 0;
        if hy {
            let lin: usize = match h.usize(key_string(hy, ".ssm.state_size").as_str()) {
                Ok(v) => v,
                Err(e) => {
                    proof {
                        lemma_first_error(errs, 8);
                    }
                    return Err(ConfigError::Gguf(e));
                },
            };
            let nk: usize = match h.usize(key_string(hy, ".ssm.group_count").as_str()) {
                Ok(v) => v,
                Err(e) => {
                    proof {
                        lemma_first_error(errs, 9);
                    }
                    return Err(ConfigError::Gguf(e));
                },
            };
            let nv: usize = match h.usize(key_string(hy, ".ssm.time_step_rank").as_str()) {
                Ok(v) => v,
                Err(e) => {
                    proof {
                        lemma_first_error(errs, 10);
                    }
                    return Err(ConfigError::Gguf(e));
                },
            };
            let inner: usize = match h.usize(key_string(hy, ".ssm.inner_size").as_str()) {
                Ok(v) => v,
                Err(e) => {
                    proof {
                        lemma_first_error(errs, 11);
                    }
                    return Err(ConfigError::Gguf(e));
                },
            };
            let agree: bool = match nv.checked_mul(lin) {
                Some(p) => p == inner,
                None => false,
            };
            if !agree {
                proof {
                    lemma_first_error(errs, 12);
                }
                return Err(ConfigError::Mismatch { what: "ssm.inner_size", got: inner, want: nv });
            }
            if nk == 0 || nv % nk != 0 {
                proof {
                    lemma_first_error(errs, 13);
                }
                return Err(ConfigError::Mismatch { what: "ssm.time_step_rank", got: nv, want: nk });
            }
            lin_head_dim = lin;
            n_k_heads = nk;
            n_v_heads = nv;
            d_inner = inner;
        }
        let recurrent = match recurrent_layers(h, hy, n_layers) {
            Ok(v) => v,
            Err(e) => {
                proof {
                    lemma_first_error(errs, 14);
                }
                return Err(e);
            },
        };
        let vocab: usize = match h.info("token_embd.weight") {
            Ok(t) => {
                proof {
                    crate::gpu::arena::lemma_named(h@, "token_embd.weight"@, t@);
                }
                t.out_dim()
            },
            Err(e) => {
                proof {
                    lemma_first_error(errs, 15);
                }
                return Err(ConfigError::Gguf(e));
            },
        };
        let ffn_dim: usize = match h.usize(key_string(hy, ".feed_forward_length").as_str()) {
            Ok(v) => v,
            Err(e) => {
                proof {
                    lemma_first_error(errs, 16);
                }
                return Err(ConfigError::Gguf(e));
            },
        };
        let rms_eps = match h.float(key_string(hy, ".attention.layer_norm_rms_epsilon").as_str()) {
            Ok(v) => v,
            Err(e) => {
                proof {
                    lemma_first_error(errs, 17);
                }
                return Err(ConfigError::Gguf(e));
            },
        };
        let context_length: usize = match h.usize(key_string(hy, ".context_length").as_str()) {
            Ok(v) => v,
            Err(_) => 8192,
        };
        let n_heads: usize = match h.usize(key_string(hy, ".attention.head_count").as_str()) {
            Ok(v) => v,
            Err(e) => {
                proof {
                    lemma_first_error(errs, 18);
                }
                return Err(ConfigError::Gguf(e));
            },
        };
        let n_kv_heads: usize = match h.usize(key_string(hy, ".attention.head_count_kv").as_str()) {
            Ok(v) => v,
            Err(e) => {
                proof {
                    lemma_first_error(errs, 19);
                }
                return Err(ConfigError::Gguf(e));
            },
        };
        let n_rot: usize = match h.usize(key_string(hy, ".rope.dimension_count").as_str()) {
            Ok(v) => v,
            Err(_) => head_dim,
        };
        let rope_base = match h.float(key_string(hy, ".rope.freq_base").as_str()) {
            Ok(v) => v,
            Err(e) => {
                proof {
                    lemma_first_error(errs, 20);
                }
                return Err(ConfigError::Gguf(e));
            },
        };
        let mut conv_kernel: usize = 0;
        if hy {
            let ck: usize = match h.usize(key_string(hy, ".ssm.conv_kernel").as_str()) {
                Ok(v) => v,
                Err(e) => {
                    proof {
                        lemma_first_error(errs, 21);
                    }
                    return Err(ConfigError::Gguf(e));
                },
            };
            conv_kernel = ck;
        }
        proof {
            lemma_no_error(errs);
        }
        let bos: u32 = match h.u64("tokenizer.ggml.bos_token_id") {
            Ok(v) => v as u32,
            Err(_) => 0,
        };
        let eos: u32 = match h.u64("tokenizer.ggml.eos_token_id") {
            Ok(v) => v as u32,
            Err(_) => 0,
        };
        let mut names: Vec<&'static str> = Vec::new();
        names.push("<|im_end|>");
        names.push("<|endoftext|>");
        assert(names@.map_values(|s: &'static str| s@) =~= eog_names());
        let eog = eog_tokens(h, &names);
        Ok(
            Config {
                n_layers,
                d_model,
                ffn_dim,
                vocab,
                rms_eps,
                context_length,
                n_heads,
                n_kv_heads,
                head_dim,
                n_rot,
                rope_base,
                query_gate: hy,
                conv_kernel,
                lin_head_dim,
                n_k_heads,
                n_v_heads,
                d_inner,
                recurrent,
                bos,
                eos,
                eog,
            },
        )
    }

    pub open spec fn conv_width(&self) -> int {
        2 * self.n_k_heads * self.lin_head_dim + self.d_inner
    }

    /// Where the keys, and the queries, of v-head `hv` start in a row of `n_k_heads`
    /// heads. The k-heads are tiled over the v-heads, not repeated in runs.
    pub fn key_start(&self, hv: usize) -> (r: usize)
        requires
            0 < self.n_k_heads,
            self.n_k_heads * self.lin_head_dim <= usize::MAX,
        ensures
            r == (hv as int % self.n_k_heads as int) * self.lin_head_dim,
            r + self.lin_head_dim <= self.n_k_heads * self.lin_head_dim,
    {
        let hk: usize = hv % self.n_k_heads;
        assert(hk * self.lin_head_dim + self.lin_head_dim <= self.n_k_heads * self.lin_head_dim)
            by (nonlinear_arith)
            requires
                hk < self.n_k_heads,
        ;
        assert(0 <= hk * self.lin_head_dim) by (nonlinear_arith);
        hk * self.lin_head_dim
    }

    /// The width of the fused stream, where it can be counted.
    pub fn counted_conv(&self) -> (r: Option<usize>)
        ensures
            match r {
                Some(w) => 2 * self.n_k_heads <= usize::MAX && w == self.conv_width(),
                None => 2 * self.n_k_heads > usize::MAX || self.conv_width() > usize::MAX,
            },
    {
        match self.n_k_heads.checked_mul(2) {
            Some(k) => match k.checked_mul(self.lin_head_dim) {
                Some(qk) => qk.checked_add(self.d_inner),
                None => None,
            },
            None => None,
        }
    }

    /// Whether some layer is recurrent.
    pub fn any_recurrent(&self) -> (r: bool)
        ensures
            r == self.recurrent@.contains(true),
    {
        let mut i: usize = 0;
        while i < self.recurrent.len()
            invariant
                i <= self.recurrent@.len(),
                forall|k: int| 0 <= k < i ==> !(#[trigger] self.recurrent@[k]),
            decreases self.recurrent@.len() - i,
        {
            if self.recurrent[i] {
                assert(self.recurrent@[i as int]);
                return true;
            }
            i = i + 1;
        }
        false
    }

    /// Width of the fused QKV stream the conv runs over: Q and K at `n_k_heads`
    /// heads each, V at `n_v_heads`.
    pub fn conv_dim(&self) -> (r: usize)
        requires
            2 * self.n_k_heads <= usize::MAX,
            self.conv_width() <= usize::MAX,
        ensures
            r == self.conv_width(),
    {
        assert(0 <= 2 * self.n_k_heads * self.lin_head_dim) by (nonlinear_arith);
        2 * self.n_k_heads * self.lin_head_dim + self.d_inner
    }

    /// Query heads per KV head on full-attention layers.
    pub fn gqa_group(&self) -> (r: usize)
        requires
            self.n_kv_heads > 0,
        ensures
            r == self.n_heads / self.n_kv_heads,
    {
        self.n_heads / self.n_kv_heads
    }

    pub open spec fn kv_width(&self) -> int {
        self.n_kv_heads * self.head_dim
    }

    pub fn kv_dim(&self) -> (r: usize)
        requires
            self.kv_width() <= usize::MAX,
        ensures
            r == self.kv_width(),
    {
        self.n_kv_heads * self.head_dim
    }

    /// Per-head stride of the `attn_q` projection: query, plus the output gate
    /// when the checkpoint fuses one in.
    pub fn q_stride(&self) -> (r: usize)
        requires
            self.query_gate ==> 2 * self.head_dim <= usize::MAX,
        ensures
            r == if self.query_gate {
                2 * self.head_dim
            } else {
                self.head_dim as int
            },
    {
        if self.query_gate {
            2 * self.head_dim
        } else {
            self.head_dim
        }
    }
}

fn recurrent_layers(h: &Header, hy: bool, n_layers: usize) -> (r: Result<Vec<bool>, ConfigError>)
    requires
        hy == hybrid(h@),
        n_layers == main_layers(h@),
    ensures
        match r {
            Ok(v) => if_hybrid(h@, recurrent_error(h@)) is None && v@ == Seq::new(
                n_layers as nat,
                |i: int| is_recurrent(h@, i),
            ),
            Err(e) => if_hybrid(h@, recurrent_error(h@)) == Some(e@),
        },
{
    let mut out: Vec<bool> = Vec::new();
    let explicit = if hy {
        h.bool_array(key_string(hy, ".attention.recurrent_layers").as_str())
    } else {
        Ok(Vec::new())
    };
    let every: usize = match h.usize(key_string(hy, ".full_attention_interval").as_str()) {
        Ok(v) => v,
        Err(_) => 4,
    };
    if hy {
        match &explicit {
            Ok(v) => {
                if v.len() < n_layers {
                    return Err(
                        ConfigError::Mismatch {
                            what: "recurrent_layers",
                            got: v.len(),
                            want: n_layers,
                        },
                    );
                }
            },
            Err(_) => {
                if every == 0 {
                    return Err(
                        ConfigError::Mismatch { what: "full_attention_interval", got: 0, want: 1 },
                    );
                }
            },
        }
    }
    let mut i: usize = 0;
    while i < n_layers
        invariant
            i <= n_layers,
            hy == hybrid(h@),
            hy ==> (explicit is Ok <==> listed(h@) is Ok),
            hy && explicit is Ok ==> explicit->Ok_0@ == listed(h@)->Ok_0,
            hy && explicit is Ok ==> explicit->Ok_0@.len() >= n_layers,
            hy && explicit is Err ==> every != 0,
            every == interval(h@),
            out@ == Seq::new(i as nat, |k: int| is_recurrent(h@, k)),
        decreases n_layers - i,
    {
        let b: bool = if !hy {
            false
        } else {
            match &explicit {
                Ok(v) => v[i],
                Err(_) => (i + 1) % every != 0,
            }
        };
        out.push(b);
        i = i + 1;
        assert(out@ =~= Seq::new(i as nat, |k: int| is_recurrent(h@, k)));
    }
    Ok(out)
}

// ---------------------------------------------------------------------------
// Laws
// ---------------------------------------------------------------------------
/// Each number of a description is the file's number of that name, under the file's own
/// architecture. The blocks that only predict ahead are left out.
pub proof fn numbers_are_read_under_their_names(h: HeaderView, c: Config, a: Seq<char>)
    requires
        c.describes(h),
        first_error(config_errors(h)) is None,
        meta_str(h, "general.architecture"@) == Ok::<Seq<char>, ErrorView>(a),
    ensures
        a == "qwen35"@ || a == "qwen3"@,
        meta_u64(h, a + ".block_count"@) matches Ok(n) && c.n_layers == n as usize - (match meta_u64(
            h,
            a + ".nextn_predict_layers"@,
        ) {
            Ok(k) => k as usize,
            Err(_) => 0usize,
        }),
        c.n_layers > 0,
        meta_u64(h, a + ".embedding_length"@) matches Ok(n) && c.d_model == n as usize,
        meta_u64(h, a + ".feed_forward_length"@) matches Ok(n) && c.ffn_dim == n as usize,
        meta_u64(h, a + ".attention.head_count"@) matches Ok(n) && c.n_heads == n as usize,
        meta_u64(h, a + ".attention.head_count_kv"@) matches Ok(n) && c.n_kv_heads == n as usize,
        meta_u64(h, a + ".attention.key_length"@) matches Ok(n) && c.head_dim == n as usize,
        meta_u64(h, a + ".attention.value_length"@) matches Ok(n) && c.head_dim == n as usize,
        meta_float(h, a + ".attention.layer_norm_rms_epsilon"@) matches Ok(e) && c.rms_eps == e,
        meta_float(h, a + ".rope.freq_base"@) matches Ok(e) && c.rope_base == e,
        meta_u64(h, a + ".rope.dimension_count"@) matches Ok(n) ==> c.n_rot == n as usize,
        meta_u64(h, a + ".rope.dimension_count"@) is Err ==> c.n_rot == c.head_dim,
        meta_u64(h, a + ".context_length"@) matches Ok(n) ==> c.context_length == n as usize,
        meta_u64(h, "tokenizer.ggml.bos_token_id"@) matches Ok(n) ==> c.bos == n as u32,
        meta_u64(h, "tokenizer.ggml.eos_token_id"@) matches Ok(n) ==> c.eos == n as u32,
        tensor_named(h, "token_embd.weight"@) matches Some(t) && c.vocab == t.outer(),
        c.query_gate <==> a == "qwen35"@,
{
    lemma_accepted(h);
}

/// Where the stack is a hybrid, the numbers of its recurrent layers agree with each
/// other: the inner width is that of the value heads, and these spread evenly over the key
/// heads.
pub proof fn recurrent_numbers_agree(h: HeaderView, c: Config)
    requires
        c.describes(h),
        first_error(config_errors(h)) is None,
        meta_str(h, "general.architecture"@) == Ok::<Seq<char>, ErrorView>("qwen35"@),
    ensures
        meta_u64(h, "qwen35"@ + ".ssm.conv_kernel"@) matches Ok(n) && c.conv_kernel == n as usize,
        meta_u64(h, "qwen35"@ + ".ssm.state_size"@) matches Ok(n) && c.lin_head_dim == n as usize,
        meta_u64(h, "qwen35"@ + ".ssm.group_count"@) matches Ok(n) && c.n_k_heads == n as usize,
        meta_u64(h, "qwen35"@ + ".ssm.time_step_rank"@) matches Ok(n) && c.n_v_heads == n as usize,
        meta_u64(h, "qwen35"@ + ".ssm.inner_size"@) matches Ok(n) && c.d_inner == n as usize,
        c.d_inner == c.n_v_heads * c.lin_head_dim,
        c.n_k_heads > 0,
        c.n_v_heads as int % c.n_k_heads as int == 0,
{
    lemma_accepted(h);
}

/// A layer recurs as the file lists it; where it lists none, all recur but the last of
/// every interval, which is four layers long unless the file says otherwise. In a stack
/// that is no hybrid none recurs.
pub proof fn layers_recur_as_the_file_says(h: HeaderView, c: Config, a: Seq<char>, i: int)
    requires
        c.describes(h),
        first_error(config_errors(h)) is None,
        meta_str(h, "general.architecture"@) == Ok::<Seq<char>, ErrorView>(a),
        0 <= i < c.n_layers,
    ensures
        c.recurrent@.len() == c.n_layers,
        a == "qwen3"@ && a != "qwen35"@ ==> !c.recurrent@[i],
        a == "qwen35"@ ==> match meta_bools(h, a + ".attention.recurrent_layers"@) {
            Ok(v) => i < v.len() && c.recurrent@[i] == v[i],
            Err(_) => {
                let every = match meta_u64(h, a + ".full_attention_interval"@) {
                    Ok(n) => n as usize,
                    Err(_) => 4usize,
                };
                every > 0 && (c.recurrent@[i] <==> (i + 1) % (every as int) != 0)
            },
        },
{
    lemma_accepted(h);
}

proof fn lemma_accepted(h: HeaderView)
    requires
        first_error(config_errors(h)) is None,
    ensures
        forall|j: int|
            0 <= j < config_errors(h).len() ==> #[trigger] config_errors(h)[j] is None,
        config_errors(h).len() == 22,
        config_errors(h)[0] is None && config_errors(h)[1] is None && config_errors(h)[2] is None,
        config_errors(h)[3] is None && config_errors(h)[4] is None && config_errors(h)[5] is None,
        config_errors(h)[6] is None && config_errors(h)[7] is None && config_errors(h)[8] is None,
        config_errors(h)[9] is None && config_errors(h)[10] is None && config_errors(h)[11] is None,
        config_errors(h)[12] is None && config_errors(h)[13] is None,
        config_errors(h)[14] is None && config_errors(h)[15] is None,
        config_errors(h)[16] is None && config_errors(h)[17] is None,
        config_errors(h)[18] is None && config_errors(h)[19] is None,
        config_errors(h)[20] is None && config_errors(h)[21] is None,
{
    no_error_exactly_when(config_errors(h));
}

} // verus!
