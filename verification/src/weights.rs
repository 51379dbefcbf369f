//! Borrowed handles to every tensor that the forward pass needs.
//!
//! Nothing is copied: each field is a [`TensorView`] into the mapped file.
//! Resolving all names up front turns a typo into a load-time error instead of a
//! failure 40 layers into a generation.

use crate::config::Config;
use crate::cpu::within;
use crate::gguf::{Error, ErrorView, FloatBits, GgmlType};
use crate::gpu::arena::{lemma_named, tensor_named};
use crate::header::{Gguf, HeaderView, TensorInfoView, TensorView};
use crate::text::{self, numbered};
use vstd::prelude::*;

verus! {

#[derive(Debug)]
pub enum WeightsError {
    Gguf(Error),
    /// A tensor that must be dense single precision is not.
    NotF32 { name: String, ty: GgmlType },
    /// The scale at the end of a block is not one number.
    NotScalar { layer: usize },
    /// A length or a side of a matrix is not what the description says.
    Length { layer: Option<usize>, what: &'static str, got: usize, want: usize },
    /// A matrix is not what the description says.
    Matrix {
        layer: Option<usize>,
        what: &'static str,
        got_in: usize,
        got_out: usize,
        want_in: usize,
        want_out: usize,
    },
    /// Whether there is a V projection disagrees with the description.
    ValueProjection { layer: usize },
}

#[verifier::ext_equal]
pub ghost enum WeightsErrorView {
    Gguf(ErrorView),
    NotF32 { name: Seq<char>, ty: GgmlType },
    NotScalar { layer: int },
    Length { layer: Option<int>, what: Seq<char>, got: int, want: int },
    Matrix {
        layer: Option<int>,
        what: Seq<char>,
        got_in: int,
        got_out: int,
        want_in: int,
        want_out: int,
    },
    ValueProjection { layer: int },
}

pub open spec fn opt_int(x: Option<usize>) -> Option<int> {
    match x {
        Some(i) => Some(i as int),
        None => None,
    }
}

impl View for WeightsError {
    type V = WeightsErrorView;

    open spec fn view(&self) -> WeightsErrorView {
        match self {
            WeightsError::Gguf(e) => WeightsErrorView::Gguf(e@),
            WeightsError::NotF32 { name, ty } => WeightsErrorView::NotF32 { name: name@, ty: *ty },
            WeightsError::NotScalar { layer } => WeightsErrorView::NotScalar {
                layer: *layer as int,
            },
            WeightsError::Length { layer, what, got, want } => WeightsErrorView::Length {
                layer: opt_int(*layer),
                what: what@,
                got: *got as int,
                want: *want as int,
            },
            WeightsError::Matrix { layer, what, got_in, got_out, want_in, want_out } => {
                WeightsErrorView::Matrix {
                    layer: opt_int(*layer),
                    what: what@,
                    got_in: *got_in as int,
                    got_out: *got_out as int,
                    want_in: *want_in as int,
                    want_out: *want_out as int,
                }
            },
            WeightsError::ValueProjection { layer } => WeightsErrorView::ValueProjection {
                layer: *layer as int,
            },
        }
    }
}

/// What may have gone wrong.
pub type Fault = Option<WeightsErrorView>;

/// The first of two faults.
pub open spec fn or(a: Fault, b: Fault) -> Fault {
    if a is Some {
        a
    } else {
        b
    }
}

/// A result is its value where nothing went wrong, else what did.
pub open spec fn faults<T>(r: Result<T, WeightsError>, f: Fault) -> bool {
    match r {
        Ok(_) => f is None,
        Err(e) => f == Some(e@),
    }
}

// ---------------------------------------------------------------------------
// Lookups
// ---------------------------------------------------------------------------
/// `t` is the tensor of this name.
pub open spec fn holds(g: Gguf<'_>, t: TensorView<'_>, name: Seq<char>) -> bool {
    &&& tensor_named(g.header@, name) == Some(t.info@)
    &&& t.data@ == g.data_of(t.info@)
    &&& t.data@.len() == t.info@.bytes()
    &&& t.info@.countable()
}

/// A tensor that must be there.
pub open spec fn absent(h: HeaderView, name: Seq<char>) -> Fault {
    if tensor_named(h, name) is Some {
        None
    } else {
        Some(WeightsErrorView::Gguf(ErrorView::NoTensor(name)))
    }
}

/// A tensor that must be there, in single precision.
pub open spec fn not_dense(h: HeaderView, name: Seq<char>) -> Fault {
    match tensor_named(h, name) {
        Some(t) => if t.ty == GgmlType::F32 {
            None
        } else {
            Some(WeightsErrorView::NotF32 { name, ty: t.ty })
        },
        None => Some(WeightsErrorView::Gguf(ErrorView::NoTensor(name))),
    }
}

pub(crate) fn tensor<'a>(g: &'a Gguf<'a>, name: &str) -> (r: Result<TensorView<'a>, WeightsError>)
    requires
        g.wf(),
    ensures
        faults(r, absent(g.header@, name@)),
        r is Ok ==> holds(*g, r->Ok_0, name@),
{
    match g.tensor(name) {
        Ok(t) => {
            proof {
                lemma_named(g.header@, name@, t.info@);
            }
            Ok(t)
        },
        Err(e) => Err(WeightsError::Gguf(e)),
    }
}

pub(crate) fn dense<'a>(g: &'a Gguf<'a>, name: &str) -> (r: Result<TensorView<'a>, WeightsError>)
    requires
        g.wf(),
    ensures
        faults(r, not_dense(g.header@, name@)),
        r is Ok ==> holds(*g, r->Ok_0, name@) && r->Ok_0.info.ty == GgmlType::F32,
{
    let t = tensor(g, name)?;
    match t.ty() {
        GgmlType::F32 => Ok(t),
        ty => Err(WeightsError::NotF32 { name: name.to_owned(), ty }),
    }
}

pub(crate) fn optional<'a>(g: &'a Gguf<'a>, name: &str) -> (r: Option<TensorView<'a>>)
    requires
        g.wf(),
    ensures
        match r {
            Some(t) => holds(*g, t, name@),
            None => tensor_named(g.header@, name@) is None,
        },
{
    match g.tensor_opt(name) {
        Some(t) => {
            proof {
                lemma_named(g.header@, name@, t.info@);
            }
            Some(t)
        },
        None => None,
    }
}

/// The matrix that turns hidden states into logits: its own, or the embedding's.
pub(crate) fn output_or<'a>(g: &'a Gguf<'a>, embd: TensorView<'a>) -> (r: TensorView<'a>)
    requires
        g.wf(),
        holds(*g, embd, "token_embd.weight"@),
    ensures
        holds(*g, r, output_name(g.header@)),
{
    match optional(g, "output.weight") {
        Some(t) => t,
        None => embd,
    }
}

/// Tied to the embedding where the file ships no separate output matrix.
pub open spec fn output_name(h: HeaderView) -> Seq<char> {
    if tensor_named(h, "output.weight"@) is Some {
        "output.weight"@
    } else {
        "token_embd.weight"@
    }
}

/// A tensor of block `i`.
pub open spec fn blk(i: int, s: Seq<char>) -> Seq<char> {
    numbered("blk."@, i as nat, s)
}

pub(crate) fn blk_name(i: usize, s: &str) -> (r: String)
    ensures
        r@ == blk(i as int, s@),
{
    text::numbered_string("blk.", i, s)
}

/// The tensor of block `i` with this name, as `tensor` finds it.
pub(crate) fn blk_tensor<'a>(
    g: &'a Gguf<'a>,
    i: usize,
    s: &str,
) -> (r: Result<TensorView<'a>, WeightsError>)
    requires
        g.wf(),
    ensures
        faults(r, absent(g.header@, blk(i as int, s@))),
        r is Ok ==> holds(*g, r->Ok_0, blk(i as int, s@)),
{
    tensor(g, blk_name(i, s).as_str())
}

/// The tensor of block `i` with this name, as `dense` finds it.
pub(crate) fn blk_dense<'a>(
    g: &'a Gguf<'a>,
    i: usize,
    s: &str,
) -> (r: Result<TensorView<'a>, WeightsError>)
    requires
        g.wf(),
    ensures
        faults(r, not_dense(g.header@, blk(i as int, s@))),
        r is Ok ==> holds(*g, r->Ok_0, blk(i as int, s@)) && r->Ok_0.info.ty == GgmlType::F32,
{
    dense(g, blk_name(i, s).as_str())
}

// ---------------------------------------------------------------------------
// Checks
// ---------------------------------------------------------------------------
pub open spec fn wrong_length(layer: Option<int>, what: Seq<char>, got: int, want: int) -> Fault {
    if got == want {
        None
    } else {
        Some(WeightsErrorView::Length { layer, what, got, want })
    }
}

pub(crate) fn check_length(
    layer: Option<usize>,
    what: &'static str,
    got: usize,
    want: usize,
) -> (r: Result<(), WeightsError>)
    ensures
        faults(r, wrong_length(opt_int(layer), what@, got as int, want as int)),
{
    if got == want {
        Ok(())
    } else {
        Err(WeightsError::Length { layer, what, got, want })
    }
}

pub open spec fn wrong_matrix(
    layer: Option<int>,
    what: Seq<char>,
    t: TensorInfoView,
    want_in: int,
    want_out: int,
) -> Fault {
    if t.inner() == want_in && t.outer() == want_out {
        None
    } else {
        Some(
            WeightsErrorView::Matrix {
                layer,
                what,
                got_in: t.inner() as int,
                got_out: t.outer() as int,
                want_in,
                want_out,
            },
        )
    }
}

fn check_matrix(
    layer: Option<usize>,
    what: &'static str,
    t: &TensorView<'_>,
    want_in: usize,
    want_out: usize,
) -> (r: Result<(), WeightsError>)
    ensures
        faults(
            r,
            wrong_matrix(opt_int(layer), what@, t.info@, want_in as int, want_out as int),
        ),
{
    let got_in: usize = t.in_dim();
    let got_out: usize = t.out_dim();
    if got_in == want_in && got_out == want_out {
        Ok(())
    } else {
        Err(WeightsError::Matrix { layer, what, got_in, got_out, want_in, want_out })
    }
}

// ---------------------------------------------------------------------------
// Weights
// ---------------------------------------------------------------------------
/// The projections that a layer needs to *produce* K and V.
///
/// Absent on layers that share an earlier layer's cache: those project Q only and
/// never write. Such layers may still carry the tensors in the file, but nothing
/// reads them.
pub struct KvWeights<'a> {
    pub attn_k: TensorView<'a>,
    /// Absent where V reuses the K projection.
    pub attn_v: Option<TensorView<'a>>,
    pub attn_k_norm: TensorView<'a>,
}

impl<'a> KvWeights<'a> {
    /// The projection that produces V. Where the file ships none this is the *K*
    /// weight; the two differ only in the normalization applied after.
    pub fn v_proj(&self) -> (r: TensorView<'a>)
        ensures
            r == match self.attn_v {
                Some(v) => v,
                None => self.attn_k,
            },
    {
        match self.attn_v {
            Some(v) => v,
            None => self.attn_k,
        }
    }
}

/// Per-layer-embedding weights for one block.
pub struct PerLayerWeights<'a> {
    pub inp_gate: TensorView<'a>,
    pub proj: TensorView<'a>,
    pub post_norm: TensorView<'a>,
}

pub struct LayerWeights<'a> {
    pub attn_norm: TensorView<'a>,
    pub attn_q: TensorView<'a>,
    pub attn_q_norm: TensorView<'a>,
    /// `None` on layers that attend into an earlier layer's cache.
    pub kv: Option<KvWeights<'a>>,
    pub attn_output: TensorView<'a>,
    pub post_attention_norm: TensorView<'a>,
    pub ffn_norm: TensorView<'a>,
    pub ffn_gate: TensorView<'a>,
    pub ffn_up: TensorView<'a>,
    pub ffn_down: TensorView<'a>,
    pub post_ffw_norm: TensorView<'a>,
    /// `None` on checkpoints without per-layer embeddings.
    pub per_layer: Option<PerLayerWeights<'a>>,
    /// Scalar applied to the whole residual stream at the end of the block.
    pub output_scale: FloatBits,
}

/// Model-level per-layer-embedding tables.
pub struct PleWeights<'a> {
    /// One small vector per layer per token, looked up rather than computed.
    pub token_embd: TensorView<'a>,
    pub model_proj: TensorView<'a>,
    pub proj_norm: TensorView<'a>,
}

pub struct Weights<'a> {
    pub token_embd: TensorView<'a>,
    pub output_norm: TensorView<'a>,
    /// Tied to `token_embd` when the file ships no separate output matrix.
    pub output: TensorView<'a>,
    pub ple: Option<PleWeights<'a>>,
    pub layers: Vec<LayerWeights<'a>>,
}

/// Four bytes as the bits of a number, least significant first.
pub open spec fn bits_at(b: Seq<u8>, i: int) -> u32 {
    (b[i] as u32 | (b[i + 1] as u32) << 8 | (b[i + 2] as u32) << 16 | (b[i + 3] as u32) << 24)
}

/// What is missing of the K and V projections of block `i`.
pub open spec fn kv_fault(h: HeaderView, cfg: Config, i: int) -> Fault {
    if cfg.layers@[i].kv_source == i {
        or(absent(h, blk(i, ".attn_k.weight"@)), not_dense(h, blk(i, ".attn_k_norm.weight"@)))
    } else {
        None
    }
}

/// What is missing of the per-layer embedding of block `i`.
pub open spec fn per_layer_fault(h: HeaderView, cfg: Config, i: int) -> Fault {
    if cfg.n_embd_per_layer > 0 {
        or(
            absent(h, blk(i, ".inp_gate.weight"@)),
            or(absent(h, blk(i, ".proj.weight"@)), not_dense(h, blk(i, ".post_norm.weight"@))),
        )
    } else {
        None
    }
}

/// What is wrong with the scale of block `i`.
pub open spec fn scale_fault(h: HeaderView, i: int) -> Fault {
    let name = blk(i, ".layer_output_scale.weight"@);
    or(
        not_dense(h, name),
        if tensor_named(h, name)->0.elems() == 1 {
            None
        } else {
            Some(WeightsErrorView::NotScalar { layer: i })
        },
    )
}

/// What is missing of block `i`, in the order in which it is looked up.
pub open spec fn layer_fault(h: HeaderView, cfg: Config, i: int) -> Fault {
    or(
        kv_fault(h, cfg, i),
        or(
            per_layer_fault(h, cfg, i),
            or(
                scale_fault(h, i),
                or(
                    not_dense(h, blk(i, ".attn_norm.weight"@)),
                    or(
                        absent(h, blk(i, ".attn_q.weight"@)),
                        or(
                            not_dense(h, blk(i, ".attn_q_norm.weight"@)),
                            or(
                                absent(h, blk(i, ".attn_output.weight"@)),
                                or(
                                    not_dense(h, blk(i, ".post_attention_norm.weight"@)),
                                    ffn_fault(h, i),
                                ),
                            ),
                        ),
                    ),
                ),
            ),
        ),
    )
}

pub open spec fn ffn_fault(h: HeaderView, i: int) -> Fault {
    or(
        not_dense(h, blk(i, ".ffn_norm.weight"@)),
        or(
            absent(h, blk(i, ".ffn_gate.weight"@)),
            or(
                absent(h, blk(i, ".ffn_up.weight"@)),
                or(
                    absent(h, blk(i, ".ffn_down.weight"@)),
                    not_dense(h, blk(i, ".post_ffw_norm.weight"@)),
                ),
            ),
        ),
    )
}

/// What is missing of the first `n` blocks.
pub open spec fn layers_fault(h: HeaderView, cfg: Config, n: int) -> Fault
    decreases n,
{
    if n <= 0 {
        None
    } else {
        or(layers_fault(h, cfg, n - 1), layer_fault(h, cfg, n - 1))
    }
}

pub open spec fn ple_fault(h: HeaderView, cfg: Config) -> Fault {
    if cfg.n_embd_per_layer > 0 {
        or(
            absent(h, "per_layer_token_embd.weight"@),
            or(
                absent(h, "per_layer_model_proj.weight"@),
                not_dense(h, "per_layer_proj_norm.weight"@),
            ),
        )
    } else {
        None
    }
}

/// What is missing of the model.
pub open spec fn load_fault(h: HeaderView, cfg: Config) -> Fault {
    or(
        absent(h, "token_embd.weight"@),
        or(
            ple_fault(h, cfg),
            or(
                layers_fault(h, cfg, cfg.n_layers as int),
                not_dense(h, "output_norm.weight"@),
            ),
        ),
    )
}

impl<'a> KvWeights<'a> {
    pub open spec fn of(self, g: Gguf<'_>, i: int) -> bool {
        &&& holds(g, self.attn_k, blk(i, ".attn_k.weight"@))
        &&& holds(g, self.attn_k_norm, blk(i, ".attn_k_norm.weight"@))
        &&& match self.attn_v {
            Some(v) => holds(g, v, blk(i, ".attn_v.weight"@)),
            None => tensor_named(g.header@, blk(i, ".attn_v.weight"@)) is None,
        }
    }
}

impl<'a> LayerWeights<'a> {
    /// These are the weights of block `i`.
    pub open spec fn of(self, g: Gguf<'_>, cfg: Config, i: int) -> bool {
        let scale = tensor_named(g.header@, blk(i, ".layer_output_scale.weight"@))->0;
        &&& holds(g, self.attn_norm, blk(i, ".attn_norm.weight"@))
        &&& holds(g, self.attn_q, blk(i, ".attn_q.weight"@))
        &&& holds(g, self.attn_q_norm, blk(i, ".attn_q_norm.weight"@))
        &&& (self.kv is Some <==> cfg.layers@[i].kv_source == i)
        &&& (self.kv is Some ==> self.kv->0.of(g, i))
        &&& holds(g, self.attn_output, blk(i, ".attn_output.weight"@))
        &&& holds(g, self.post_attention_norm, blk(i, ".post_attention_norm.weight"@))
        &&& holds(g, self.ffn_norm, blk(i, ".ffn_norm.weight"@))
        &&& holds(g, self.ffn_gate, blk(i, ".ffn_gate.weight"@))
        &&& holds(g, self.ffn_up, blk(i, ".ffn_up.weight"@))
        &&& holds(g, self.ffn_down, blk(i, ".ffn_down.weight"@))
        &&& holds(g, self.post_ffw_norm, blk(i, ".post_ffw_norm.weight"@))
        &&& (self.per_layer is Some <==> cfg.n_embd_per_layer > 0)
        &&& (self.per_layer is Some ==> self.per_layer->0.of(g, i))
        &&& self.output_scale == FloatBits::Single(bits_at(g.data_of(scale), 0))
    }
}

impl<'a> PerLayerWeights<'a> {
    pub open spec fn of(self, g: Gguf<'_>, i: int) -> bool {
        &&& holds(g, self.inp_gate, blk(i, ".inp_gate.weight"@))
        &&& holds(g, self.proj, blk(i, ".proj.weight"@))
        &&& holds(g, self.post_norm, blk(i, ".post_norm.weight"@))
    }
}

impl<'a> PleWeights<'a> {
    pub open spec fn of(self, g: Gguf<'_>) -> bool {
        &&& holds(g, self.token_embd, "per_layer_token_embd.weight"@)
        &&& holds(g, self.model_proj, "per_layer_model_proj.weight"@)
        &&& holds(g, self.proj_norm, "per_layer_proj_norm.weight"@)
    }
}

fn load_kv<'a>(g: &'a Gguf<'a>, cfg: &Config, i: usize) -> (r: Result<
    Option<KvWeights<'a>>,
    WeightsError,
>)
    requires
        g.wf(),
        i < cfg.layers@.len(),
    ensures
        faults(r, kv_fault(g.header@, *cfg, i as int)),
        r matches Ok(kv) ==> (kv is Some <==> cfg.layers@[i as int].kv_source == i) && (kv is Some
            ==> kv->0.of(*g, i as int)),
{
    if cfg.layers[i].owns_kv(i) {
        let attn_k = blk_tensor(g, i, ".attn_k.weight")?;
        let attn_v = optional(g, blk_name(i, ".attn_v.weight").as_str());
        let attn_k_norm = blk_dense(g, i, ".attn_k_norm.weight")?;
        Ok(Some(KvWeights { attn_k, attn_v, attn_k_norm }))
    } else {
        Ok(None)
    }
}

fn load_per_layer<'a>(g: &'a Gguf<'a>, cfg: &Config, i: usize) -> (r: Result<
    Option<PerLayerWeights<'a>>,
    WeightsError,
>)
    requires
        g.wf(),
    ensures
        faults(r, per_layer_fault(g.header@, *cfg, i as int)),
        r matches Ok(p) ==> (p is Some <==> cfg.n_embd_per_layer > 0) && (p is Some ==> p->0.of(
            *g,
            i as int,
        )),
{
    if cfg.n_embd_per_layer > 0 {
        let inp_gate = blk_tensor(g, i, ".inp_gate.weight")?;
        let proj = blk_tensor(g, i, ".proj.weight")?;
        let post_norm = blk_dense(g, i, ".post_norm.weight")?;
        Ok(Some(PerLayerWeights { inp_gate, proj, post_norm }))
    } else {
        Ok(None)
    }
}

fn load_scale<'a>(g: &'a Gguf<'a>, i: usize) -> (r: Result<FloatBits, WeightsError>)
    requires
        g.wf(),
    ensures
        faults(r, scale_fault(g.header@, i as int)),
        r matches Ok(f) ==> f == FloatBits::Single(
            bits_at(
                g.data_of(
                    tensor_named(g.header@, blk(i as int, ".layer_output_scale.weight"@))->0,
                ),
                0,
            ),
        ),
{
    let t = blk_dense(g, i, ".layer_output_scale.weight")?;
    if t.elem_count() != 1 {
        return Err(WeightsError::NotScalar { layer: i });
    }
    let b = t.data;
    assert(b@.len() == 4) by {
        let n = t.info@.elems();
        assert(n == 1);
        assert(t.info@.ty == GgmlType::F32);
        let e = GgmlType::F32.elems();
        let k = GgmlType::F32.block();
        assert(1nat / e * k == 4) by (nonlinear_arith)
            requires
                e == 1,
                k == 4,
        ;
    }
    Ok(
        FloatBits::Single(
            b[0] as u32 | (b[1] as u32) << 8 | (b[2] as u32) << 16 | (b[3] as u32) << 24,
        ),
    )
}

fn load_layer<'a>(g: &'a Gguf<'a>, cfg: &Config, i: usize) -> (r: Result<
    LayerWeights<'a>,
    WeightsError,
>)
    requires
        g.wf(),
        i < cfg.layers@.len(),
    ensures
        faults(r, layer_fault(g.header@, *cfg, i as int)),
        r is Ok ==> r->Ok_0.of(*g, *cfg, i as int),
{
    let kv = load_kv(g, cfg, i)?;
    let per_layer = load_per_layer(g, cfg, i)?;
    let output_scale = load_scale(g, i)?;
    let attn_norm = blk_dense(g, i, ".attn_norm.weight")?;
    let attn_q = blk_tensor(g, i, ".attn_q.weight")?;
    let attn_q_norm = blk_dense(g, i, ".attn_q_norm.weight")?;
    let attn_output = blk_tensor(g, i, ".attn_output.weight")?;
    let post_attention_norm = blk_dense(g, i, ".post_attention_norm.weight")?;
    let ffn_norm = blk_dense(g, i, ".ffn_norm.weight")?;
    let ffn_gate = blk_tensor(g, i, ".ffn_gate.weight")?;
    let ffn_up = blk_tensor(g, i, ".ffn_up.weight")?;
    let ffn_down = blk_tensor(g, i, ".ffn_down.weight")?;
    let post_ffw_norm = blk_dense(g, i, ".post_ffw_norm.weight")?;
    Ok(
        LayerWeights {
            attn_norm,
            attn_q,
            attn_q_norm,
            kv,
            attn_output,
            post_attention_norm,
            ffn_norm,
            ffn_gate,
            ffn_up,
            ffn_down,
            post_ffw_norm,
            per_layer,
            output_scale,
        },
    )
}

fn load_ple<'a>(g: &'a Gguf<'a>, cfg: &Config) -> (r: Result<Option<PleWeights<'a>>, WeightsError>)
    requires
        g.wf(),
    ensures
        faults(r, ple_fault(g.header@, *cfg)),
        r matches Ok(p) ==> (p is Some <==> cfg.n_embd_per_layer > 0) && (p is Some ==> p->0.of(
            *g,
        )),
{
    if cfg.n_embd_per_layer > 0 {
        let token_embd = tensor(g, "per_layer_token_embd.weight")?;
        let model_proj = tensor(g, "per_layer_model_proj.weight")?;
        let proj_norm = dense(g, "per_layer_proj_norm.weight")?;
        Ok(Some(PleWeights { token_embd, model_proj, proj_norm }))
    } else {
        Ok(None)
    }
}

// ---------------------------------------------------------------------------
// Shapes
// ---------------------------------------------------------------------------
/// What is wrong with the shapes of the per-layer embedding tables.
pub open spec fn ple_shape_fault(w: Weights<'_>, cfg: Config) -> Fault {
    match w.ple {
        Some(p) => {
            let per_token = cfg.n_embd_per_layer * cfg.n_layers;
            or(
                wrong_length(
                    None,
                    "per_layer_token_embd.in"@,
                    p.token_embd.info@.inner() as int,
                    per_token,
                ),
                or(
                    wrong_matrix(
                        None,
                        "per_layer_model_proj"@,
                        p.model_proj.info@,
                        cfg.d_model as int,
                        per_token,
                    ),
                    wrong_length(
                        None,
                        "per_layer_proj_norm.len"@,
                        p.proj_norm.info@.elems() as int,
                        cfg.n_embd_per_layer as int,
                    ),
                ),
            )
        },
        None => None,
    }
}

/// What is wrong with the shapes of the K and V projections of block `i`.
pub open spec fn kv_shape_fault(kv: KvWeights<'_>, cfg: Config, i: int) -> Fault {
    let lc = cfg.layers@[i];
    or(
        wrong_length(
            Some(i),
            "attn_k.out"@,
            kv.attn_k.info@.outer() as int,
            lc.kv_width(),
        ),
        or(
            wrong_length(
                Some(i),
                "attn_k_norm.len"@,
                kv.attn_k_norm.info@.elems() as int,
                lc.head_dim as int,
            ),
            or(
                match kv.attn_v {
                    Some(v) => wrong_length(
                        Some(i),
                        "attn_v.out"@,
                        v.info@.outer() as int,
                        lc.kv_width(),
                    ),
                    None => None,
                },
                if (kv.attn_v is None) == lc.v_from_k {
                    None
                } else {
                    Some(WeightsErrorView::ValueProjection { layer: i })
                },
            ),
        ),
    )
}

/// What is wrong with the shapes of the per-layer embedding of block `i`.
pub open spec fn per_layer_shape_fault(p: PerLayerWeights<'_>, cfg: Config, i: int) -> Fault {
    let d = cfg.d_model as int;
    let e = cfg.n_embd_per_layer as int;
    or(
        wrong_matrix(Some(i), "inp_gate"@, p.inp_gate.info@, d, e),
        or(
            wrong_matrix(Some(i), "proj"@, p.proj.info@, e, d),
            wrong_length(Some(i), "post_norm.len"@, p.post_norm.info@.elems() as int, d),
        ),
    )
}

/// What is wrong with the shapes of block `i`.
pub open spec fn layer_shape_fault(w: LayerWeights<'_>, cfg: Config, i: int) -> Fault {
    let d = cfg.d_model as int;
    let q_dim = cfg.n_heads * cfg.layers@[i].head_dim;
    or(
        wrong_length(Some(i), "attn_q.out"@, w.attn_q.info@.outer() as int, q_dim),
        or(
            wrong_length(Some(i), "attn_output.in"@, w.attn_output.info@.inner() as int, q_dim),
            or(
                wrong_length(Some(i), "attn_output.out"@, w.attn_output.info@.outer() as int, d),
                or(
                    wrong_length(
                        Some(i),
                        "ffn_gate.out"@,
                        w.ffn_gate.info@.outer() as int,
                        cfg.ffn_dim as int,
                    ),
                    or(
                        wrong_length(
                            Some(i),
                            "ffn_down.out"@,
                            w.ffn_down.info@.outer() as int,
                            d,
                        ),
                        or(
                            wrong_length(
                                Some(i),
                                "attn_q_norm.len"@,
                                w.attn_q_norm.info@.elems() as int,
                                cfg.layers@[i].head_dim as int,
                            ),
                            or(
                                match w.kv {
                                    Some(kv) => kv_shape_fault(kv, cfg, i),
                                    None => None,
                                },
                                match w.per_layer {
                                    Some(p) => per_layer_shape_fault(p, cfg, i),
                                    None => None,
                                },
                            ),
                        ),
                    ),
                ),
            ),
        ),
    )
}

/// What is wrong with the shapes of the first `n` blocks.
pub open spec fn layers_shape_fault(w: Seq<LayerWeights<'_>>, cfg: Config, n: int) -> Fault
    decreases n,
{
    if n <= 0 {
        None
    } else {
        or(layers_shape_fault(w, cfg, n - 1), layer_shape_fault(w[n - 1], cfg, n - 1))
    }
}

/// What is wrong with the shapes.
pub open spec fn shape_fault(w: Weights<'_>, cfg: Config) -> Fault {
    or(
        wrong_length(
            None,
            "token_embd.in"@,
            w.token_embd.info@.inner() as int,
            cfg.d_model as int,
        ),
        or(
            ple_shape_fault(w, cfg),
            layers_shape_fault(w.layers@, cfg, w.layers@.len() as int),
        ),
    )
}

/// The widths that the description implies can be computed.
pub open spec fn widths_fit(cfg: Config) -> bool {
    &&& cfg.layers@.len() == cfg.n_layers
    &&& cfg.n_embd_per_layer * cfg.n_layers <= usize::MAX
    &&& forall|i: int|
        0 <= i < cfg.n_layers ==> (#[trigger] cfg.layers@[i]).kv_width() <= usize::MAX
            && cfg.n_heads * cfg.layers@[i].head_dim <= usize::MAX
}

/// Whether the widths of a model's matrices can be counted.
pub fn can_load(cfg: &Config) -> (r: bool)
    ensures
        r == widths_fit(*cfg),
{
    let n: usize = cfg.n_layers;
    if cfg.layers.len() != n || !within(cfg.n_embd_per_layer, n) {
        return false;
    }
    let mut i: usize = 0;
    while i < n
        invariant
            i <= n,
            n == cfg.n_layers,
            n == cfg.layers@.len(),
            forall|k: int|
                0 <= k < i ==> (#[trigger] cfg.layers@[k]).kv_width() <= usize::MAX && cfg.n_heads
                    * cfg.layers@[k].head_dim <= usize::MAX,
        decreases n - i,
    {
        let l = &cfg.layers[i];
        if !within(l.n_kv_heads, l.head_dim) || !within(cfg.n_heads, l.head_dim) {
            assert(cfg.layers@[i as int].kv_width() > usize::MAX || cfg.n_heads
                * cfg.layers@[i as int].head_dim > usize::MAX);
            return false;
        }
        i = i + 1;
    }
    true
}

fn check_kv(kv: &KvWeights<'_>, cfg: &Config, i: usize) -> (r: Result<(), WeightsError>)
    requires
        widths_fit(*cfg),
        i < cfg.n_layers,
        kv.attn_k_norm.info@.countable(),
    ensures
        faults(r, kv_shape_fault(*kv, *cfg, i as int)),
{
    let lc = &cfg.layers[i];
    let width: usize = lc.kv_dim();
    check_length(Some(i), "attn_k.out", kv.attn_k.out_dim(), width)?;
    check_length(Some(i), "attn_k_norm.len", kv.attn_k_norm.elem_count(), lc.head_dim)?;
    if let Some(v) = kv.attn_v {
        check_length(Some(i), "attn_v.out", v.out_dim(), width)?;
    }
    if kv.attn_v.is_none() != lc.v_from_k {
        return Err(WeightsError::ValueProjection { layer: i });
    }
    Ok(())
}

fn check_per_layer(p: &PerLayerWeights<'_>, cfg: &Config, i: usize) -> (r: Result<(), WeightsError>)
    requires
        p.post_norm.info@.countable(),
    ensures
        faults(r, per_layer_shape_fault(*p, *cfg, i as int)),
{
    let d: usize = cfg.d_model;
    let e: usize = cfg.n_embd_per_layer;
    check_matrix(Some(i), "inp_gate", &p.inp_gate, d, e)?;
    check_matrix(Some(i), "proj", &p.proj, e, d)?;
    check_length(Some(i), "post_norm.len", p.post_norm.elem_count(), d)
}

impl<'a> LayerWeights<'a> {
    /// The lengths that are checked can be computed.
    pub open spec fn countable(self) -> bool {
        &&& self.attn_q_norm.info@.countable()
        &&& self.kv is Some ==> self.kv->0.attn_k_norm.info@.countable()
        &&& self.per_layer is Some ==> self.per_layer->0.post_norm.info@.countable()
    }

    fn check_shapes(&self, cfg: &Config, i: usize) -> (r: Result<(), WeightsError>)
        requires
            widths_fit(*cfg),
            i < cfg.n_layers,
            self.countable(),
        ensures
            faults(r, layer_shape_fault(*self, *cfg, i as int)),
    {
        let d: usize = cfg.d_model;
        let lc = &cfg.layers[i];
        assert(cfg.n_heads * cfg.layers@[i as int].head_dim <= usize::MAX);
        let q_dim: usize = cfg.n_heads * lc.head_dim;
        check_length(Some(i), "attn_q.out", self.attn_q.out_dim(), q_dim)?;
        check_length(Some(i), "attn_output.in", self.attn_output.in_dim(), q_dim)?;
        check_length(Some(i), "attn_output.out", self.attn_output.out_dim(), d)?;
        check_length(Some(i), "ffn_gate.out", self.ffn_gate.out_dim(), cfg.ffn_dim)?;
        check_length(Some(i), "ffn_down.out", self.ffn_down.out_dim(), d)?;
        check_length(Some(i), "attn_q_norm.len", self.attn_q_norm.elem_count(), lc.head_dim)?;
        if let Some(kv) = &self.kv {
            check_kv(kv, cfg, i)?;
        }
        if let Some(p) = &self.per_layer {
            check_per_layer(p, cfg, i)?;
        }
        Ok(())
    }
}

impl<'a> Weights<'a> {
    /// These are the weights of the file.
    pub open spec fn of(self, g: Gguf<'_>, cfg: Config) -> bool {
        &&& holds(g, self.token_embd, "token_embd.weight"@)
        &&& holds(g, self.output_norm, "output_norm.weight"@)
        &&& holds(g, self.output, output_name(g.header@))
        &&& (self.ple is Some <==> cfg.n_embd_per_layer > 0)
        &&& (self.ple is Some ==> self.ple->0.of(g))
        &&& self.layers@.len() == cfg.n_layers
        &&& forall|i: int| 0 <= i < cfg.n_layers ==> (#[trigger] self.layers@[i]).of(g, cfg, i)
    }

    /// Resolve every tensor, and cross-check its shape.
    pub fn load(g: &'a Gguf<'a>, cfg: &Config) -> (r: Result<Self, WeightsError>)
        requires
            g.wf(),
            widths_fit(*cfg),
        ensures
            match r {
                Ok(w) => load_fault(g.header@, *cfg) is None && w.of(*g, *cfg) && shape_fault(
                    w,
                    *cfg,
                ) is None,
                Err(e) => load_fault(g.header@, *cfg) == Some(e@) || (load_fault(
                    g.header@,
                    *cfg,
                ) is None && exists|w: Weights<'a>| #[trigger]
                    w.of(*g, *cfg) && shape_fault(w, *cfg) == Some(e@)),
            },
    {
        let token_embd = tensor(g, "token_embd.weight")?;
        let output = output_or(g, token_embd);
        let ple = load_ple(g, cfg)?;
        let mut layers: Vec<LayerWeights<'a>> = Vec::new();
        let mut i: usize = 0;
        while i < cfg.n_layers
            invariant
                i <= cfg.n_layers,
                g.wf(),
                widths_fit(*cfg),
                absent(g.header@, "token_embd.weight"@) is None,
                ple_fault(g.header@, *cfg) is None,
                layers@.len() == i,
                forall|k: int| 0 <= k < i ==> (#[trigger] layers@[k]).of(*g, *cfg, k),
                layers_fault(g.header@, *cfg, i as int) is None,
            decreases cfg.n_layers - i,
        {
            match load_layer(g, cfg, i) {
                Ok(l) => {
                    layers.push(l);
                },
                Err(e) => {
                    proof {
                        lemma_layers_fault(g.header@, *cfg, i + 1, cfg.n_layers as int);
                    }
                    return Err(e);
                },
            }
            i = i + 1;
        }
        let output_norm = dense(g, "output_norm.weight")?;
        let w = Weights { token_embd, output_norm, output, ple, layers };
        match w.check_shapes(cfg) {
            Ok(()) => Ok(w),
            Err(e) => {
                assert(w.of(*g, *cfg));
                Err(e)
            },
        }
    }

    /// Cross-check every weight against the description, so that a mismatch
    /// surfaces here rather than as silent numerical garbage.
    fn check_shapes(&self, cfg: &Config) -> (r: Result<(), WeightsError>)
        requires
            widths_fit(*cfg),
            self.layers@.len() == cfg.n_layers,
            self.ple is Some ==> self.ple->0.proj_norm.info@.countable(),
            forall|i: int| 0 <= i < cfg.n_layers ==> (#[trigger] self.layers@[i]).countable(),
        ensures
            faults(r, shape_fault(*self, *cfg)),
    {
        check_length(None, "token_embd.in", self.token_embd.in_dim(), cfg.d_model)?;
        if let Some(p) = &self.ple {
            let per_token: usize = cfg.n_embd_per_layer * cfg.n_layers;
            check_length(None, "per_layer_token_embd.in", p.token_embd.in_dim(), per_token)?;
            check_matrix(None, "per_layer_model_proj", &p.model_proj, cfg.d_model, per_token)?;
            check_length(
                None,
                "per_layer_proj_norm.len",
                p.proj_norm.elem_count(),
                cfg.n_embd_per_layer,
            )?;
        }
        let n: usize = self.layers.len();
        let mut i: usize = 0;
        while i < n
            invariant
                i <= n,
                n == self.layers@.len(),
                n == cfg.n_layers,
                widths_fit(*cfg),
                forall|k: int| 0 <= k < n ==> (#[trigger] self.layers@[k]).countable(),
                wrong_length(
                    None,
                    "token_embd.in"@,
                    self.token_embd.info@.inner() as int,
                    cfg.d_model as int,
                ) is None,
                ple_shape_fault(*self, *cfg) is None,
                layers_shape_fault(self.layers@, *cfg, i as int) is None,
            decreases n - i,
        {
            match self.layers[i].check_shapes(cfg, i) {
                Ok(()) => {},
                Err(e) => {
                    proof {
                        lemma_layers_shape_fault(self.layers@, *cfg, i + 1, n as int);
                    }
                    return Err(e);
                },
            }
            i = i + 1;
        }
        Ok(())
    }
}

/// What is missing of the first blocks is what is missing first of all.
proof fn lemma_layers_fault(h: HeaderView, cfg: Config, k: int, n: int)
    requires
        0 <= k <= n,
        layers_fault(h, cfg, k) is Some,
    ensures
        layers_fault(h, cfg, n) == layers_fault(h, cfg, k),
    decreases n - k,
{
    if k < n {
        lemma_layers_fault(h, cfg, k, n - 1);
    }
}

/// What is wrong with the first blocks is what is wrong first of all.
proof fn lemma_layers_shape_fault(w: Seq<LayerWeights<'_>>, cfg: Config, k: int, n: int)
    requires
        0 <= k <= n,
        layers_shape_fault(w, cfg, k) is Some,
    ensures
        layers_shape_fault(w, cfg, n) == layers_shape_fault(w, cfg, k),
    decreases n - k,
{
    if k < n {
        lemma_layers_shape_fault(w, cfg, k, n - 1);
    }
}

// ---------------------------------------------------------------------------
// Laws
// ---------------------------------------------------------------------------
/// Every field of a loaded block is the tensor of the block's own name for it.
pub proof fn a_block_holds_the_tensors_of_its_names(
    g: Gguf<'_>,
    cfg: Config,
    w: Weights<'_>,
    i: int,
)
    requires
        w.of(g, cfg),
        0 <= i < cfg.n_layers,
    ensures
        ({
            let l = w.layers@[i];
            &&& tensor_named(g.header@, numbered("blk."@, i as nat, ".attn_norm.weight"@)) == Some(
                l.attn_norm.info@,
            )
            &&& l.attn_norm.data@ == g.data_of(l.attn_norm.info@)
            &&& tensor_named(g.header@, numbered("blk."@, i as nat, ".attn_q.weight"@)) == Some(
                l.attn_q.info@,
            )
            &&& l.attn_q.data@ == g.data_of(l.attn_q.info@)
            &&& tensor_named(g.header@, numbered("blk."@, i as nat, ".attn_q_norm.weight"@)) == Some(
                l.attn_q_norm.info@,
            )
            &&& l.attn_q_norm.data@ == g.data_of(l.attn_q_norm.info@)
            &&& tensor_named(g.header@, numbered("blk."@, i as nat, ".attn_output.weight"@)) == Some(
                l.attn_output.info@,
            )
            &&& l.attn_output.data@ == g.data_of(l.attn_output.info@)
            &&& tensor_named(g.header@, numbered("blk."@, i as nat, ".post_attention_norm.weight"@)) == Some(
                l.post_attention_norm.info@,
            )
            &&& l.post_attention_norm.data@ == g.data_of(l.post_attention_norm.info@)
            &&& tensor_named(g.header@, numbered("blk."@, i as nat, ".ffn_norm.weight"@)) == Some(
                l.ffn_norm.info@,
            )
            &&& l.ffn_norm.data@ == g.data_of(l.ffn_norm.info@)
            &&& tensor_named(g.header@, numbered("blk."@, i as nat, ".ffn_gate.weight"@)) == Some(
                l.ffn_gate.info@,
            )
            &&& l.ffn_gate.data@ == g.data_of(l.ffn_gate.info@)
            &&& tensor_named(g.header@, numbered("blk."@, i as nat, ".ffn_up.weight"@)) == Some(
                l.ffn_up.info@,
            )
            &&& l.ffn_up.data@ == g.data_of(l.ffn_up.info@)
            &&& tensor_named(g.header@, numbered("blk."@, i as nat, ".ffn_down.weight"@)) == Some(
                l.ffn_down.info@,
            )
            &&& l.ffn_down.data@ == g.data_of(l.ffn_down.info@)
            &&& tensor_named(g.header@, numbered("blk."@, i as nat, ".post_ffw_norm.weight"@)) == Some(
                l.post_ffw_norm.info@,
            )
            &&& l.post_ffw_norm.data@ == g.data_of(l.post_ffw_norm.info@)
            &&& l.kv is Some <==> cfg.layers@[i].kv_source == i
            &&& l.per_layer is Some <==> cfg.n_embd_per_layer > 0
            &&& ({
                let name = numbered("blk."@, i as nat, ".layer_output_scale.weight"@);
                let b = g.data_of(tensor_named(g.header@, name)->0);
                l.output_scale matches FloatBits::Single(x) && x == b[0] + 0x100 * b[1] + 0x1_0000
                    * b[2] + 0x100_0000 * b[3]
            })
        }),
        w.layers@[i].kv matches Some(kv) ==> {
            let h = g.header@;
            &&& tensor_named(h, numbered("blk."@, i as nat, ".attn_k.weight"@)) == Some(
                kv.attn_k.info@,
            )
            &&& tensor_named(h, numbered("blk."@, i as nat, ".attn_k_norm.weight"@)) == Some(
                kv.attn_k_norm.info@,
            )
            &&& tensor_named(h, numbered("blk."@, i as nat, ".attn_v.weight"@)) == match kv.attn_v {
                Some(v) => Some(v.info@),
                None => None,
            }
        },
        w.layers@[i].per_layer matches Some(p) ==> {
            let h = g.header@;
            &&& tensor_named(h, numbered("blk."@, i as nat, ".inp_gate.weight"@)) == Some(
                p.inp_gate.info@,
            )
            &&& tensor_named(h, numbered("blk."@, i as nat, ".proj.weight"@)) == Some(p.proj.info@)
            &&& tensor_named(h, numbered("blk."@, i as nat, ".post_norm.weight"@)) == Some(
                p.post_norm.info@,
            )
        },
{
    let l = w.layers@[i];
    assert(l.of(g, cfg, i));
    let b = g.data_of(tensor_named(g.header@, blk(i, ".layer_output_scale.weight"@))->0);
    let (b0, b1, b2, b3) = (b[0], b[1], b[2], b[3]);
    assert((b0 as u32 | (b1 as u32) << 8 | (b2 as u32) << 16 | (b3 as u32) << 24) == b0 + 0x100
        * b1 + 0x1_0000 * b2 + 0x100_0000 * b3) by (bit_vector);
}

/// A tensor is there.
pub open spec fn there(h: HeaderView, name: Seq<char>) -> bool {
    tensor_named(h, name) is Some
}

/// A tensor is there in single precision.
pub open spec fn there_dense(h: HeaderView, name: Seq<char>) -> bool {
    tensor_named(h, name) matches Some(t) && t.ty == GgmlType::F32
}

/// Nothing is missing of a block exactly when every tensor that the pass applies is
/// there, the gains in single precision and the scale a single number.
pub proof fn a_block_is_complete_exactly_when(h: HeaderView, cfg: Config, i: int)
    ensures
        layer_fault(h, cfg, i) is None <==> {
            let n = i as nat;
            let scale = numbered("blk."@, n, ".layer_output_scale.weight"@);
            &&& there_dense(h, numbered("blk."@, n, ".attn_norm.weight"@))
            &&& there(h, numbered("blk."@, n, ".attn_q.weight"@))
            &&& there_dense(h, numbered("blk."@, n, ".attn_q_norm.weight"@))
            &&& there(h, numbered("blk."@, n, ".attn_output.weight"@))
            &&& there_dense(h, numbered("blk."@, n, ".post_attention_norm.weight"@))
            &&& there_dense(h, numbered("blk."@, n, ".ffn_norm.weight"@))
            &&& there(h, numbered("blk."@, n, ".ffn_gate.weight"@))
            &&& there(h, numbered("blk."@, n, ".ffn_up.weight"@))
            &&& there(h, numbered("blk."@, n, ".ffn_down.weight"@))
            &&& there_dense(h, numbered("blk."@, n, ".post_ffw_norm.weight"@))
            &&& there_dense(h, scale) && tensor_named(h, scale)->0.elems() == 1
            &&& cfg.layers@[i].kv_source == i ==> {
                &&& there(h, numbered("blk."@, n, ".attn_k.weight"@))
                &&& there_dense(h, numbered("blk."@, n, ".attn_k_norm.weight"@))
            }
            &&& cfg.n_embd_per_layer > 0 ==> {
                &&& there(h, numbered("blk."@, n, ".inp_gate.weight"@))
                &&& there(h, numbered("blk."@, n, ".proj.weight"@))
                &&& there_dense(h, numbered("blk."@, n, ".post_norm.weight"@))
            }
        },
{
}

/// The same of a model: its blocks are complete, and so are its tables.
pub proof fn a_model_is_complete_exactly_when(h: HeaderView, cfg: Config)
    ensures
        load_fault(h, cfg) is None <==> {
            &&& there(h, "token_embd.weight"@)
            &&& there_dense(h, "output_norm.weight"@)
            &&& forall|i: int| 0 <= i < cfg.n_layers ==> (#[trigger] layer_fault(h, cfg, i)) is None
            &&& cfg.n_embd_per_layer > 0 ==> {
                &&& there(h, "per_layer_token_embd.weight"@)
                &&& there(h, "per_layer_model_proj.weight"@)
                &&& there_dense(h, "per_layer_proj_norm.weight"@)
            }
        },
{
    lemma_complete(h, cfg, cfg.n_layers as int);
}

proof fn lemma_complete(h: HeaderView, cfg: Config, n: int)
    ensures
        layers_fault(h, cfg, n) is None <==> forall|i: int|
            0 <= i < n ==> (#[trigger] layer_fault(h, cfg, i)) is None,
    decreases n,
{
    if n > 0 {
        lemma_complete(h, cfg, n - 1);
    }
}

/// A block's shapes are accepted exactly when its matrices take and give rows of the
/// widths that the pass has for them, and its gains are as long as what they scale.
pub proof fn a_block_fits_exactly_when(w: LayerWeights<'_>, cfg: Config, i: int)
    ensures
        layer_shape_fault(w, cfg, i) is None <==> {
            let lc = cfg.layers@[i];
            let (q, kv) = (cfg.n_heads * lc.head_dim, lc.n_kv_heads * lc.head_dim);
            &&& w.attn_q.info@.outer() == q
            &&& w.attn_output.info@.inner() == q
            &&& w.attn_output.info@.outer() == cfg.d_model
            &&& w.ffn_gate.info@.outer() == cfg.ffn_dim
            &&& w.ffn_down.info@.outer() == cfg.d_model
            &&& w.attn_q_norm.info@.elems() == lc.head_dim
            &&& w.kv matches Some(k) ==> {
                &&& k.attn_k.info@.outer() == kv
                &&& k.attn_k_norm.info@.elems() == lc.head_dim
                &&& k.attn_v matches Some(v) ==> v.info@.outer() == kv
                &&& k.attn_v is None <==> lc.v_from_k
            }
            &&& w.per_layer matches Some(p) ==> {
                &&& p.inp_gate.info@.inner() == cfg.d_model
                &&& p.inp_gate.info@.outer() == cfg.n_embd_per_layer
                &&& p.proj.info@.inner() == cfg.n_embd_per_layer
                &&& p.proj.info@.outer() == cfg.d_model
                &&& p.post_norm.info@.elems() == cfg.d_model
            }
        },
{
}

/// The same of a model.
pub proof fn a_model_fits_exactly_when(w: Weights<'_>, cfg: Config)
    ensures
        shape_fault(w, cfg) is None <==> {
            &&& w.token_embd.info@.inner() == cfg.d_model
            &&& forall|i: int|
                0 <= i < w.layers@.len() ==> layer_shape_fault(#[trigger] w.layers@[i], cfg, i) is None
            &&& w.ple matches Some(p) ==> {
                let all = cfg.n_embd_per_layer * cfg.n_layers;
                &&& p.token_embd.info@.inner() == all
                &&& p.model_proj.info@.inner() == cfg.d_model
                &&& p.model_proj.info@.outer() == all
                &&& p.proj_norm.info@.elems() == cfg.n_embd_per_layer
            }
        },
{
    lemma_fits(w.layers@, cfg, w.layers@.len() as int);
}

proof fn lemma_fits(w: Seq<LayerWeights<'_>>, cfg: Config, n: int)
    requires
        n <= w.len(),
    ensures
        layers_shape_fault(w, cfg, n) is None <==> forall|i: int|
            0 <= i < n ==> layer_shape_fault(#[trigger] w[i], cfg, i) is None,
    decreases n,
{
    if n > 0 {
        lemma_fits(w, cfg, n - 1);
        assert forall|i: int| 0 <= i < n implies layer_shape_fault(#[trigger] w[i], cfg, i) is None
            == (i == n - 1 && layer_shape_fault(w[n - 1], cfg, n - 1) is None || i < n - 1
            && layer_shape_fault(w[i], cfg, i) is None) by {}
        if layers_shape_fault(w, cfg, n) is None {
        } else if layers_shape_fault(w, cfg, n - 1) is None {
            assert(layer_shape_fault(w[n - 1], cfg, n - 1) is Some);
        }
    }
}

} // verus!
