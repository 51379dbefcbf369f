//! The compute pipelines that a device builds for a model, and what is bound to them.
//!
//! A pipeline is an entry point of a shader module; all entry points of a module share
//! one bind group layout. The last storage bindings of a layout are written, and the
//! uniform binding has a dynamic offset, so that one buffer carries the parameters of
//! every dispatch.

use crate::checks::{first_error, lemma_first_error_concat};
use crate::gguf::GgmlType;
use crate::gpu::arena::Handle;
use crate::gpu::forward::{blk, Resident};
use crate::gpu::grid::{embed_kernel, matvec_kernel, Kernel};
use crate::gpu::plan::{
    at_offset, layer_mark, lower, slot_offset, Bind, Buf, CachedPlan, Dispatch, Node, Run,
};
use crate::gpu::qwen35::Resident as Hybrid;
use crate::gpu::vision::{vblk, Patches, VisionGpu};
use vstd::prelude::*;

verus! {

// ---------------------------------------------------------------------------
// Modules
// ---------------------------------------------------------------------------
/// How a shader uses a binding.
#[derive(Debug, Clone, Copy, PartialEq, Eq, Structural)]
pub enum Access {
    /// A storage buffer that is only read.
    Read,
    /// A storage buffer that is written.
    Write,
    /// The parameters, at a dynamic offset.
    Uniform,
}

/// A shader module.
#[derive(Debug, Clone, Copy, PartialEq, Eq, Structural)]
pub enum Shader {
    Ops,
    Attn,
    Delta,
    Quant,
}

/// What the pipelines are for.
#[derive(Debug, Clone, Copy, PartialEq, Eq, Structural)]
pub enum Family {
    Gemma4,
    Qwen35,
    Vision,
}

impl Shader {
    /// The bindings of the module's layout, in order.
    pub open spec fn layout(self) -> Seq<Access> {
        match self {
            Shader::Ops => seq![
                Access::Read,
                Access::Read,
                Access::Read,
                Access::Write,
                Access::Uniform,
            ],
            Shader::Attn => seq![
                Access::Read,
                Access::Read,
                Access::Read,
                Access::Write,
                Access::Write,
                Access::Uniform,
            ],
            Shader::Delta => seq![
                Access::Read,
                Access::Read,
                Access::Read,
                Access::Read,
                Access::Write,
                Access::Write,
                Access::Uniform,
            ],
            Shader::Quant => seq![
                Access::Read,
                Access::Read,
                Access::Write,
                Access::Uniform,
                Access::Read,
            ],
        }
    }

    /// The bindings of the module's layout, in order.
    pub fn bindings(self) -> (v: Vec<Access>)
        ensures
            v@ == self.layout(),
    {
        let v = match self {
            Shader::Ops => vec![
                Access::Read,
                Access::Read,
                Access::Read,
                Access::Write,
                Access::Uniform,
            ],
            Shader::Attn => vec![
                Access::Read,
                Access::Read,
                Access::Read,
                Access::Write,
                Access::Write,
                Access::Uniform,
            ],
            Shader::Delta => vec![
                Access::Read,
                Access::Read,
                Access::Read,
                Access::Read,
                Access::Write,
                Access::Write,
                Access::Uniform,
            ],
            Shader::Quant => vec![
                Access::Read,
                Access::Read,
                Access::Write,
                Access::Uniform,
                Access::Read,
            ],
        };
        assert(v@ =~= self.layout());
        v
    }

    pub open spec fn file_name(self) -> Seq<char> {
        match self {
            Shader::Ops => "ops.wgsl"@,
            Shader::Attn => "attn.wgsl"@,
            Shader::Delta => "deltanet.wgsl"@,
            Shader::Quant => "quant.wgsl"@,
        }
    }

    /// The file that holds the module.
    pub fn file(self) -> (r: &'static str)
        ensures
            r@ == self.file_name(),
    {
        match self {
            Shader::Ops => "ops.wgsl",
            Shader::Attn => "attn.wgsl",
            Shader::Delta => "deltanet.wgsl",
            Shader::Quant => "quant.wgsl",
        }
    }
}

/// The entry points that a family builds from a module, in order.
pub open spec fn entries(f: Family, s: Shader) -> Seq<Kernel> {
    match (s, f) {
        (Shader::Ops, Family::Gemma4) => seq![
            Kernel::RmsNorm,
            Kernel::Geglu,
            Kernel::AddScale,
            Kernel::Scale,
            Kernel::Copy,
            Kernel::Rope,
            Kernel::SoftCap,
            Kernel::WriteCache,
        ],
        (Shader::Ops, Family::Qwen35) => seq![
            Kernel::RmsNorm,
            Kernel::AddScale,
            Kernel::Copy,
            Kernel::Swiglu,
            Kernel::MulSilu,
            Kernel::MulSigmoid,
            Kernel::SplitHalf,
            Kernel::RopePartial,
            Kernel::WriteCache,
        ],
        (Shader::Ops, Family::Vision) => seq![
            Kernel::RmsNorm,
            Kernel::Geglu,
            Kernel::AddScale,
            Kernel::Copy,
            Kernel::Rope2d,
            Kernel::ClampRange,
            Kernel::PoolAvg,
        ],
        (Shader::Attn, _) => seq![Kernel::ScoresPass, Kernel::SoftmaxPass, Kernel::WeightedV],
        (Shader::Delta, Family::Qwen35) => seq![
            Kernel::ConvSilu,
            Kernel::ConvShift,
            Kernel::ConvCommit,
            Kernel::L2normQk,
            Kernel::DeltaRecur,
        ],
        (Shader::Delta, _) => Seq::empty(),
        (Shader::Quant, _) => seq![
            Kernel::Matvec { ty: GgmlType::Q4K, tiled: false },
            Kernel::Matvec { ty: GgmlType::Q6K, tiled: false },
            Kernel::Matvec { ty: GgmlType::Q8_0, tiled: false },
            Kernel::Matvec { ty: GgmlType::F32, tiled: false },
            Kernel::Matvec { ty: GgmlType::Q4K, tiled: true },
            Kernel::Matvec { ty: GgmlType::Q6K, tiled: true },
            Kernel::Matvec { ty: GgmlType::Q8_0, tiled: true },
            Kernel::Matvec { ty: GgmlType::F32, tiled: true },
            Kernel::Matvec { ty: GgmlType::BF16, tiled: false },
            Kernel::Matvec { ty: GgmlType::BF16, tiled: true },
            Kernel::Embed { ty: GgmlType::Q6K },
            Kernel::Embed { ty: GgmlType::F32 },
            Kernel::Embed { ty: GgmlType::Q8_0 },
        ],
    }
}

/// What a module is called.
pub open spec fn module_label(f: Family, s: Shader) -> Seq<char> {
    match (s, f) {
        (Shader::Quant, _) => "quant"@,
        (Shader::Ops, Family::Qwen35) => "qwen-ops"@,
        (Shader::Attn, Family::Qwen35) => "qwen-attn"@,
        (Shader::Delta, _) => "qwen-delta"@,
        (Shader::Ops, _) => "ops"@,
        (Shader::Attn, _) => "attn"@,
    }
}

/// A module with the entry points that are built from it.
#[derive(Debug)]
pub struct Module {
    pub shader: Shader,
    pub label: &'static str,
    pub kernels: Vec<Kernel>,
}

impl Module {
    pub open spec fn of(&self, f: Family, s: Shader) -> bool {
        &&& self.shader == s
        &&& self.label@ == module_label(f, s)
        &&& self.kernels@ == entries(f, s)
    }
}

/// Everything that a family builds.
#[derive(Debug)]
pub struct Pipelines {
    pub modules: Vec<Module>,
}

/// The modules of a family, in the order in which they are built.
pub open spec fn shaders(f: Family) -> Seq<Shader> {
    if f == Family::Qwen35 {
        seq![Shader::Ops, Shader::Attn, Shader::Delta, Shader::Quant]
    } else {
        seq![Shader::Ops, Shader::Attn, Shader::Quant]
    }
}

fn ops_kernels(f: Family) -> (v: Vec<Kernel>)
    ensures
        v@ == entries(f, Shader::Ops),
{
    let v = match f {
        Family::Gemma4 => vec![
            Kernel::RmsNorm,
            Kernel::Geglu,
            Kernel::AddScale,
            Kernel::Scale,
            Kernel::Copy,
            Kernel::Rope,
            Kernel::SoftCap,
            Kernel::WriteCache,
        ],
        Family::Qwen35 => vec![
            Kernel::RmsNorm,
            Kernel::AddScale,
            Kernel::Copy,
            Kernel::Swiglu,
            Kernel::MulSilu,
            Kernel::MulSigmoid,
            Kernel::SplitHalf,
            Kernel::RopePartial,
            Kernel::WriteCache,
        ],
        Family::Vision => vec![
            Kernel::RmsNorm,
            Kernel::Geglu,
            Kernel::AddScale,
            Kernel::Copy,
            Kernel::Rope2d,
            Kernel::ClampRange,
            Kernel::PoolAvg,
        ],
    };
    assert(v@ =~= entries(f, Shader::Ops));
    v
}

fn quant_kernels(f: Family) -> (v: Vec<Kernel>)
    ensures
        v@ == entries(f, Shader::Quant),
{
    let v = vec![
        Kernel::Matvec { ty: GgmlType::Q4K, tiled: false },
        Kernel::Matvec { ty: GgmlType::Q6K, tiled: false },
        Kernel::Matvec { ty: GgmlType::Q8_0, tiled: false },
        Kernel::Matvec { ty: GgmlType::F32, tiled: false },
        Kernel::Matvec { ty: GgmlType::Q4K, tiled: true },
        Kernel::Matvec { ty: GgmlType::Q6K, tiled: true },
        Kernel::Matvec { ty: GgmlType::Q8_0, tiled: true },
        Kernel::Matvec { ty: GgmlType::F32, tiled: true },
        Kernel::Matvec { ty: GgmlType::BF16, tiled: false },
        Kernel::Matvec { ty: GgmlType::BF16, tiled: true },
        Kernel::Embed { ty: GgmlType::Q6K },
        Kernel::Embed { ty: GgmlType::F32 },
        Kernel::Embed { ty: GgmlType::Q8_0 },
    ];
    assert(v@ =~= entries(f, Shader::Quant));
    v
}

impl Pipelines {
    pub open spec fn of(&self, f: Family) -> bool {
        &&& self.modules@.len() == shaders(f).len()
        &&& forall|i: int|
            0 <= i < self.modules@.len() ==> (#[trigger] self.modules@[i]).of(f, shaders(f)[i])
    }

    /// What a device builds for a family.
    pub fn new(f: Family) -> (r: Pipelines)
        ensures
            r.of(f),
    {
        let qwen: bool = f == Family::Qwen35;
        let mut modules: Vec<Module> = Vec::new();
        modules.push(
            Module {
                shader: Shader::Ops,
                label: if qwen {
                    "qwen-ops"
                } else {
                    "ops"
                },
                kernels: ops_kernels(f),
            },
        );
        let passes = vec![Kernel::ScoresPass, Kernel::SoftmaxPass, Kernel::WeightedV];
        assert(passes@ =~= entries(f, Shader::Attn));
        modules.push(
            Module {
                shader: Shader::Attn,
                label: if qwen {
                    "qwen-attn"
                } else {
                    "attn"
                },
                kernels: passes,
            },
        );
        if qwen {
            let delta = vec![
                Kernel::ConvSilu,
                Kernel::ConvShift,
                Kernel::ConvCommit,
                Kernel::L2normQk,
                Kernel::DeltaRecur,
            ];
            assert(delta@ =~= entries(f, Shader::Delta));
            modules.push(Module { shader: Shader::Delta, label: "qwen-delta", kernels: delta });
        }
        modules.push(
            Module { shader: Shader::Quant, label: "quant", kernels: quant_kernels(f) },
        );
        Pipelines { modules }
    }
}

// ---------------------------------------------------------------------------
// Bind groups
// ---------------------------------------------------------------------------
/// What stands at a binding.
#[derive(Debug, Clone, Copy, PartialEq, Eq, Structural)]
pub enum Resource {
    /// The arena of gains and other small tensors.
    Params,
    /// A buffer of the weight arena.
    Weights(usize),
    Buf(Buf),
    /// One slot of the uniform buffer, which the dynamic offset moves.
    Uniforms,
}

/// The module whose layout a bind group follows.
pub open spec fn bound_to(b: Bind) -> Shader {
    match b {
        Bind::Ops { .. } => Shader::Ops,
        Bind::Matvec { .. } => Shader::Quant,
        Bind::Attn { .. } => Shader::Attn,
        Bind::Delta { .. } => Shader::Delta,
    }
}

/// The entries of a bind group, in order. The embedding gather finds the token ids
/// behind the parameters of a projection.
pub open spec fn group(b: Bind) -> Seq<Resource> {
    match b {
        Bind::Ops { a, b, out } => seq![
            Resource::Params,
            Resource::Buf(a),
            Resource::Buf(b),
            Resource::Buf(out),
            Resource::Uniforms,
        ],
        Bind::Matvec { weights, x, y } => seq![
            Resource::Weights(weights),
            Resource::Buf(x),
            Resource::Buf(y),
            Resource::Uniforms,
            Resource::Buf(Buf::Tokens),
        ],
        Bind::Attn { q, k, v, scores, out } => seq![
            Resource::Buf(q),
            Resource::Buf(k),
            Resource::Buf(v),
            Resource::Buf(scores),
            Resource::Buf(out),
            Resource::Uniforms,
        ],
        Bind::Delta { a, b, c, state, out } => seq![
            Resource::Params,
            Resource::Buf(a),
            Resource::Buf(b),
            Resource::Buf(c),
            Resource::Buf(state),
            Resource::Buf(out),
            Resource::Uniforms,
        ],
    }
}

impl Bind {
    /// The entries of the bind group, in order.
    pub fn resources(&self) -> (v: Vec<Resource>)
        ensures
            v@ == group(*self),
    {
        let v = match *self {
            Bind::Ops { a, b, out } => vec![
                Resource::Params,
                Resource::Buf(a),
                Resource::Buf(b),
                Resource::Buf(out),
                Resource::Uniforms,
            ],
            Bind::Matvec { weights, x, y } => vec![
                Resource::Weights(weights),
                Resource::Buf(x),
                Resource::Buf(y),
                Resource::Uniforms,
                Resource::Buf(Buf::Tokens),
            ],
            Bind::Attn { q, k, v, scores, out } => vec![
                Resource::Buf(q),
                Resource::Buf(k),
                Resource::Buf(v),
                Resource::Buf(scores),
                Resource::Buf(out),
                Resource::Uniforms,
            ],
            Bind::Delta { a, b, c, state, out } => vec![
                Resource::Params,
                Resource::Buf(a),
                Resource::Buf(b),
                Resource::Buf(c),
                Resource::Buf(state),
                Resource::Buf(out),
                Resource::Uniforms,
            ],
        };
        assert(v@ =~= group(*self));
        v
    }

    /// The module whose layout the bind group follows.
    pub fn shader(&self) -> (r: Shader)
        ensures
            r == bound_to(*self),
    {
        match self {
            Bind::Ops { .. } => Shader::Ops,
            Bind::Matvec { .. } => Shader::Quant,
            Bind::Attn { .. } => Shader::Attn,
            Bind::Delta { .. } => Shader::Delta,
        }
    }
}

// ---------------------------------------------------------------------------
// Laws
// ---------------------------------------------------------------------------
/// A bind group has an entry for every binding of its layout, the parameters stand
/// where the layout wants them, and what is shared by all dispatches is only read.
pub proof fn groups_match_their_layouts(b: Bind)
    ensures
        group(b).len() == bound_to(b).layout().len(),
        forall|i: int|
            0 <= i < group(b).len() ==> {
                &&& (#[trigger] group(b)[i] is Uniforms) == (bound_to(b).layout()[i]
                    == Access::Uniform)
                &&& group(b)[i] is Params || group(b)[i] is Weights ==> bound_to(b).layout()[i]
                    == Access::Read
            },
{
}

/// A family builds the kernel, from the module that the bind group belongs to.
pub open spec fn served(f: Family, k: Kernel, b: Bind) -> bool {
    entries(f, bound_to(b)).contains(k)
}

/// Every dispatch of a plan is served.
pub open spec fn plan_served(f: Family, v: Seq<Dispatch>) -> bool {
    forall|i: int| 0 <= i < v.len() ==> served(f, (#[trigger] v[i]).kernel, v[i].bind)
}

/// Every run of a step is served.
pub open spec fn node_served(f: Family, n: Node) -> bool {
    n matches Node::Step { runs, .. } ==> forall|i: int|
        0 <= i < runs.len() ==> served(f, (#[trigger] runs[i]).kernel, runs[i].bind)
}

pub open spec fn all_served(f: Family, s: Seq<Node>) -> bool {
    forall|i: int| 0 <= i < s.len() ==> node_served(f, #[trigger] s[i])
}

proof fn lemma_concat(f: Family, a: Seq<Node>, b: Seq<Node>)
    requires
        all_served(f, a),
        all_served(f, b),
    ensures
        all_served(f, a + b),
{
    assert forall|i: int| 0 <= i < (a + b).len() implies node_served(f, #[trigger] (a + b)[i]) by {
        if i < a.len() {
            assert((a + b)[i] == a[i]);
        } else {
            assert((a + b)[i] == b[i - a.len()]);
        }
    }
}

/// What the steps are served by, their plan is.
proof fn lemma_lowered(f: Family, s: Seq<Node>)
    requires
        all_served(f, s),
    ensures
        plan_served(f, lower(s).plan),
    decreases s.len(),
{
    if s.len() > 0 {
        let t = s.drop_last();
        assert forall|i: int| 0 <= i < t.len() implies node_served(f, #[trigger] t[i]) by {
            assert(t[i] == s[i]);
        }
        lemma_lowered(f, t);
        let l = lower(t);
        assert(node_served(f, s[s.len() - 1]));
        match s.last() {
            Node::Step { slot, runs } => {
                let more = runs.map_values(
                    |r: Run| at_offset(r, slot_offset(l.slots.len() as int)),
                );
                assert(lower(s).plan == l.plan + more);
                assert forall|i: int| 0 <= i < lower(s).plan.len() implies served(
                    f,
                    (#[trigger] lower(s).plan[i]).kernel,
                    lower(s).plan[i].bind,
                ) by {
                    if i < l.plan.len() {
                        assert(lower(s).plan[i] == l.plan[i]);
                    } else {
                        let r = runs[i - l.plan.len()];
                        assert(lower(s).plan[i] == more[i - l.plan.len()]);
                        assert(served(f, r.kernel, r.bind));
                    }
                }
            },
            Node::Mark { .. } => {
                assert(lower(s).plan == l.plan);
            },
        }
    }
}

/// The kernels of every family, where they stand in its lists.
proof fn lemma_entries(f: Family)
    ensures
        entries(f, Shader::Attn).contains(Kernel::ScoresPass),
        entries(f, Shader::Attn).contains(Kernel::SoftmaxPass),
        entries(f, Shader::Attn).contains(Kernel::WeightedV),
        forall|ty: GgmlType, n: u32|
            matvec_kernel(ty, n) is Some ==> entries(
                f,
                Shader::Quant,
            ).contains(#[trigger] matvec_kernel(ty, n)->0),
        forall|ty: GgmlType|
            embed_kernel(ty) is Some ==> entries(f, Shader::Quant).contains(
                #[trigger] embed_kernel(ty)->0,
            ),
{
    let at = entries(f, Shader::Attn);
    assert(at[0] == Kernel::ScoresPass && at[1] == Kernel::SoftmaxPass && at[2]
        == Kernel::WeightedV);
    let q = entries(f, Shader::Quant);
    assert(q[0] == Kernel::Matvec { ty: GgmlType::Q4K, tiled: false });
    assert(q[1] == Kernel::Matvec { ty: GgmlType::Q6K, tiled: false });
    assert(q[2] == Kernel::Matvec { ty: GgmlType::Q8_0, tiled: false });
    assert(q[3] == Kernel::Matvec { ty: GgmlType::F32, tiled: false });
    assert(q[4] == Kernel::Matvec { ty: GgmlType::Q4K, tiled: true });
    assert(q[5] == Kernel::Matvec { ty: GgmlType::Q6K, tiled: true });
    assert(q[6] == Kernel::Matvec { ty: GgmlType::Q8_0, tiled: true });
    assert(q[7] == Kernel::Matvec { ty: GgmlType::F32, tiled: true });
    assert(q[8] == Kernel::Matvec { ty: GgmlType::BF16, tiled: false });
    assert(q[9] == Kernel::Matvec { ty: GgmlType::BF16, tiled: true });
    assert(q[10] == Kernel::Embed { ty: GgmlType::Q6K });
    assert(q[11] == Kernel::Embed { ty: GgmlType::F32 });
    assert(q[12] == Kernel::Embed { ty: GgmlType::Q8_0 });
}

/// Where there is no first error, there is none.
proof fn lemma_all_clear<E>(s: Seq<Option<E>>, k: int)
    requires
        first_error(s) is None,
        0 <= k < s.len(),
    ensures
        s[k] is None,
    decreases k,
{
    if s[k] is Some {
        if k > 0 {
            if s[0] is Some {
            } else {
                assert(s.drop_first()[k - 1] == s[k]);
                lemma_all_clear(s.drop_first(), k - 1);
            }
        }
    }
}

/// The kernels that gemma4 builds, where they stand in its list.
proof fn lemma_gemma4_ops()
    ensures
        ({
            let v = entries(Family::Gemma4, Shader::Ops);
            &&& v.contains(Kernel::RmsNorm)
            &&& v.contains(Kernel::Geglu)
            &&& v.contains(Kernel::AddScale)
            &&& v.contains(Kernel::Scale)
            &&& v.contains(Kernel::Copy)
            &&& v.contains(Kernel::Rope)
            &&& v.contains(Kernel::SoftCap)
            &&& v.contains(Kernel::WriteCache)
        }),
{
    let v = entries(Family::Gemma4, Shader::Ops);
    assert(v[0] == Kernel::RmsNorm && v[1] == Kernel::Geglu && v[2] == Kernel::AddScale && v[3]
        == Kernel::Scale && v[4] == Kernel::Copy && v[5] == Kernel::Rope && v[6] == Kernel::SoftCap
        && v[7] == Kernel::WriteCache);
}

/// Nothing is missing from layer `il` or behind it, if nothing is from `from` on.
proof fn lemma_gemma4_layer(m: Resident, from: int, il: int, t: int)
    requires
        first_error(m.errors_from(from, t)) is None,
        0 <= from <= il <= m.cfg.n_layers,
    ensures
        first_error(m.errors_from(il, t)) is None,
        il < m.cfg.n_layers ==> first_error(m.layer_errors(il, t)) is None,
    decreases il - from,
{
    if from < m.cfg.n_layers {
        lemma_first_error_concat(m.layer_errors(from, t), m.errors_from(from + 1, t));
        if from < il {
            lemma_gemma4_layer(m, from + 1, il, t);
        }
    }
}

proof fn lemma_gemma4_served(m: Resident, il: int, t: int)
    requires
        first_error(m.layer_errors(il, t)) is None,
    ensures
        all_served(Family::Gemma4, m.layer_nodes(il, t)),
{
    let f = Family::Gemma4;
    let e = m.layer_errors(il, t);
    let r = m.refs_of(il);
    assert forall|k: int| 0 <= k < e.len() implies #[trigger] e[k] is None by {
        lemma_all_clear(e, k);
    }
    assert(e[1] is None && e[2] is None && e[3] is None && e[6] is None && e[9] is None && e[10]
        is None && e[11] is None);
    assert(Resident::runnable(r, t));
    lemma_entries(f);
    lemma_gemma4_ops();
    let (a, b, c, d) = (
        m.qkv_nodes(r, il, t),
        m.rotate_nodes(r, il, t),
        m.attn_nodes(r, il, t),
        m.ffn_nodes(r, il, t),
    );
    assert(all_served(f, a));
    assert(all_served(f, b));
    assert(all_served(f, c));
    assert(all_served(f, d));
    lemma_concat(f, a, b);
    lemma_concat(f, a + b, c);
    lemma_concat(f, a + b + c, d);
}

proof fn lemma_gemma4_nodes(m: Resident, n: int, t: int)
    requires
        0 <= n <= m.cfg.n_layers,
        first_error(m.errors_from(0, t)) is None,
    ensures
        all_served(Family::Gemma4, m.nodes_to(n, t)),
    decreases n,
{
    let f = Family::Gemma4;
    if n <= 0 {
        lemma_entries(f);
        lemma_gemma4_ops();
        assert(entries(f, Shader::Quant)[10] == Kernel::Embed { ty: GgmlType::Q6K });
    } else {
        lemma_gemma4_nodes(m, n - 1, t);
        lemma_gemma4_layer(m, 0, n - 1, t);
        lemma_gemma4_served(m, n - 1, t);
        lemma_concat(f, m.nodes_to(n - 1, t), m.layer_nodes(n - 1, t));
    }
}

/// Every dispatch of a gemma4 plan goes to a kernel that gemma4 builds, with a bind
/// group of that kernel's module.
pub proof fn gemma4_plans_are_served(m: Resident, p: CachedPlan, t: int)
    requires
        first_error(m.errors(t)) is None,
        m.is_plan(p, t),
    ensures
        plan_served(Family::Gemma4, p.plan@),
        plan_served(Family::Gemma4, p.tail@),
{
    let f = Family::Gemma4;
    let n = m.cfg.n_layers as int;
    let first = m.errors(t).take(1);
    assert(m.errors(t) =~= first + m.errors_from(0, t));
    lemma_first_error_concat(first, m.errors_from(0, t));
    lemma_gemma4_nodes(m, n, t);
    lemma_gemma4_layer(m, 0, n, t);
    lemma_all_clear(m.errors_from(n, t), 1);
    lemma_entries(f);
    lemma_gemma4_ops();
    let last = m.nodes(t).skip(m.nodes_to(n, t).len() as int);
    assert(m.nodes(t) =~= m.nodes_to(n, t) + last);
    assert(all_served(f, last));
    lemma_concat(f, m.nodes_to(n, t), last);
    lemma_lowered(f, m.nodes(t));
    assert(p.plan@ == p.body().plan);
}

/// The kernels that qwen35 builds, where they stand in its lists.
proof fn lemma_qwen35_ops()
    ensures
        ({
            let v = entries(Family::Qwen35, Shader::Ops);
            &&& v.contains(Kernel::RmsNorm)
            &&& v.contains(Kernel::AddScale)
            &&& v.contains(Kernel::Copy)
            &&& v.contains(Kernel::Swiglu)
            &&& v.contains(Kernel::MulSilu)
            &&& v.contains(Kernel::MulSigmoid)
            &&& v.contains(Kernel::SplitHalf)
            &&& v.contains(Kernel::RopePartial)
            &&& v.contains(Kernel::WriteCache)
        }),
        ({
            let v = entries(Family::Qwen35, Shader::Delta);
            &&& v.contains(Kernel::ConvSilu)
            &&& v.contains(Kernel::ConvShift)
            &&& v.contains(Kernel::ConvCommit)
            &&& v.contains(Kernel::L2normQk)
            &&& v.contains(Kernel::DeltaRecur)
        }),
{
    let v = entries(Family::Qwen35, Shader::Ops);
    assert(v[0] == Kernel::RmsNorm && v[1] == Kernel::AddScale && v[2] == Kernel::Copy && v[3]
        == Kernel::Swiglu && v[4] == Kernel::MulSilu && v[5] == Kernel::MulSigmoid && v[6]
        == Kernel::SplitHalf && v[7] == Kernel::RopePartial && v[8] == Kernel::WriteCache);
    let d = entries(Family::Qwen35, Shader::Delta);
    assert(d[0] == Kernel::ConvSilu && d[1] == Kernel::ConvShift && d[2] == Kernel::ConvCommit
        && d[3] == Kernel::L2normQk && d[4] == Kernel::DeltaRecur);
}

/// Nothing is missing from layer `il` or behind it, if nothing is from `from` on.
proof fn lemma_qwen35_layer(m: Hybrid, from: int, il: int, t: int)
    requires
        first_error(m.errors_from(from, t)) is None,
        0 <= from <= il <= m.cfg.n_layers,
    ensures
        first_error(m.errors_from(il, t)) is None,
        il < m.cfg.n_layers ==> first_error(m.layer_errors(il, t)) is None,
    decreases il - from,
{
    if from < m.cfg.n_layers {
        lemma_first_error_concat(m.layer_errors(from, t), m.errors_from(from + 1, t));
        if from < il {
            lemma_qwen35_layer(m, from + 1, il, t);
        }
    }
}

/// What nothing is missing from can run.
proof fn lemma_qwen35_runnable(m: Hybrid, il: int, t: int)
    requires
        first_error(m.layer_errors(il, t)) is None,
    ensures
        m.cfg.recurrent@[il] ==> Hybrid::linear_runnable(m.linear_refs(il), t),
        !m.cfg.recurrent@[il] ==> Hybrid::full_runnable(m.full_refs(il), t),
        Hybrid::ffn_runnable(m.ffn_refs(il), t),
{
    let e = m.layer_errors(il, t);
    let mid = if m.cfg.recurrent@[il] {
        m.linear_errors(il, t)
    } else {
        m.full_errors(il, t)
    };
    let end = m.ffn_errors(il, t);
    assert forall|k: int| 0 <= k < mid.len() implies #[trigger] mid[k] is None by {
        assert(e[k + 1] == mid[k]);
        lemma_all_clear(e, k + 1);
    }
    assert forall|k: int| 0 <= k < end.len() implies #[trigger] end[k] is None by {
        assert(e[k + 1 + mid.len()] == end[k]);
        lemma_all_clear(e, k + 1 + mid.len());
    }
    assert(end[1] is None && end[2] is None && end[3] is None);
    if m.cfg.recurrent@[il] {
        assert forall|k: int| 0 <= k < m.linear_errors(il, t).len() implies (#[trigger] m.linear_errors(
            il,
            t,
        )[k]) is None by {
            assert(mid[k] is None);
        }
    } else {
        assert forall|k: int| 0 <= k < m.full_errors(il, t).len() implies (#[trigger] m.full_errors(
            il,
            t,
        )[k]) is None by {
            assert(mid[k] is None);
        }
    }
}

proof fn lemma_qwen35_served(m: Hybrid, il: int, t: int)
    requires
        first_error(m.layer_errors(il, t)) is None,
    ensures
        all_served(Family::Qwen35, m.layer_nodes(il, t)),
{
    let f = Family::Qwen35;
    lemma_qwen35_runnable(m, il, t);
    lemma_entries(f);
    lemma_qwen35_ops();
    let front = m.normed(m.param(blk(il, ".attn_norm.weight"@)), t) + seq![
        layer_mark("attn_norm-"@, il, 1),
    ];
    assert(all_served(f, front));
    if m.cfg.recurrent@[il] {
        let r = m.linear_refs(il);
        assert(all_served(f, m.linear_proj_nodes(r, il, t)));
        let runs = m.delta_runs(il, t);
        assert forall|i: int| 0 <= i < runs.len() implies served(
            f,
            (#[trigger] runs[i]).kernel,
            runs[i].bind,
        ) by {}
        assert(all_served(f, m.delta_nodes(r, il, t)));
        lemma_concat(f, m.linear_proj_nodes(r, il, t), m.delta_nodes(r, il, t));
    } else {
        let r = m.full_refs(il);
        assert(all_served(f, m.full_proj_nodes(r, il, t)));
        assert(all_served(f, m.rotate_nodes(r, il, t)));
        assert(all_served(f, m.attn_nodes(r, il, t)));
        lemma_concat(f, m.full_proj_nodes(r, il, t), m.rotate_nodes(r, il, t));
        lemma_concat(
            f,
            m.full_proj_nodes(r, il, t) + m.rotate_nodes(r, il, t),
            m.attn_nodes(r, il, t),
        );
    }
    let end = m.ffn_nodes(m.ffn_refs(il), il, t);
    assert(all_served(f, end));
    lemma_concat(f, front, m.mix_nodes(il, t));
    lemma_concat(f, front + m.mix_nodes(il, t), end);
}

proof fn lemma_qwen35_nodes(m: Hybrid, n: int, t: int)
    requires
        0 <= n <= m.cfg.n_layers,
        m.embed_error() is None,
        first_error(m.errors_from(0, t)) is None,
    ensures
        all_served(Family::Qwen35, m.nodes_to(n, t)),
    decreases n,
{
    let f = Family::Qwen35;
    if n <= 0 {
        lemma_entries(f);
    } else {
        lemma_qwen35_nodes(m, n - 1, t);
        lemma_qwen35_layer(m, 0, n - 1, t);
        lemma_qwen35_served(m, n - 1, t);
        lemma_concat(f, m.nodes_to(n - 1, t), m.layer_nodes(n - 1, t));
    }
}

/// Every dispatch of a qwen35 plan goes to a kernel that qwen35 builds, with a bind
/// group of that kernel's module.
pub proof fn qwen35_plans_are_served(m: Hybrid, p: CachedPlan, t: int)
    requires
        first_error(m.errors(t)) is None,
        m.is_plan(p, t),
    ensures
        plan_served(Family::Qwen35, p.plan@),
        plan_served(Family::Qwen35, p.tail@),
{
    let f = Family::Qwen35;
    let n = m.cfg.n_layers as int;
    let first = m.errors(t).take(1);
    assert(m.errors(t) =~= first + m.errors_from(0, t));
    lemma_all_clear(m.errors(t), 0);
    lemma_first_error_concat(first, m.errors_from(0, t));
    lemma_qwen35_nodes(m, n, t);
    lemma_qwen35_layer(m, 0, n, t);
    lemma_all_clear(m.errors_from(n, t), 1);
    lemma_entries(f);
    lemma_qwen35_ops();
    let last = m.nodes(t).skip(m.nodes_to(n, t).len() as int);
    assert(m.nodes(t) =~= m.nodes_to(n, t) + last);
    assert(all_served(f, last));
    lemma_concat(f, m.nodes_to(n, t), last);
    lemma_lowered(f, m.nodes(t));
    assert(p.plan@ == p.body().plan);
}

/// The kernels that the tower builds, where they stand in its list.
proof fn lemma_vision_ops()
    ensures
        ({
            let v = entries(Family::Vision, Shader::Ops);
            &&& v.contains(Kernel::RmsNorm)
            &&& v.contains(Kernel::Geglu)
            &&& v.contains(Kernel::AddScale)
            &&& v.contains(Kernel::Copy)
            &&& v.contains(Kernel::Rope2d)
            &&& v.contains(Kernel::ClampRange)
            &&& v.contains(Kernel::PoolAvg)
        }),
{
    let v = entries(Family::Vision, Shader::Ops);
    assert(v[0] == Kernel::RmsNorm && v[1] == Kernel::Geglu && v[2] == Kernel::AddScale && v[3]
        == Kernel::Copy && v[4] == Kernel::Rope2d && v[5] == Kernel::ClampRange && v[6]
        == Kernel::PoolAvg);
}

/// Nothing is missing from layer `il` or behind it, if nothing is from `from` on.
proof fn lemma_vision_layer(m: VisionGpu, from: int, il: int, p: Patches)
    requires
        first_error(m.errors_from(from, p)) is None,
        0 <= from <= il <= m.cfg.n_layers,
    ensures
        first_error(m.errors_from(il, p)) is None,
        il < m.cfg.n_layers ==> first_error(m.layer_errors(il, p.n as int)) is None,
    decreases il - from,
{
    if from < m.cfg.n_layers {
        lemma_first_error_concat(m.layer_errors(from, p.n as int), m.errors_from(from + 1, p));
        if from < il {
            lemma_vision_layer(m, from + 1, il, p);
        }
    }
}

/// A linear with its clamps.
proof fn lemma_vision_linear(
    m: VisionGpu,
    name: Seq<char>,
    h: Handle,
    n: int,
    src: Buf,
    dst: Buf,
    out_dim: int,
    in_dim: int,
)
    requires
        matvec_kernel(h.ty, n as u32) is Some,
    ensures
        all_served(Family::Vision, m.linear(name, h, n, src, dst, out_dim, in_dim)),
{
    lemma_entries(Family::Vision);
    lemma_vision_ops();
}

proof fn lemma_vision_served(m: VisionGpu, il: int, p: Patches)
    requires
        first_error(m.layer_errors(il, p.n as int)) is None,
    ensures
        all_served(Family::Vision, m.layer_nodes(il, p)),
{
    let f = Family::Vision;
    let n = p.n as int;
    let e = m.layer_errors(il, n);
    let r = m.refs_of(il);
    assert forall|k: int| 0 <= k < e.len() implies #[trigger] e[k] is None by {
        lemma_all_clear(e, k);
    }
    assert(e[1] is None && e[2] is None && e[3] is None && e[6] is None && e[9] is None && e[10]
        is None && e[11] is None);
    assert(VisionGpu::runnable(r, n));
    lemma_entries(f);
    lemma_vision_ops();
    let d = m.cfg.d_model as int;
    let ff = m.cfg.ffn_dim as int;
    // Norm and projections.
    let (n1, n2) = (m.normed(n, r.ln1), m.normed(n, r.ln2));
    assert(all_served(f, n1));
    assert(all_served(f, n2));
    let q_name = vblk(il, ".attn_q.weight"@);
    let q = m.linear(q_name, r.q, n, Buf::X, Buf::Q, d, d);
    let k_name = vblk(il, ".attn_k.weight"@);
    let k = m.linear(k_name, r.k, n, Buf::X, Buf::K, d, d);
    let v_name = vblk(il, ".attn_v.weight"@);
    let v = m.linear(v_name, r.v, n, Buf::X, Buf::V, d, d);
    lemma_vision_linear(m, q_name, r.q, n, Buf::X, Buf::Q, d, d);
    lemma_vision_linear(m, k_name, r.k, n, Buf::X, Buf::K, d, d);
    lemma_vision_linear(m, v_name, r.v, n, Buf::X, Buf::V, d, d);
    lemma_concat(f, n1, q);
    lemma_concat(f, n1 + q, k);
    lemma_concat(f, n1 + q + k, v);
    let qkv = m.qkv_nodes(r, il, n);
    assert(all_served(f, qkv));
    // Attention.
    let attn = m.attn_nodes(r, p);
    assert(all_served(f, attn));
    // Output projection.
    let name = vblk(il, ".attn_out.weight"@);
    lemma_vision_linear(m, name, r.out, n, Buf::Attn, Buf::Proj, d, d);
    let post = seq![m.norm_node(n, r.attn_post_norm, Buf::Proj), m.add_node(n, Buf::Proj)];
    assert(all_served(f, post));
    lemma_concat(f, m.linear(name, r.out, n, Buf::Attn, Buf::Proj, d, d), post);
    let out = m.out_nodes(r, il, n);
    assert(all_served(f, out));
    // Feed-forward.
    let gate = vblk(il, ".ffn_gate.weight"@);
    let up = vblk(il, ".ffn_up.weight"@);
    lemma_vision_linear(m, gate, r.gate, n, Buf::X, Buf::Gate, ff, d);
    lemma_vision_linear(m, up, r.up, n, Buf::X, Buf::Up, ff, d);
    let gl = m.linear(gate, r.gate, n, Buf::X, Buf::Gate, ff, d);
    let ul = m.linear(up, r.up, n, Buf::X, Buf::Up, ff, d);
    lemma_concat(f, n2, gl);
    lemma_concat(f, n2 + gl, ul);
    let gated = m.gated_nodes(r, il, n);
    let act = gated.skip((n2 + gl + ul).len() as int);
    assert(gated =~= n2 + gl + ul + act);
    assert(act.len() == 1);
    assert(all_served(f, act));
    lemma_concat(f, n2 + gl + ul, act);
    let down = vblk(il, ".ffn_down.weight"@);
    lemma_vision_linear(m, down, r.down, n, Buf::Gate, Buf::Proj, d, ff);
    let end = seq![m.norm_node(n, r.ffn_post_norm, Buf::Proj), m.add_node(n, Buf::Proj)];
    assert(all_served(f, end));
    lemma_concat(f, m.linear(down, r.down, n, Buf::Gate, Buf::Proj, d, ff), end);
    let last = m.down_nodes(r, il, n);
    assert(all_served(f, last));
    lemma_concat(f, qkv, attn);
    lemma_concat(f, qkv + attn, out);
    lemma_concat(f, qkv + attn + out, gated);
    lemma_concat(f, qkv + attn + out + gated, last);
}

proof fn lemma_vision_nodes(m: VisionGpu, k: int, p: Patches)
    requires
        0 <= k <= m.cfg.n_layers,
        m.weight_error("v.patch_embd.weight"@, p.n as int) is None,
        first_error(m.errors_from(0, p)) is None,
    ensures
        all_served(Family::Vision, m.nodes_to(k, p)),
    decreases k,
{
    let f = Family::Vision;
    if k <= 0 {
        let name = "v.patch_embd.weight"@;
        let n = p.n as int;
        let d = m.cfg.d_model as int;
        lemma_vision_linear(m, name, m.weight(name), n, Buf::X, Buf::H, d, m.patch_width());
        lemma_vision_ops();
        let front = m.linear(name, m.weight(name), n, Buf::X, Buf::H, d, m.patch_width());
        let add = seq![m.add_node(n, Buf::Pos)];
        assert(all_served(f, add));
        lemma_concat(f, front, add);
        assert(front + add =~= m.embed_nodes(n));
    } else {
        lemma_vision_nodes(m, k - 1, p);
        lemma_vision_layer(m, 0, k - 1, p);
        lemma_vision_served(m, k - 1, p);
        lemma_concat(f, m.nodes_to(k - 1, p), m.layer_nodes(k - 1, p));
    }
}

/// Every dispatch of an image's plan goes to a kernel that the tower builds, with a
/// bind group of that kernel's module.
pub proof fn vision_plans_are_served(m: VisionGpu, p: Patches)
    requires
        first_error(m.errors(p)) is None,
    ensures
        plan_served(Family::Vision, lower(m.nodes(p)).plan),
{
    let f = Family::Vision;
    let n = m.cfg.n_layers as int;
    let first = m.errors(p).take(1);
    assert(m.errors(p) =~= first + m.errors_from(0, p));
    lemma_all_clear(m.errors(p), 0);
    lemma_first_error_concat(first, m.errors_from(0, p));
    lemma_vision_nodes(m, n, p);
    lemma_vision_layer(m, 0, n, p);
    lemma_all_clear(m.errors_from(n, p), 0);
    lemma_entries(f);
    lemma_vision_ops();
    assert(all_served(f, m.pool_nodes(p)));
    lemma_concat(f, m.nodes_to(n, p), m.pool_nodes(p));
    lemma_lowered(f, m.nodes(p));
}

} // verus!
