//! What a plan computes, whatever the kernels do.
//!
//! A kernel takes the words of its slot and what its buffers hold, and gives what the
//! buffers that it writes hold then. Here that is a parameter, so that a plan has a
//! meaning: which weight, which parameters and which buffers meet in which kernel, and
//! in which order.

use crate::gpu::arena::Handle;
use crate::gpu::grid::{matvec_kernel, Kernel};
use crate::gpu::plan::{
    at_offset, lower, slot_offset, slot_words, Bind, Buf, Dispatch, Lowered, Node, Run, Slot,
    MAX_SLOTS, UNIFORM_SLOT,
};
use vstd::prelude::*;

verus! {

/// What kernels make of what their buffers hold. Each is given the kernel, the words of
/// the slot, and the contents of the buffers in the order of their bindings.
#[verifier::reject_recursive_types(V)]
pub struct Device<V> {
    /// The third buffer of an elementwise kernel.
    pub ops: spec_fn(Kernel, Seq<u32>, V, V, V) -> V,
    /// The result of a projection by a weight buffer, from the token ids, the input and
    /// what stood in its place.
    pub matvec: spec_fn(Kernel, Seq<u32>, usize, V, V, V) -> V,
    /// The scores of an attention kernel.
    pub scores: spec_fn(Kernel, Seq<u32>, V, V, V, V, V) -> V,
    /// The heads of an attention kernel.
    pub attn: spec_fn(Kernel, Seq<u32>, V, V, V, V, V) -> V,
    /// The state of a delta-net kernel.
    pub state: spec_fn(Kernel, Seq<u32>, V, V, V, V, V) -> V,
    /// The result of a delta-net kernel.
    pub delta: spec_fn(Kernel, Seq<u32>, V, V, V, V, V) -> V,
}

/// What the buffers hold after a dispatch.
pub open spec fn dispatched<V>(
    dev: Device<V>,
    kernel: Kernel,
    bind: Bind,
    w: Seq<u32>,
    m: spec_fn(Buf) -> V,
) -> spec_fn(Buf) -> V {
    |x: Buf|
        match bind {
            Bind::Ops { a, b, out } => if x == out {
                (dev.ops)(kernel, w, m(a), m(b), m(out))
            } else {
                m(x)
            },
            Bind::Matvec { weights, x: from, y } => if x == y {
                (dev.matvec)(kernel, w, weights, m(Buf::Tokens), m(from), m(y))
            } else {
                m(x)
            },
            Bind::Attn { q, k, v, scores, out } => if x == out {
                (dev.attn)(kernel, w, m(q), m(k), m(v), m(scores), m(out))
            } else if x == scores {
                (dev.scores)(kernel, w, m(q), m(k), m(v), m(scores), m(out))
            } else {
                m(x)
            },
            Bind::Delta { a, b, c, state, out } => if x == out {
                (dev.delta)(kernel, w, m(a), m(b), m(c), m(state), m(out))
            } else if x == state {
                (dev.state)(kernel, w, m(a), m(b), m(c), m(state), m(out))
            } else {
                m(x)
            },
        }
}

/// What they hold after the first `k` dispatches of a plan for `n` tokens at `base`.
pub open spec fn plan_flow<V>(
    dev: Device<V>,
    base: u32,
    n: u32,
    plan: Seq<Dispatch>,
    slots: Seq<Slot>,
    k: int,
    m: spec_fn(Buf) -> V,
) -> spec_fn(Buf) -> V
    decreases k,
{
    if k <= 0 {
        m
    } else {
        let d = plan[k - 1];
        let slot = slots[d.offset as int / UNIFORM_SLOT as int];
        dispatched(
            dev,
            d.kernel,
            d.bind,
            slot_words(slot, base, n),
            plan_flow(dev, base, n, plan, slots, k - 1, m),
        )
    }
}

/// What they hold after the first `k` dispatches of a step.
pub open spec fn runs_flow<V>(
    dev: Device<V>,
    w: Seq<u32>,
    runs: Seq<Run>,
    k: int,
    m: spec_fn(Buf) -> V,
) -> spec_fn(Buf) -> V
    decreases k,
{
    if k <= 0 {
        m
    } else {
        dispatched(
            dev,
            runs[k - 1].kernel,
            runs[k - 1].bind,
            w,
            runs_flow(dev, w, runs, k - 1, m),
        )
    }
}

/// What they hold after a step.
pub open spec fn node_flow<V>(
    dev: Device<V>,
    base: u32,
    n: u32,
    node: Node,
    m: spec_fn(Buf) -> V,
) -> spec_fn(Buf) -> V {
    match node {
        Node::Step { slot, runs } => runs_flow(
            dev,
            slot_words(slot, base, n),
            runs,
            runs.len() as int,
            m,
        ),
        Node::Mark { .. } => m,
    }
}

/// What they hold after the first `k` steps.
pub open spec fn flow_to<V>(
    dev: Device<V>,
    base: u32,
    n: u32,
    nodes: Seq<Node>,
    k: int,
    m: spec_fn(Buf) -> V,
) -> spec_fn(Buf) -> V
    decreases k,
{
    if k <= 0 {
        m
    } else {
        node_flow(dev, base, n, nodes[k - 1], flow_to(dev, base, n, nodes, k - 1, m))
    }
}

/// What they hold after all of them.
pub open spec fn flow<V>(
    dev: Device<V>,
    base: u32,
    n: u32,
    nodes: Seq<Node>,
    m: spec_fn(Buf) -> V,
) -> spec_fn(Buf) -> V {
    flow_to(dev, base, n, nodes, nodes.len() as int, m)
}

proof fn lemma_flow_front<V>(
    dev: Device<V>,
    base: u32,
    n: u32,
    a: Seq<Node>,
    b: Seq<Node>,
    k: int,
    m: spec_fn(Buf) -> V,
)
    requires
        k <= a.len(),
    ensures
        flow_to(dev, base, n, a + b, k, m) == flow_to(dev, base, n, a, k, m),
    decreases k,
{
    if k > 0 {
        lemma_flow_front(dev, base, n, a, b, k - 1, m);
        assert((a + b)[k - 1] == a[k - 1]);
    }
}

proof fn lemma_flow_back<V>(
    dev: Device<V>,
    base: u32,
    n: u32,
    a: Seq<Node>,
    b: Seq<Node>,
    k: int,
    m: spec_fn(Buf) -> V,
)
    requires
        0 <= k <= b.len(),
    ensures
        flow_to(dev, base, n, a + b, a.len() + k, m) == flow_to(
            dev,
            base,
            n,
            b,
            k,
            flow(dev, base, n, a, m),
        ),
    decreases k,
{
    if k == 0 {
        lemma_flow_front(dev, base, n, a, b, a.len() as int, m);
    } else {
        lemma_flow_back(dev, base, n, a, b, k - 1, m);
        assert((a + b)[a.len() + k - 1] == b[k - 1]);
    }
}

/// Steps run one list behind the other.
pub(crate) proof fn lemma_flow_concat<V>(
    dev: Device<V>,
    base: u32,
    n: u32,
    a: Seq<Node>,
    b: Seq<Node>,
    m: spec_fn(Buf) -> V,
)
    ensures
        flow(dev, base, n, a + b, m) == flow(dev, base, n, b, flow(dev, base, n, a, m)),
{
    lemma_flow_back(dev, base, n, a, b, b.len() as int, m);
}

/// What the three attention kernels leave in the scores and in the heads.
pub open spec fn attended<V>(dev: Device<V>, w: Seq<u32>, q: V, k: V, v: V, s: V, o: V) -> (V, V) {
    let s1 = (dev.scores)(Kernel::ScoresPass, w, q, k, v, s, o);
    let o1 = (dev.attn)(Kernel::ScoresPass, w, q, k, v, s, o);
    let s2 = (dev.scores)(Kernel::SoftmaxPass, w, q, k, v, s1, o1);
    let o2 = (dev.attn)(Kernel::SoftmaxPass, w, q, k, v, s1, o1);
    (
        (dev.scores)(Kernel::WeightedV, w, q, k, v, s2, o2),
        (dev.attn)(Kernel::WeightedV, w, q, k, v, s2, o2),
    )
}

/// A projection by the weight at `h`, of `n` rows from `x` into where `y` stood.
pub open spec fn projected<V>(
    dev: Device<V>,
    h: Handle,
    in_dim: u32,
    out_dim: u32,
    n: u32,
    tokens: V,
    x: V,
    y: V,
) -> V {
    (dev.matvec)(
        matvec_kernel(h.ty, n)->0,
        seq![h.base_u32, in_dim, out_dim, n],
        h.buffer,
        tokens,
        x,
        y,
    )
}

/// A norm of `n` rows of `d` numbers with the gains at `gain`.
pub open spec fn normed_rows<V>(
    dev: Device<V>,
    n: u32,
    d: u32,
    gain: u32,
    eps: u32,
    z: V,
    x: V,
) -> V {
    (dev.ops)(Kernel::RmsNorm, seq![n, d, gain, 0u32, eps, 0u32, 1u32, 0u32], z, z, x)
}

/// A norm without gains.
pub open spec fn bare_normed<V>(dev: Device<V>, n: u32, d: u32, eps: u32, z: V, x: V) -> V {
    (dev.ops)(Kernel::RmsNorm, seq![n, d, 0u32, 0u32, eps, 0u32, 0u32, 0u32], z, z, x)
}

/// An elementwise kernel with a factor.
pub open spec fn cellwise<V>(
    dev: Device<V>,
    kernel: Kernel,
    n: u32,
    d: u32,
    factor: u32,
    a: V,
    b: V,
    out: V,
) -> V {
    (dev.ops)(kernel, seq![n, d, 0u32, 0u32, factor, 0u32, 0u32, 0u32], a, b, out)
}

/// A plan's dispatches, each with the slot that its offset selects, compute what the
/// steps compute from which the plan was made.
pub proof fn a_plan_flows_as_its_steps<V>(
    dev: Device<V>,
    base: u32,
    n: u32,
    nodes: Seq<Node>,
    m: spec_fn(Buf) -> V,
)
    requires
        lower(nodes).slots.len() <= MAX_SLOTS,
    ensures
        plan_flow(
            dev,
            base,
            n,
            lower(nodes).plan,
            lower(nodes).slots,
            lower(nodes).plan.len() as int,
            m,
        ) == flow(dev, base, n, nodes, m),
    decreases nodes.len(),
{
    if nodes.len() > 0 {
        let before = nodes.drop_last();
        let l = lower(before);
        let all = lower(nodes);
        a_plan_flows_as_its_steps(dev, base, n, before, m);
        assert(nodes =~= before + seq![nodes.last()]);
        lemma_flow_front(dev, base, n, before, seq![nodes.last()], before.len() as int, m);
        assert(l.slots.len() <= all.slots.len());
        lemma_selects(before);
        lemma_plan_front(dev, base, n, l, all, l.plan.len() as int, m);
        match nodes.last() {
            Node::Step { slot, runs } => {
                let i = l.slots.len() as int;
                assert(all.plan == l.plan + runs.map_values(
                    |r: Run| at_offset(r, slot_offset(i)),
                ));
                lemma_plan_back(dev, base, n, l, all, slot, runs, runs.len() as int, m);
            },
            Node::Mark { .. } => {},
        }
    }
}

/// Every dispatch selects a slot that was recorded.
proof fn lemma_selects(nodes: Seq<Node>)
    requires
        lower(nodes).slots.len() <= MAX_SLOTS,
    ensures
        forall|i: int|
            0 <= i < lower(nodes).plan.len() ==> 0 <= (#[trigger] lower(nodes).plan[i]).offset as int
                / UNIFORM_SLOT as int && (lower(nodes).plan[i].offset as int / UNIFORM_SLOT as int)
                < lower(nodes).slots.len(),
    decreases nodes.len(),
{
    if nodes.len() > 0 {
        let l = lower(nodes.drop_last());
        let all = lower(nodes);
        assert(l.slots.len() <= all.slots.len());
        lemma_selects(nodes.drop_last());
        assert forall|i: int| 0 <= i < all.plan.len() implies 0 <= (#[trigger] all.plan[
            i
        ]).offset as int / UNIFORM_SLOT as int && (all.plan[i].offset as int / UNIFORM_SLOT as int)
            < all.slots.len() by {
            if i < l.plan.len() {
                assert(all.plan[i] == l.plan[i]);
            } else {
                assert(all.plan[i].offset == slot_offset(l.slots.len() as int));
            }
        }
    }
}

proof fn lemma_plan_front<V>(
    dev: Device<V>,
    base: u32,
    n: u32,
    l: Lowered,
    all: Lowered,
    k: int,
    m: spec_fn(Buf) -> V,
)
    requires
        0 <= k <= l.plan.len() <= all.plan.len(),
        l.slots.len() <= all.slots.len(),
        forall|i: int| 0 <= i < l.plan.len() ==> #[trigger] all.plan[i] == l.plan[i],
        forall|i: int| 0 <= i < l.slots.len() ==> #[trigger] all.slots[i] == l.slots[i],
        forall|i: int|
            0 <= i < l.plan.len() ==> 0 <= (#[trigger] l.plan[i]).offset as int
                / UNIFORM_SLOT as int && (l.plan[i].offset as int / UNIFORM_SLOT as int)
                < l.slots.len(),
    ensures
        plan_flow(dev, base, n, all.plan, all.slots, k, m) == plan_flow(
            dev,
            base,
            n,
            l.plan,
            l.slots,
            k,
            m,
        ),
    decreases k,
{
    if k > 0 {
        lemma_plan_front(dev, base, n, l, all, k - 1, m);
        assert(all.plan[k - 1] == l.plan[k - 1]);
        let d = l.plan[k - 1];
        assert(all.slots[d.offset as int / UNIFORM_SLOT as int] == l.slots[d.offset as int
            / UNIFORM_SLOT as int]);
    }
}

proof fn lemma_plan_back<V>(
    dev: Device<V>,
    base: u32,
    n: u32,
    l: Lowered,
    all: Lowered,
    slot: Slot,
    runs: Seq<Run>,
    k: int,
    m: spec_fn(Buf) -> V,
)
    requires
        0 <= k <= runs.len(),
        l.slots.len() < MAX_SLOTS,
        all.slots == l.slots.push(slot),
        all.plan == l.plan + runs.map_values(
            |r: Run| at_offset(r, slot_offset(l.slots.len() as int)),
        ),
    ensures
        plan_flow(dev, base, n, all.plan, all.slots, l.plan.len() + k, m) == runs_flow(
            dev,
            slot_words(slot, base, n),
            runs,
            k,
            plan_flow(dev, base, n, all.plan, all.slots, l.plan.len() as int, m),
        ),
    decreases k,
{
    if k > 0 {
        lemma_plan_back(dev, base, n, l, all, slot, runs, k - 1, m);
        let i = l.slots.len() as int;
        let d = all.plan[l.plan.len() + k - 1];
        assert(d == at_offset(runs[k - 1], slot_offset(i)));
        assert(d.offset as int / UNIFORM_SLOT as int == i);
        assert(all.slots[i] == slot);
    }
}

} // verus!
