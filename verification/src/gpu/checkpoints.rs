//! The checkpoints of the GPU plans and the intermediates of the CPU passes.
//!
//! A plan that can be stopped is compared with the CPU pass by name, so what it can be
//! stopped at has to be something that the pass shows.

use crate::config::Config;
use crate::cpu::{self, label_text, Label, Step};
use crate::gpu::forward::Resident;
use crate::gpu::plan::{lower, Node};
use crate::gpu::qwen35::Resident as Hybrid;
use crate::qwen35::config::Config as Mixed;
use crate::qwen35::cpu as hybrid;
use crate::text::tagged;
use vstd::prelude::*;

verus! {

/// A step that shows an intermediate under this name.
pub open spec fn shows(s: Step, name: Seq<char>) -> bool {
    s matches Step::Mark { label, .. } && label_text(label) == name
}

/// A pass shows an intermediate under this name.
pub open spec fn traced(v: Seq<Step>, name: Seq<char>) -> bool {
    exists|k: int| 0 <= k < v.len() && #[trigger] shows(v[k], name)
}

proof fn lemma_at(v: Seq<Step>, k: int, name: Seq<char>)
    requires
        0 <= k < v.len(),
        shows(v[k], name),
    ensures
        traced(v, name),
{
}

/// What a part of a pass shows, the whole shows.
proof fn lemma_part(a: Seq<Step>, b: Seq<Step>, name: Seq<char>)
    ensures
        traced(a, name) ==> traced(a + b, name),
        traced(b, name) ==> traced(a + b, name),
{
    if traced(a, name) {
        let k = choose|k: int| 0 <= k < a.len() && #[trigger] shows(a[k], name);
        assert((a + b)[k] == a[k]);
        lemma_at(a + b, k, name);
    }
    if traced(b, name) {
        let k = choose|k: int| 0 <= k < b.len() && #[trigger] shows(b[k], name);
        assert((a + b)[a.len() + k] == b[k]);
        lemma_at(a + b, a.len() + k, name);
    }
}

/// Every checkpoint among the nodes is shown by the pass.
pub open spec fn all_traced(s: Seq<Node>, v: Seq<Step>) -> bool {
    forall|i: int|
        0 <= i < s.len() ==> ((#[trigger] s[i]) matches Node::Mark { name, .. } ==> traced(v, name))
}

proof fn lemma_nodes(a: Seq<Node>, b: Seq<Node>, v: Seq<Step>)
    requires
        all_traced(a, v),
        all_traced(b, v),
    ensures
        all_traced(a + b, v),
{
    assert forall|i: int| 0 <= i < (a + b).len() implies ((#[trigger] (a + b)[i]) matches Node::Mark {
        name,
        ..
    } ==> traced(v, name)) by {
        if i < a.len() {
            assert((a + b)[i] == a[i]);
        } else {
            assert((a + b)[i] == b[i - a.len()]);
        }
    }
}

/// The checkpoints of a plan are those of its steps.
proof fn lemma_lowered(s: Seq<Node>, v: Seq<Step>)
    requires
        all_traced(s, v),
    ensures
        forall|i: int|
            0 <= i < lower(s).marks.len() ==> traced(v, (#[trigger] lower(s).marks[i]).0),
    decreases s.len(),
{
    if s.len() > 0 {
        let t = s.drop_last();
        assert forall|i: int| 0 <= i < t.len() implies ((#[trigger] t[i]) matches Node::Mark {
            name,
            ..
        } ==> traced(v, name)) by {
            assert(t[i] == s[i]);
        }
        lemma_lowered(t, v);
        assert(s[s.len() - 1] == s.last());
        assert forall|i: int| 0 <= i < lower(s).marks.len() implies traced(
            v,
            (#[trigger] lower(s).marks[i]).0,
        ) by {
            if i < lower(t).marks.len() {
                assert(lower(s).marks[i] == lower(t).marks[i]);
            }
        }
    }
}

// ---------------------------------------------------------------------------
// gemma4
// ---------------------------------------------------------------------------
/// The names of a layer's checkpoints.
proof fn lemma_gemma4_names(il: int)
    requires
        0 <= il <= usize::MAX,
    ensures
        label_text(Label::AttnNorm(il as usize)) == tagged("attn_norm-"@, il as nat),
        label_text(Label::Value(il as usize)) == tagged("Vcur-"@, il as nat),
        label_text(Label::Query(il as usize)) == tagged("Qcur-"@, il as nat),
        label_text(Label::ValueNormed(il as usize)) == tagged("Vcur_normed-"@, il as nat),
        label_text(Label::QueryNormed(il as usize)) == tagged("Qcur_normed-"@, il as nat),
        label_text(Label::QueryPos(il as usize)) == tagged("Qcur_pos-"@, il as nat),
        label_text(Label::KqvOut(il as usize)) == tagged("kqv_out-"@, il as nat),
        label_text(Label::AttnOut(il as usize)) == tagged("attn_out-"@, il as nat),
        label_text(Label::FfnGeglu(il as usize)) == tagged("ffn_geglu-"@, il as nat),
        label_text(Label::LayerOut(il as usize)) == tagged("l_out-"@, il as nat),
{
    reveal_strlit("-");
    reveal_strlit("attn_norm");
    reveal_strlit("attn_norm-");
    assert("attn_norm"@ + "-"@ =~= "attn_norm-"@);
    reveal_strlit("Vcur");
    reveal_strlit("Vcur-");
    assert("Vcur"@ + "-"@ =~= "Vcur-"@);
    reveal_strlit("Qcur");
    reveal_strlit("Qcur-");
    assert("Qcur"@ + "-"@ =~= "Qcur-"@);
    reveal_strlit("Vcur_normed");
    reveal_strlit("Vcur_normed-");
    assert("Vcur_normed"@ + "-"@ =~= "Vcur_normed-"@);
    reveal_strlit("Qcur_normed");
    reveal_strlit("Qcur_normed-");
    assert("Qcur_normed"@ + "-"@ =~= "Qcur_normed-"@);
    reveal_strlit("Qcur_pos");
    reveal_strlit("Qcur_pos-");
    assert("Qcur_pos"@ + "-"@ =~= "Qcur_pos-"@);
    reveal_strlit("kqv_out");
    reveal_strlit("kqv_out-");
    assert("kqv_out"@ + "-"@ =~= "kqv_out-"@);
    reveal_strlit("attn_out");
    reveal_strlit("attn_out-");
    assert("attn_out"@ + "-"@ =~= "attn_out-"@);
    reveal_strlit("ffn_geglu");
    reveal_strlit("ffn_geglu-");
    assert("ffn_geglu"@ + "-"@ =~= "ffn_geglu-"@);
    reveal_strlit("l_out");
    reveal_strlit("l_out-");
    assert("l_out"@ + "-"@ =~= "l_out-"@);
}

/// What layer `il` shows, the pass shows.
proof fn lemma_gemma4_layer(cfg: Config, il: int, n: int, t: int, base: int, name: Seq<char>)
    requires
        0 <= il < n,
        traced(cpu::layer_steps(cfg, il, t, base), name),
    ensures
        traced(cpu::layers_steps(cfg, n, t, base), name),
    decreases n,
{
    lemma_part(
        cpu::layers_steps(cfg, n - 1, t, base),
        cpu::layer_steps(cfg, n - 1, t, base),
        name,
    );
    if il < n - 1 {
        lemma_gemma4_layer(cfg, il, n - 1, t, base, name);
    }
}

/// What a part of a layer shows, the pass shows.
proof fn lemma_gemma4_traced(cfg: Config, il: int, t: int, base: int, name: Seq<char>)
    requires
        0 <= il < cfg.n_layers,
        traced(cpu::qkv_steps(cfg, il, t), name) || traced(
            cpu::head_steps(cfg, il, t, base),
            name,
        ) || traced(cpu::out_steps(cfg, il, t), name) || traced(cpu::ffn_steps(cfg, il, t), name),
    ensures
        traced(cpu::steps(cfg, t, base), name),
{
    let (a, b, c, d, e) = (
        cpu::qkv_steps(cfg, il, t),
        cpu::head_steps(cfg, il, t, base),
        cpu::attn_steps(cfg, il, t, base),
        cpu::out_steps(cfg, il, t),
        cpu::ffn_steps(cfg, il, t),
    );
    lemma_part(a, b, name);
    lemma_part(a + b, c, name);
    lemma_part(a + b + c, d, name);
    lemma_part(a + b + c + d, e, name);
    let n = cfg.n_layers as int;
    lemma_gemma4_layer(cfg, il, n, t, base, name);
    let (x, y, z) = (
        cpu::embed_steps(cfg, t),
        cpu::layers_steps(cfg, n, t, base),
        cpu::head_out_steps(cfg, t),
    );
    lemma_part(x, y, name);
    lemma_part(x + y, z, name);
}

#[verifier::rlimit(50)]
proof fn lemma_gemma4_nodes(m: Resident, il: int, t: int, base: int)
    requires
        0 <= il < m.cfg.n_layers,
    ensures
        all_traced(m.layer_nodes(il, t), cpu::steps(m.cfg, t, base)),
{
    let v = cpu::steps(m.cfg, t, base);
    let cfg = m.cfg;
    lemma_gemma4_names(il);
    let (a, b, d, e) = (
        cpu::qkv_steps(cfg, il, t),
        cpu::head_steps(cfg, il, t, base),
        cpu::out_steps(cfg, il, t),
        cpu::ffn_steps(cfg, il, t),
    );
    assert(traced(v, tagged("attn_norm-"@, il as nat))) by {
        lemma_at(a, 2, tagged("attn_norm-"@, il as nat));
        lemma_gemma4_traced(cfg, il, t, base, tagged("attn_norm-"@, il as nat));
    }
    assert(traced(v, tagged("Vcur-"@, il as nat))) by {
        lemma_at(a, 8, tagged("Vcur-"@, il as nat));
        lemma_gemma4_traced(cfg, il, t, base, tagged("Vcur-"@, il as nat));
    }
    assert(traced(v, tagged("Qcur-"@, il as nat))) by {
        lemma_at(a, 4, tagged("Qcur-"@, il as nat));
        lemma_gemma4_traced(cfg, il, t, base, tagged("Qcur-"@, il as nat));
    }
    assert(traced(v, tagged("Vcur_normed-"@, il as nat))) by {
        lemma_at(b, 9, tagged("Vcur_normed-"@, il as nat));
        lemma_gemma4_traced(cfg, il, t, base, tagged("Vcur_normed-"@, il as nat));
    }
    assert(traced(v, tagged("Qcur_normed-"@, il as nat))) by {
        lemma_at(b, 1, tagged("Qcur_normed-"@, il as nat));
        lemma_gemma4_traced(cfg, il, t, base, tagged("Qcur_normed-"@, il as nat));
    }
    assert(traced(v, tagged("Qcur_pos-"@, il as nat))) by {
        lemma_at(b, 3, tagged("Qcur_pos-"@, il as nat));
        lemma_gemma4_traced(cfg, il, t, base, tagged("Qcur_pos-"@, il as nat));
    }
    assert(traced(v, tagged("kqv_out-"@, il as nat))) by {
        lemma_at(d, 0, tagged("kqv_out-"@, il as nat));
        lemma_gemma4_traced(cfg, il, t, base, tagged("kqv_out-"@, il as nat));
    }
    assert(traced(v, tagged("attn_out-"@, il as nat))) by {
        lemma_at(d, 5, tagged("attn_out-"@, il as nat));
        lemma_gemma4_traced(cfg, il, t, base, tagged("attn_out-"@, il as nat));
    }
    assert(traced(v, tagged("ffn_geglu-"@, il as nat))) by {
        lemma_at(e, 6, tagged("ffn_geglu-"@, il as nat));
        lemma_gemma4_traced(cfg, il, t, base, tagged("ffn_geglu-"@, il as nat));
    }
    assert(traced(v, tagged("l_out-"@, il as nat))) by {
        lemma_at(e, 11, tagged("l_out-"@, il as nat));
        lemma_gemma4_traced(cfg, il, t, base, tagged("l_out-"@, il as nat));
    }
    let r = m.refs_of(il);
    let (p, q, s, f) = (
        m.qkv_nodes(r, il, t),
        m.rotate_nodes(r, il, t),
        m.attn_nodes(r, il, t),
        m.ffn_nodes(r, il, t),
    );
    assert(all_traced(p, v));
    assert(all_traced(q, v));
    assert(all_traced(s, v));
    assert(all_traced(f, v));
    lemma_nodes(p, q, v);
    lemma_nodes(p + q, s, v);
    lemma_nodes(p + q + s, f, v);
}

proof fn lemma_gemma4_to(m: Resident, n: int, t: int, base: int)
    requires
        0 <= n <= m.cfg.n_layers,
    ensures
        all_traced(m.nodes_to(n, t), cpu::steps(m.cfg, t, base)),
    decreases n,
{
    let v = cpu::steps(m.cfg, t, base);
    if n <= 0 {
        let x = cpu::embed_steps(m.cfg, t);
        let y = cpu::layers_steps(m.cfg, m.cfg.n_layers as int, t, base);
        lemma_at(x, 3, "inp_scaled"@);
        lemma_part(x, y, "inp_scaled"@);
        lemma_part(x + y, cpu::head_out_steps(m.cfg, t), "inp_scaled"@);
    } else {
        lemma_gemma4_to(m, n - 1, t, base);
        lemma_gemma4_nodes(m, n - 1, t, base);
        lemma_nodes(m.nodes_to(n - 1, t), m.layer_nodes(n - 1, t), v);
    }
}

/// Whatever a gemma4 plan can be stopped at, the CPU pass over the same batch shows
/// under the same name.
pub proof fn gemma4_checkpoints_are_traced(m: Resident, t: int, base: int)
    ensures
        forall|i: int|
            0 <= i < lower(m.nodes(t)).marks.len() ==> traced(
                cpu::steps(m.cfg, t, base),
                (#[trigger] lower(m.nodes(t)).marks[i]).0,
            ),
{
    let v = cpu::steps(m.cfg, t, base);
    let n = m.cfg.n_layers as int;
    lemma_gemma4_to(m, n, t, base);
    let head = cpu::head_out_steps(m.cfg, t);
    assert(head[1] matches Step::Mark { label: Label::HNextn, .. });
    lemma_at(head, 1, "h_nextn"@);
    lemma_part(
        cpu::embed_steps(m.cfg, t) + cpu::layers_steps(m.cfg, n, t, base),
        head,
        "h_nextn"@,
    );
    let last = m.nodes(t).skip(m.nodes_to(n, t).len() as int);
    assert(m.nodes(t) =~= m.nodes_to(n, t) + last);
    assert(last.len() == 2);
    assert(all_traced(last, v));
    lemma_nodes(m.nodes_to(n, t), last, v);
    lemma_lowered(m.nodes(t), v);
}

// ---------------------------------------------------------------------------
// qwen35
// ---------------------------------------------------------------------------
/// The names of a layer's checkpoints.
proof fn lemma_qwen35_names(il: int)
    requires
        0 <= il <= usize::MAX,
    ensures
        label_text(Label::AttnNorm(il as usize)) == tagged("attn_norm-"@, il as nat),
        label_text(Label::QkvMixed(il as usize)) == tagged("linear_attn_qkv_mixed-"@, il as nat),
        label_text(Label::Z(il as usize)) == tagged("z-"@, il as nat),
        label_text(Label::Alpha(il as usize)) == tagged("alpha-"@, il as nat),
        label_text(Label::Beta(il as usize)) == tagged("beta-"@, il as nat),
        label_text(Label::AttnOutput(il as usize)) == tagged("attn_output-"@, il as nat),
        label_text(Label::FinalOutput(il as usize)) == tagged("final_output-"@, il as nat),
        label_text(Label::LinearOut(il as usize)) == tagged("linear_attn_out-"@, il as nat),
        label_text(Label::QueryFull(il as usize)) == tagged("Qcur_full-"@, il as nat),
        label_text(Label::Key(il as usize)) == tagged("Kcur-"@, il as nat),
        label_text(Label::Value(il as usize)) == tagged("Vcur-"@, il as nat),
        label_text(Label::Query(il as usize)) == tagged("Qcur-"@, il as nat),
        label_text(Label::KeyPos(il as usize)) == tagged("Kcur_pos-"@, il as nat),
        label_text(Label::AttnGated(il as usize)) == tagged("attn_gated-"@, il as nat),
        label_text(Label::AttnResidual(il as usize)) == tagged("attn_residual-"@, il as nat),
        label_text(Label::AttnPostNorm(il as usize)) == tagged("attn_post_norm-"@, il as nat),
        label_text(Label::FfnOut(il as usize)) == tagged("ffn_out-"@, il as nat),
        label_text(Label::LayerOut(il as usize)) == tagged("l_out-"@, il as nat),
{
    reveal_strlit("-");
    reveal_strlit("attn_norm");
    reveal_strlit("attn_norm-");
    assert("attn_norm"@ + "-"@ =~= "attn_norm-"@);
    reveal_strlit("linear_attn_qkv_mixed");
    reveal_strlit("linear_attn_qkv_mixed-");
    assert("linear_attn_qkv_mixed"@ + "-"@ =~= "linear_attn_qkv_mixed-"@);
    reveal_strlit("z");
    reveal_strlit("z-");
    assert("z"@ + "-"@ =~= "z-"@);
    reveal_strlit("alpha");
    reveal_strlit("alpha-");
    assert("alpha"@ + "-"@ =~= "alpha-"@);
    reveal_strlit("beta");
    reveal_strlit("beta-");
    assert("beta"@ + "-"@ =~= "beta-"@);
    reveal_strlit("attn_output");
    reveal_strlit("attn_output-");
    assert("attn_output"@ + "-"@ =~= "attn_output-"@);
    reveal_strlit("final_output");
    reveal_strlit("final_output-");
    assert("final_output"@ + "-"@ =~= "final_output-"@);
    reveal_strlit("linear_attn_out");
    reveal_strlit("linear_attn_out-");
    assert("linear_attn_out"@ + "-"@ =~= "linear_attn_out-"@);
    reveal_strlit("Qcur_full");
    reveal_strlit("Qcur_full-");
    assert("Qcur_full"@ + "-"@ =~= "Qcur_full-"@);
    reveal_strlit("Kcur");
    reveal_strlit("Kcur-");
    assert("Kcur"@ + "-"@ =~= "Kcur-"@);
    reveal_strlit("Vcur");
    reveal_strlit("Vcur-");
    assert("Vcur"@ + "-"@ =~= "Vcur-"@);
    reveal_strlit("Qcur");
    reveal_strlit("Qcur-");
    assert("Qcur"@ + "-"@ =~= "Qcur-"@);
    reveal_strlit("Kcur_pos");
    reveal_strlit("Kcur_pos-");
    assert("Kcur_pos"@ + "-"@ =~= "Kcur_pos-"@);
    reveal_strlit("attn_gated");
    reveal_strlit("attn_gated-");
    assert("attn_gated"@ + "-"@ =~= "attn_gated-"@);
    reveal_strlit("attn_residual");
    reveal_strlit("attn_residual-");
    assert("attn_residual"@ + "-"@ =~= "attn_residual-"@);
    reveal_strlit("attn_post_norm");
    reveal_strlit("attn_post_norm-");
    assert("attn_post_norm"@ + "-"@ =~= "attn_post_norm-"@);
    reveal_strlit("ffn_out");
    reveal_strlit("ffn_out-");
    assert("ffn_out"@ + "-"@ =~= "ffn_out-"@);
    reveal_strlit("l_out");
    reveal_strlit("l_out-");
    assert("l_out"@ + "-"@ =~= "l_out-"@);
}

/// What layer `il` shows, the pass shows.
proof fn lemma_qwen35_layer(
    cfg: Mixed,
    il: int,
    n: int,
    t: int,
    base: int,
    name: Seq<char>,
)
    requires
        0 <= il < n,
        traced(hybrid::layer_steps(cfg, il, t, base), name),
    ensures
        traced(hybrid::layers_steps(cfg, n, t, base), name),
    decreases n,
{
    lemma_part(
        hybrid::layers_steps(cfg, n - 1, t, base),
        hybrid::layer_steps(cfg, n - 1, t, base),
        name,
    );
    if il < n - 1 {
        lemma_qwen35_layer(cfg, il, n - 1, t, base, name);
    }
}

/// What a part of a layer shows, the pass shows.
proof fn lemma_qwen35_traced(
    cfg: Mixed,
    il: int,
    t: int,
    base: int,
    name: Seq<char>,
)
    requires
        0 <= il < cfg.n_layers,
        traced(hybrid::norm_steps(cfg, il, t), name) || traced(
            hybrid::mixer_steps(cfg, il, t, base),
            name,
        ) || traced(hybrid::ffn_steps(cfg, il, t), name),
    ensures
        traced(hybrid::steps(cfg, t, base), name),
{
    let (a, b, c) = (
        hybrid::norm_steps(cfg, il, t),
        hybrid::mixer_steps(cfg, il, t, base),
        hybrid::ffn_steps(cfg, il, t),
    );
    lemma_part(a, b, name);
    lemma_part(a + b, c, name);
    let n = cfg.n_layers as int;
    lemma_qwen35_layer(cfg, il, n, t, base, name);
    let (x, y, z) = (
        hybrid::embed_steps(cfg, t),
        hybrid::layers_steps(cfg, n, t, base),
        hybrid::head_out_steps(cfg, t),
    );
    lemma_part(x, y, name);
    lemma_part(x + y, z, name);
}

proof fn lemma_qwen35_linear(m: Hybrid, il: int, t: int, base: int)
    requires
        0 <= il < m.cfg.n_layers,
        m.cfg.recurrent@[il],
    ensures
        all_traced(m.mix_nodes(il, t), hybrid::steps(m.cfg, t, base)),
{
    let v = hybrid::steps(m.cfg, t, base);
    let cfg = m.cfg;
    lemma_qwen35_names(il);
    let b = hybrid::mixer_steps(cfg, il, t, base);
    assert(traced(v, tagged("linear_attn_qkv_mixed-"@, il as nat))) by {
        lemma_at(b, 1, tagged("linear_attn_qkv_mixed-"@, il as nat));
        lemma_qwen35_traced(cfg, il, t, base, tagged("linear_attn_qkv_mixed-"@, il as nat));
    }
    assert(traced(v, tagged("z-"@, il as nat))) by {
        lemma_at(b, 3, tagged("z-"@, il as nat));
        lemma_qwen35_traced(cfg, il, t, base, tagged("z-"@, il as nat));
    }
    assert(traced(v, tagged("alpha-"@, il as nat))) by {
        lemma_at(b, 5, tagged("alpha-"@, il as nat));
        lemma_qwen35_traced(cfg, il, t, base, tagged("alpha-"@, il as nat));
    }
    assert(traced(v, tagged("beta-"@, il as nat))) by {
        lemma_at(b, 7, tagged("beta-"@, il as nat));
        lemma_qwen35_traced(cfg, il, t, base, tagged("beta-"@, il as nat));
    }
    assert(traced(v, tagged("attn_output-"@, il as nat))) by {
        lemma_at(b, 9, tagged("attn_output-"@, il as nat));
        lemma_qwen35_traced(cfg, il, t, base, tagged("attn_output-"@, il as nat));
    }
    assert(traced(v, tagged("final_output-"@, il as nat))) by {
        lemma_at(b, 11, tagged("final_output-"@, il as nat));
        lemma_qwen35_traced(cfg, il, t, base, tagged("final_output-"@, il as nat));
    }
    assert(traced(v, tagged("linear_attn_out-"@, il as nat))) by {
        lemma_at(b, 13, tagged("linear_attn_out-"@, il as nat));
        lemma_qwen35_traced(cfg, il, t, base, tagged("linear_attn_out-"@, il as nat));
    }
    let r = m.linear_refs(il);
    assert(all_traced(m.linear_proj_nodes(r, il, t), v));
    assert(all_traced(m.delta_nodes(r, il, t), v));
    lemma_nodes(m.linear_proj_nodes(r, il, t), m.delta_nodes(r, il, t), v);
}

#[verifier::rlimit(50)]
proof fn lemma_qwen35_full(m: Hybrid, il: int, t: int, base: int)
    requires
        0 <= il < m.cfg.n_layers,
        !m.cfg.recurrent@[il],
        0 <= t,
    ensures
        all_traced(m.mix_nodes(il, t), hybrid::steps(m.cfg, t, base)),
{
    let v = hybrid::steps(m.cfg, t, base);
    let cfg = m.cfg;
    lemma_qwen35_names(il);
    let (a, b, c) = (
        hybrid::qkv_steps(cfg, il, t, base),
        hybrid::attn_steps(cfg, il, t, base),
        hybrid::out_steps(cfg, il, t),
    );
    let at = if cfg.query_gate {
        1int
    } else {
        0
    };
    assert(traced(v, tagged("Qcur_full-"@, il as nat))) by {
        lemma_at(a, 1, tagged("Qcur_full-"@, il as nat));
        lemma_part(a, b, tagged("Qcur_full-"@, il as nat));
        lemma_part(a + b, c, tagged("Qcur_full-"@, il as nat));
        lemma_qwen35_traced(cfg, il, t, base, tagged("Qcur_full-"@, il as nat));
    }
    assert(traced(v, tagged("Kcur-"@, il as nat))) by {
        lemma_at(a, 3, tagged("Kcur-"@, il as nat));
        lemma_part(a, b, tagged("Kcur-"@, il as nat));
        lemma_part(a + b, c, tagged("Kcur-"@, il as nat));
        lemma_qwen35_traced(cfg, il, t, base, tagged("Kcur-"@, il as nat));
    }
    assert(traced(v, tagged("Vcur-"@, il as nat))) by {
        lemma_at(a, 5, tagged("Vcur-"@, il as nat));
        lemma_part(a, b, tagged("Vcur-"@, il as nat));
        lemma_part(a + b, c, tagged("Vcur-"@, il as nat));
        lemma_qwen35_traced(cfg, il, t, base, tagged("Vcur-"@, il as nat));
    }
    assert(traced(v, tagged("Qcur-"@, il as nat))) by {
        lemma_at(a, 10, tagged("Qcur-"@, il as nat));
        lemma_part(a, b, tagged("Qcur-"@, il as nat));
        lemma_part(a + b, c, tagged("Qcur-"@, il as nat));
        lemma_qwen35_traced(cfg, il, t, base, tagged("Qcur-"@, il as nat));
    }
    assert(traced(v, tagged("Kcur_pos-"@, il as nat))) by {
        lemma_at(a, 11, tagged("Kcur_pos-"@, il as nat));
        lemma_part(a, b, tagged("Kcur_pos-"@, il as nat));
        lemma_part(a + b, c, tagged("Kcur_pos-"@, il as nat));
        lemma_qwen35_traced(cfg, il, t, base, tagged("Kcur_pos-"@, il as nat));
    }
    assert(traced(v, tagged("attn_gated-"@, il as nat))) by {
        lemma_at(c, at, tagged("attn_gated-"@, il as nat));
        lemma_part(a + b, c, tagged("attn_gated-"@, il as nat));
        lemma_qwen35_traced(cfg, il, t, base, tagged("attn_gated-"@, il as nat));
    }
    assert(traced(v, tagged("attn_output-"@, il as nat))) by {
        lemma_at(c, at + 2, tagged("attn_output-"@, il as nat));
        lemma_part(a + b, c, tagged("attn_output-"@, il as nat));
        lemma_qwen35_traced(cfg, il, t, base, tagged("attn_output-"@, il as nat));
    }
    let r = m.full_refs(il);
    let (p, q, s) = (
        m.full_proj_nodes(r, il, t),
        m.rotate_nodes(r, il, t),
        m.attn_nodes(r, il, t),
    );
    assert(all_traced(p, v));
    assert(all_traced(q, v));
    assert(all_traced(s, v));
    lemma_nodes(p, q, v);
    lemma_nodes(p + q, s, v);
}

proof fn lemma_qwen35_nodes(m: Hybrid, il: int, t: int, base: int)
    requires
        0 <= il < m.cfg.n_layers,
        0 <= t,
    ensures
        all_traced(m.layer_nodes(il, t), hybrid::steps(m.cfg, t, base)),
{
    let v = hybrid::steps(m.cfg, t, base);
    let cfg = m.cfg;
    lemma_qwen35_names(il);
    let (a, c) = (hybrid::norm_steps(cfg, il, t), hybrid::ffn_steps(cfg, il, t));
    assert(traced(v, tagged("attn_norm-"@, il as nat))) by {
        lemma_at(a, 2, tagged("attn_norm-"@, il as nat));
        lemma_qwen35_traced(cfg, il, t, base, tagged("attn_norm-"@, il as nat));
    }
    assert(traced(v, tagged("attn_residual-"@, il as nat))) by {
        lemma_at(c, 1, tagged("attn_residual-"@, il as nat));
        lemma_qwen35_traced(cfg, il, t, base, tagged("attn_residual-"@, il as nat));
    }
    assert(traced(v, tagged("attn_post_norm-"@, il as nat))) by {
        lemma_at(c, 4, tagged("attn_post_norm-"@, il as nat));
        lemma_qwen35_traced(cfg, il, t, base, tagged("attn_post_norm-"@, il as nat));
    }
    assert(traced(v, tagged("ffn_out-"@, il as nat))) by {
        lemma_at(c, 9, tagged("ffn_out-"@, il as nat));
        lemma_qwen35_traced(cfg, il, t, base, tagged("ffn_out-"@, il as nat));
    }
    assert(traced(v, tagged("l_out-"@, il as nat))) by {
        lemma_at(c, 11, tagged("l_out-"@, il as nat));
        lemma_qwen35_traced(cfg, il, t, base, tagged("l_out-"@, il as nat));
    }
    if m.cfg.recurrent@[il] {
        lemma_qwen35_linear(m, il, t, base);
    } else {
        lemma_qwen35_full(m, il, t, base);
    }
    let all = m.layer_nodes(il, t);
    let end = m.ffn_nodes(m.ffn_refs(il), il, t);
    let mid = m.mix_nodes(il, t);
    let front = all.take(all.len() - end.len() - mid.len());
    assert(all =~= front + mid + end);
    assert(front.len() == 3);
    assert(all_traced(front, v));
    assert(all_traced(end, v));
    lemma_nodes(front, mid, v);
    lemma_nodes(front + mid, end, v);
}

proof fn lemma_qwen35_to(m: Hybrid, n: int, t: int, base: int)
    requires
        0 <= n <= m.cfg.n_layers,
        0 <= t,
    ensures
        all_traced(m.nodes_to(n, t), hybrid::steps(m.cfg, t, base)),
    decreases n,
{
    let v = hybrid::steps(m.cfg, t, base);
    if n <= 0 {
        let x = hybrid::embed_steps(m.cfg, t);
        let y = hybrid::layers_steps(m.cfg, m.cfg.n_layers as int, t, base);
        lemma_at(x, 1, "model.input_embed"@);
        lemma_part(x, y, "model.input_embed"@);
        lemma_part(x + y, hybrid::head_out_steps(m.cfg, t), "model.input_embed"@);
    } else {
        lemma_qwen35_to(m, n - 1, t, base);
        lemma_qwen35_nodes(m, n - 1, t, base);
        lemma_nodes(m.nodes_to(n - 1, t), m.layer_nodes(n - 1, t), v);
    }
}

/// Whatever a qwen35 plan can be stopped at, the CPU pass over the same batch shows
/// under the same name.
pub proof fn qwen35_checkpoints_are_traced(m: Hybrid, t: int, base: int)
    requires
        0 <= t,
    ensures
        forall|i: int|
            0 <= i < lower(m.nodes(t)).marks.len() ==> traced(
                hybrid::steps(m.cfg, t, base),
                (#[trigger] lower(m.nodes(t)).marks[i]).0,
            ),
{
    let v = hybrid::steps(m.cfg, t, base);
    let n = m.cfg.n_layers as int;
    lemma_qwen35_to(m, n, t, base);
    let head = hybrid::head_out_steps(m.cfg, t);
    lemma_at(head, 1, "result_norm"@);
    lemma_part(
        hybrid::embed_steps(m.cfg, t) + hybrid::layers_steps(m.cfg, n, t, base),
        head,
        "result_norm"@,
    );
    let last = m.nodes(t).skip(m.nodes_to(n, t).len() as int);
    assert(m.nodes(t) =~= m.nodes_to(n, t) + last);
    assert(last.len() == 2);
    assert(all_traced(last, v));
    lemma_nodes(m.nodes_to(n, t), last, v);
    lemma_lowered(m.nodes(t), v);
}

} // verus!
