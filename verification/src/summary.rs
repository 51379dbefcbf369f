//! One paragraph about a checkpoint, for people.
//!
//! Numbers that are not integers come as text, already rounded.

use crate::config::{Config, LayerConfig};
use crate::qwen35::config::Config as Qwen;
use crate::text::{decimal, decimal_string};
use crate::vision::Config as Tower;
use vstd::prelude::*;

verus! {

/// How many of the first `n` layers slide, or do not.
pub open spec fn layers_that(layers: Seq<LayerConfig>, swa: bool, n: int) -> int
    decreases n,
{
    if n <= 0 {
        0
    } else {
        layers_that(layers, swa, n - 1) + if layers[n - 1].swa == swa {
            1int
        } else {
            0
        }
    }
}

/// The first layer that slides, or does not.
pub open spec fn first_that(layers: Seq<LayerConfig>, swa: bool, from: int) -> Option<LayerConfig>
    decreases layers.len() - from,
{
    if from < 0 || from >= layers.len() {
        None
    } else if layers[from].swa == swa {
        Some(layers[from])
    } else {
        first_that(layers, swa, from + 1)
    }
}

/// A window, as it is written.
pub open spec fn window_text(w: Option<usize>) -> Seq<char> {
    match w {
        Some(n) => "Some("@ + decimal(n as nat) + ")"@,
        None => "None"@,
    }
}

pub open spec fn window_of(l: Option<LayerConfig>) -> Option<usize> {
    match l {
        Some(l) => l.window,
        None => None,
    }
}

pub open spec fn heads_of(l: Option<LayerConfig>) -> nat {
    match l {
        Some(l) => l.n_kv_heads as nat,
        None => 0,
    }
}

pub open spec fn dim_of(l: Option<LayerConfig>) -> nat {
    match l {
        Some(l) => l.head_dim as nat,
        None => 0,
    }
}

/// What is said of the layers that slide.
pub open spec fn sliding_text(c: Config, base: Seq<char>) -> Seq<char> {
    let n = layers_that(c.layers@, true, c.layers@.len() as int);
    let l = first_that(c.layers@, true, 0);
    "\n  "@ + decimal(n as nat) + " sliding-window @ window "@ + window_text(window_of(l)) + ", "@
        + decimal(heads_of(l)) + " kv-heads, head_dim "@ + decimal(dim_of(l)) + ", rope_base "@ + base
}

/// What is said of the layers that see everything.
pub open spec fn global_text(c: Config, base: Seq<char>) -> Seq<char> {
    let n = c.n_layers - layers_that(c.layers@, true, c.layers@.len() as int);
    let l = first_that(c.layers@, false, 0);
    "\n  "@ + decimal(n as nat) + " global,           full attention, "@ + decimal(heads_of(l))
        + " kv-heads, head_dim "@ + decimal(dim_of(l)) + ", rope_base "@ + base
        + ", V shares K proj"@
}

/// What is said of a gemma4 checkpoint.
pub open spec fn gemma4_text(
    c: Config,
    sliding_base: Seq<char>,
    global_base: Seq<char>,
    softcap: Seq<char>,
) -> Seq<char> {
    "gemma4: "@ + decimal(c.n_layers as nat) + "L ("@ + sliding_text(c, sliding_base)
        + global_text(c, global_base) + "\n) d_model "@ + decimal(c.d_model as nat) + " ffn "@
        + decimal(c.ffn_dim as nat) + " heads "@ + decimal(c.n_heads as nat) + " vocab "@ + decimal(
        c.vocab as nat,
    ) + " rope_dim "@ + decimal((c.rope_pairs * 2) as nat) + " (rest NoPE) softcap "@ + softcap
}

proof fn lemma_layers_that(layers: Seq<LayerConfig>, swa: bool, n: int)
    requires
        0 <= n,
    ensures
        0 <= layers_that(layers, swa, n) <= n,
    decreases n,
{
    if n > 0 {
        lemma_layers_that(layers, swa, n - 1);
    }
}

fn sliding(c: &Config) -> (r: usize)
    ensures
        r == layers_that(c.layers@, true, c.layers@.len() as int),
{
    let n: usize = c.layers.len();
    let mut k: usize = 0;
    let mut i: usize = 0;
    while i < n
        invariant
            i <= n,
            n == c.layers@.len(),
            k == layers_that(c.layers@, true, i as int),
            k <= i,
        decreases n - i,
    {
        if c.layers[i].swa {
            k = k + 1;
        }
        i = i + 1;
    }
    k
}

fn first(c: &Config, swa: bool) -> (r: Option<LayerConfig>)
    ensures
        r == first_that(c.layers@, swa, 0),
{
    let n: usize = c.layers.len();
    let mut i: usize = 0;
    while i < n
        invariant
            i <= n,
            n == c.layers@.len(),
            first_that(c.layers@, swa, 0) == first_that(c.layers@, swa, i as int),
        decreases n - i,
    {
        if c.layers[i].swa == swa {
            return Some(c.layers[i]);
        }
        i = i + 1;
    }
    None
}

fn push_number(s: &mut String, n: usize)
    ensures
        final(s)@ == old(s)@ + decimal(n as nat),
{
    s.push_str(decimal_string(n as u64).as_str());
}

fn heads(l: &Option<LayerConfig>) -> (r: (usize, usize))
    ensures
        r.0 == heads_of(*l),
        r.1 == dim_of(*l),
{
    match l {
        Some(l) => (l.n_kv_heads, l.head_dim),
        None => (0, 0),
    }
}

fn sliding_string(c: &Config, base: &str) -> (s: String)
    ensures
        s@ == sliding_text(*c, base@),
{
    let l = first(c, true);
    let (h, d) = heads(&l);
    let window = match l {
        Some(l) => l.window,
        None => None,
    };
    let mut w = "None".to_owned();
    if let Some(n) = window {
        w = "Some(".to_owned();
        push_number(&mut w, n);
        w.push_str(")");
    }
    let mut s = "\n  ".to_owned();
    push_number(&mut s, sliding(c));
    s.push_str(" sliding-window @ window ");
    s.push_str(w.as_str());
    s.push_str(", ");
    push_number(&mut s, h);
    s.push_str(" kv-heads, head_dim ");
    push_number(&mut s, d);
    s.push_str(", rope_base ");
    s.push_str(base);
    s
}

fn global_string(c: &Config, base: &str) -> (s: String)
    requires
        c.n_layers == c.layers@.len(),
    ensures
        s@ == global_text(*c, base@),
{
    let l = first(c, false);
    let (h, d) = heads(&l);
    proof {
        lemma_layers_that(c.layers@, true, c.layers@.len() as int);
    }
    let mut s = "\n  ".to_owned();
    push_number(&mut s, c.n_layers - sliding(c));
    s.push_str(" global,           full attention, ");
    push_number(&mut s, h);
    s.push_str(" kv-heads, head_dim ");
    push_number(&mut s, d);
    s.push_str(", rope_base ");
    s.push_str(base);
    s.push_str(", V shares K proj");
    s
}

impl Config {
    /// What is said of a checkpoint, with the rotary bases and the cap as text.
    pub fn summary(&self, sliding_base: &str, global_base: &str, softcap: &str) -> (s: String)
        requires
            self.n_layers == self.layers@.len(),
            self.rope_pairs * 2 <= usize::MAX,
        ensures
            s@ == gemma4_text(*self, sliding_base@, global_base@, softcap@),
    {
        let mut s = "gemma4: ".to_owned();
        push_number(&mut s, self.n_layers);
        s.push_str("L (");
        s.push_str(sliding_string(self, sliding_base).as_str());
        s.push_str(global_string(self, global_base).as_str());
        s.push_str("\n) d_model ");
        push_number(&mut s, self.d_model);
        s.push_str(" ffn ");
        push_number(&mut s, self.ffn_dim);
        s.push_str(" heads ");
        push_number(&mut s, self.n_heads);
        s.push_str(" vocab ");
        push_number(&mut s, self.vocab);
        s.push_str(" rope_dim ");
        push_number(&mut s, self.rope_pairs * 2);
        s.push_str(" (rest NoPE) softcap ");
        s.push_str(softcap);
        s
    }
}

/// How many of the first `n` layers are recurrent.
pub open spec fn recurrent_among(v: Seq<bool>, n: int) -> int
    decreases n,
{
    if n <= 0 {
        0
    } else {
        recurrent_among(v, n - 1) + if v[n - 1] {
            1int
        } else {
            0
        }
    }
}

/// What is said of full attention.
pub open spec fn attention_text(c: Qwen, base: Seq<char>) -> Seq<char> {
    decimal(c.n_heads as nat) + " heads/"@ + decimal(c.n_kv_heads as nat) + " kv, head_dim "@
        + decimal(c.head_dim as nat) + " rope "@ + decimal(c.n_rot as nat) + "/"@ + decimal(
        c.head_dim as nat,
    ) + " base "@ + base
}

/// What is said of the widths.
pub open spec fn widths_text(c: Qwen) -> Seq<char> {
    " d_model "@ + decimal(c.d_model as nat) + " ffn "@ + decimal(c.ffn_dim as nat) + " vocab "@
        + decimal(c.vocab as nat)
}

/// What is said of a qwen checkpoint.
pub open spec fn qwen_text(c: Qwen, base: Seq<char>) -> Seq<char> {
    let n = recurrent_among(c.recurrent@, c.recurrent@.len() as int);
    if n == 0 {
        "qwen3: "@ + decimal(c.n_layers as nat) + "L dense @ "@ + attention_text(c, base)
            + widths_text(c)
    } else {
        "qwen35: "@ + decimal(c.n_layers as nat) + "L ("@ + decimal(n as nat)
            + " gated-delta-net @ "@ + decimal(c.n_v_heads as nat) + " v-heads/"@ + decimal(
            c.n_k_heads as nat,
        ) + " k-heads x"@ + decimal(c.lin_head_dim as nat) + ", "@ + decimal(
            (c.n_layers - n) as nat,
        ) + " full-attn @ "@ + attention_text(c, base) + ")"@ + widths_text(c)
    }
}

fn attention(c: &Qwen, base: &str) -> (s: String)
    ensures
        s@ == attention_text(*c, base@),
{
    let mut s = decimal_string(c.n_heads as u64);
    s.push_str(" heads/");
    push_number(&mut s, c.n_kv_heads);
    s.push_str(" kv, head_dim ");
    push_number(&mut s, c.head_dim);
    s.push_str(" rope ");
    push_number(&mut s, c.n_rot);
    s.push_str("/");
    push_number(&mut s, c.head_dim);
    s.push_str(" base ");
    s.push_str(base);
    s
}

fn widths(c: &Qwen) -> (s: String)
    ensures
        s@ == widths_text(*c),
{
    let mut s = " d_model ".to_owned();
    push_number(&mut s, c.d_model);
    s.push_str(" ffn ");
    push_number(&mut s, c.ffn_dim);
    s.push_str(" vocab ");
    push_number(&mut s, c.vocab);
    s
}

impl Qwen {
    /// What is said of a checkpoint, with the rotary base as text.
    pub fn summary(&self, base: &str) -> (s: String)
        requires
            self.n_layers == self.recurrent@.len(),
        ensures
            s@ == qwen_text(*self, base@),
    {
        let total: usize = self.recurrent.len();
        let mut n: usize = 0;
        let mut i: usize = 0;
        while i < total
            invariant
                i <= total,
                total == self.recurrent@.len(),
                n == recurrent_among(self.recurrent@, i as int),
                n <= i,
            decreases total - i,
        {
            if self.recurrent[i] {
                n = n + 1;
            }
            i = i + 1;
        }
        if n == 0 {
            let mut s = "qwen3: ".to_owned();
            push_number(&mut s, self.n_layers);
            s.push_str("L dense @ ");
            s.push_str(attention(self, base).as_str());
            s.push_str(widths(self).as_str());
            return s;
        }
        let mut s = "qwen35: ".to_owned();
        push_number(&mut s, self.n_layers);
        s.push_str("L (");
        push_number(&mut s, n);
        s.push_str(" gated-delta-net @ ");
        push_number(&mut s, self.n_v_heads);
        s.push_str(" v-heads/");
        push_number(&mut s, self.n_k_heads);
        s.push_str(" k-heads x");
        push_number(&mut s, self.lin_head_dim);
        s.push_str(", ");
        push_number(&mut s, self.n_layers - n);
        s.push_str(" full-attn @ ");
        s.push_str(attention(self, base).as_str());
        s.push_str(")");
        s.push_str(widths(self).as_str());
        s
    }
}

/// What is said of a gemma4 checkpoint where there is one line only.
pub open spec fn gemma4_line(c: Config) -> Seq<char> {
    "gemma4 \u{00B7} "@ + decimal(c.n_layers as nat) + " layers, d_model "@ + decimal(
        c.d_model as nat,
    ) + ", vocab "@ + decimal(c.vocab as nat)
}

impl Config {
    /// What is said of a checkpoint where there is one line only.
    pub fn line(&self) -> (s: String)
        ensures
            s@ == gemma4_line(*self),
    {
        let mut s = "gemma4 \u{00B7} ".to_owned();
        push_number(&mut s, self.n_layers);
        s.push_str(" layers, d_model ");
        push_number(&mut s, self.d_model);
        s.push_str(", vocab ");
        push_number(&mut s, self.vocab);
        s
    }
}

/// What is said of a vision tower.
pub open spec fn tower_text(c: Tower) -> Seq<char> {
    "gemma4v: "@ + decimal(c.n_layers as nat) + "L d "@ + decimal(c.d_model as nat) + " ffn "@
        + decimal(c.ffn_dim as nat) + " heads "@ + decimal(c.n_heads as nat) + " head_dim "@
        + decimal(c.head_dim as nat) + " patch "@ + decimal(c.patch_size as nat) + " pool "@
        + decimal(c.n_merge as nat) + "x"@ + decimal(c.n_merge as nat) + " -> "@ + decimal(
        c.proj_dim as nat,
    ) + " ("@ + decimal(c.image_min_pixels as nat) + ".."@ + decimal(c.image_max_pixels as nat)
        + " px/image, pos table "@ + decimal(c.pos_table_len as nat) + ")"@
}

impl Tower {
    /// What is said of a tower.
    pub fn summary(&self) -> (s: String)
        ensures
            s@ == tower_text(*self),
    {
        let mut s = "gemma4v: ".to_owned();
        push_number(&mut s, self.n_layers);
        s.push_str("L d ");
        push_number(&mut s, self.d_model);
        s.push_str(" ffn ");
        push_number(&mut s, self.ffn_dim);
        s.push_str(" heads ");
        push_number(&mut s, self.n_heads);
        s.push_str(" head_dim ");
        push_number(&mut s, self.head_dim);
        s.push_str(" patch ");
        push_number(&mut s, self.patch_size);
        s.push_str(" pool ");
        push_number(&mut s, self.n_merge);
        s.push_str("x");
        push_number(&mut s, self.n_merge);
        s.push_str(" -> ");
        push_number(&mut s, self.proj_dim);
        s.push_str(" (");
        push_number(&mut s, self.image_min_pixels);
        s.push_str("..");
        push_number(&mut s, self.image_max_pixels);
        s.push_str(" px/image, pos table ");
        push_number(&mut s, self.pos_table_len);
        s.push_str(")");
        s
    }
}

} // verus!
