//! Gemma 4 vision tower description, read from the `mmproj` file.
//!
//! The encoder is a transformer over patches with the text stack's block. Its own
//! are the two positional mechanisms (a learned (x, y) lookup, and a
//! two-dimensional rotation inside attention) and linears that carry calibration
//! ranges next to their weights.

use crate::checks::{
    first_error, lemma_first_error, lemma_no_error, no_error_exactly_when, unless,
};
use crate::config::value_or;
use crate::gguf::{value_bool, Error, ErrorView, FloatBits};
use crate::gpu::arena::tensor_named;
use crate::header::{meta_float, meta_str, meta_u64, Header, HeaderView};
use crate::text;
use vstd::arithmetic::div_mod::lemma_fundamental_div_mod;
use vstd::prelude::*;

pub mod cpu;
pub mod formula;
pub mod preprocess;

verus! {

/// Pooling kernel, and so the patch-to-token ratio on each side, where the file
/// does not say.
pub const N_MERGE: usize = 3;

/// Base of the rotation inside attention: 100 as single-precision bits.
pub const ROPE_THETA: u32 = 0x42C8_0000;

/// Token budget per image.
pub const MIN_IMAGE_TOKENS: usize = 40;

pub const MAX_IMAGE_TOKENS: usize = 256;

#[derive(Debug, Clone, Copy)]
pub struct Config {
    pub n_layers: usize,
    pub d_model: usize,
    pub ffn_dim: usize,
    pub n_heads: usize,
    pub head_dim: usize,
    pub patch_size: usize,
    /// Average-pool kernel applied to the patch grid before projection.
    pub n_merge: usize,
    /// Width of the text model's residual stream: what the projector emits.
    pub proj_dim: usize,
    pub eps: FloatBits,
    /// As bits.
    pub rope_theta: u32,
    /// Resize bounds in pixels, derived from the token budget.
    pub image_min_pixels: usize,
    pub image_max_pixels: usize,
    /// Rows in each of the two positional lookup tables.
    pub pos_table_len: usize,
}

#[derive(Debug)]
pub enum VisionError {
    Gguf(Error),
    /// `general.architecture` is not "clip".
    NotMmproj,
    /// The file carries no vision encoder.
    NoEncoder,
    /// Unsupported vision projector.
    Projector(String),
    /// The width does not split over the heads.
    Heads { d_model: usize, n_heads: usize },
    /// The rotation splits a head in half.
    OddHead(usize),
    /// The projector scale factor must be positive.
    Scale,
    /// A pooled token has more pixels than can be counted.
    PatchArea,
    /// The position table should be `[d, n, 2]`.
    PositionShape(Vec<u64>),
}

#[verifier::ext_equal]
pub ghost enum VisionErrorView {
    Gguf(ErrorView),
    NotMmproj,
    NoEncoder,
    Projector(Seq<char>),
    Heads { d_model: usize, n_heads: usize },
    OddHead(usize),
    Scale,
    PatchArea,
    PositionShape(Seq<u64>),
}

impl View for VisionError {
    type V = VisionErrorView;

    open spec fn view(&self) -> VisionErrorView {
        match self {
            VisionError::Gguf(e) => VisionErrorView::Gguf(e@),
            VisionError::NotMmproj => VisionErrorView::NotMmproj,
            VisionError::NoEncoder => VisionErrorView::NoEncoder,
            VisionError::Projector(p) => VisionErrorView::Projector(p@),
            VisionError::Heads { d_model, n_heads } => VisionErrorView::Heads {
                d_model: *d_model,
                n_heads: *n_heads,
            },
            VisionError::OddHead(n) => VisionErrorView::OddHead(*n),
            VisionError::Scale => VisionErrorView::Scale,
            VisionError::PatchArea => VisionErrorView::PatchArea,
            VisionError::PositionShape(d) => VisionErrorView::PositionShape(d@),
        }
    }
}

/// A lookup's error, as an error of this kind.
pub open spec fn lifted<T>(r: Result<T, ErrorView>) -> Option<VisionErrorView> {
    match r {
        Ok(_) => None,
        Err(e) => Some(VisionErrorView::Gguf(e)),
    }
}

/// The string under `key`, empty where there is none.
pub open spec fn text_or_empty(h: HeaderView, key: Seq<char>) -> Seq<char> {
    value_or(meta_str(h, key), Seq::empty())
}

/// The size under `key`.
pub open spec fn size(h: HeaderView, key: Seq<char>) -> usize {
    meta_u64(h, key)->Ok_0 as usize
}

pub open spec fn has_encoder(h: HeaderView) -> bool {
    h.metadata.contains_key("clip.has_vision_encoder"@) && value_bool(
        h.metadata["clip.has_vision_encoder"@],
    ) == Some(true)
}

pub open spec fn merge(h: HeaderView) -> usize {
    value_or(meta_u64(h, "clip.vision.projector_scale_factor"@), N_MERGE as u64) as usize
}

/// Pixels of one pooled token: an `n_merge` square block of patches.
pub open spec fn patch_area(h: HeaderView) -> int {
    let p = size(h, "clip.vision.patch_size"@) as int;
    p * p * merge(h) * merge(h)
}

/// The shape of the position table.
pub open spec fn pos_dims(h: HeaderView) -> Seq<u64> {
    tensor_named(h, "v.position_embd.weight"@)->0.dims
}

pub open spec fn need_tensor(h: HeaderView, name: Seq<char>) -> Option<VisionErrorView> {
    unless(tensor_named(h, name) is Some, VisionErrorView::Gguf(ErrorView::NoTensor(name)))
}

/// What can be wrong with a file, in the order in which it is noticed.
pub open spec fn config_errors(h: HeaderView) -> Seq<Option<VisionErrorView>> {
    let proj = text_or_empty(h, "clip.vision.projector_type"@);
    let d = size(h, "clip.vision.embedding_length"@);
    let nh = size(h, "clip.vision.attention.head_count"@);
    let dims = pos_dims(h);
    seq![
        unless(
            text_or_empty(h, "general.architecture"@) == "clip"@,
            VisionErrorView::NotMmproj,
        ),
        unless(has_encoder(h), VisionErrorView::NoEncoder),
        unless(proj == "gemma4v"@, VisionErrorView::Projector(proj)),
        lifted(meta_u64(h, "clip.vision.embedding_length"@)),
        lifted(meta_u64(h, "clip.vision.attention.head_count"@)),
        unless(
            nh != 0 && d as int % nh as int == 0,
            VisionErrorView::Heads { d_model: d, n_heads: nh },
        ),
        unless((d as int / nh as int) % 2 == 0, VisionErrorView::OddHead((d / nh) as usize)),
        lifted(meta_u64(h, "clip.vision.patch_size"@)),
        unless(merge(h) > 0, VisionErrorView::Scale),
        unless(MAX_IMAGE_TOKENS * patch_area(h) <= usize::MAX, VisionErrorView::PatchArea),
        need_tensor(h, "v.position_embd.weight"@),
        unless(dims.len() == 3 && dims[2] == 2, VisionErrorView::PositionShape(dims)),
        need_tensor(h, "mm.input_projection.weight"@),
        lifted(meta_u64(h, "clip.vision.block_count"@)),
        lifted(meta_u64(h, "clip.vision.feed_forward_length"@)),
        lifted(meta_float(h, "clip.vision.attention.layer_norm_epsilon"@)),
    ]
}

fn text_of(h: &Header, key: &str) -> (r: String)
    ensures
        r@ == text_or_empty(h@, key@),
{
    match h.str(key) {
        Ok(s) => s.to_owned(),
        Err(_) => {
            let s = String::new();
            assert(s@ =~= Seq::empty());
            s
        },
    }
}

/// `a * b`, where it can be counted.
fn times(a: Option<usize>, b: usize) -> (r: Option<usize>)
    requires
        b > 0,
    ensures
        a is None ==> r is None,
        a is Some && a->0 * b <= usize::MAX ==> r == Some((a->0 * b) as usize),
        a is Some && a->0 * b > usize::MAX ==> r is None,
{
    match a {
        Some(x) => x.checked_mul(b),
        None => None,
    }
}

impl Config {
    /// This is what the file describes.
    pub open spec fn describes(&self, h: HeaderView) -> bool {
        &&& self.n_layers == size(h, "clip.vision.block_count"@)
        &&& self.d_model == size(h, "clip.vision.embedding_length"@)
        &&& self.ffn_dim == size(h, "clip.vision.feed_forward_length"@)
        &&& self.n_heads == size(h, "clip.vision.attention.head_count"@)
        &&& self.head_dim == self.d_model as int / self.n_heads as int
        &&& self.patch_size == size(h, "clip.vision.patch_size"@)
        &&& self.n_merge == merge(h)
        &&& self.proj_dim == tensor_named(h, "mm.input_projection.weight"@)->0.outer()
        &&& self.eps == meta_float(h, "clip.vision.attention.layer_norm_epsilon"@)->Ok_0
        &&& self.rope_theta == ROPE_THETA
        &&& self.image_min_pixels == MIN_IMAGE_TOKENS * patch_area(h)
        &&& self.image_max_pixels == MAX_IMAGE_TOKENS * patch_area(h)
        &&& self.pos_table_len == pos_dims(h)[1] as usize
    }

    /// What every configuration that was read satisfies.
    pub open spec fn wf(&self) -> bool {
        &&& self.n_merge > 0
        &&& self.n_heads > 0
        &&& self.patch_size * self.n_merge <= usize::MAX
        &&& self.d_model == self.n_heads * self.head_dim
        &&& self.head_dim % 2 == 0
        &&& self.image_min_pixels <= self.image_max_pixels
    }

    /// Read the description.
    #[verifier::rlimit(50)]
    pub fn from_gguf(h: &Header) -> (r: Result<Config, VisionError>)
        requires
            h.wf(),
        ensures
            match r {
                Ok(c) => first_error(config_errors(h@)) is None && c.describes(h@) && c.wf(),
                Err(e) => first_error(config_errors(h@)) == Some(e@),
            },
    {
        let ghost errs = config_errors(h@);
        if !text::str_eq(text_of(h, "general.architecture").as_str(), "clip") {
            proof {
                lemma_first_error(errs, 0);
            }
            return Err(VisionError::NotMmproj);
        }
        let encoder: bool = match h.get("clip.has_vision_encoder") {
            Some(v) => match v.as_bool() {
                Some(b) => b,
                None => false,
            },
            None => false,
        };
        if !encoder {
            proof {
                lemma_first_error(errs, 1);
            }
            return Err(VisionError::NoEncoder);
        }
        let proj = text_of(h, "clip.vision.projector_type");
        if !text::str_eq(proj.as_str(), "gemma4v") {
            proof {
                lemma_first_error(errs, 2);
            }
            return Err(VisionError::Projector(proj));
        }
        let d_model: usize = match h.usize("clip.vision.embedding_length") {
            Ok(v) => v,
            Err(e) => {
                proof {
                    lemma_first_error(errs, 3);
                }
                return Err(VisionError::Gguf(e));
            },
        };
        let n_heads: usize = match h.usize("clip.vision.attention.head_count") {
            Ok(v) => v,
            Err(e) => {
                proof {
                    lemma_first_error(errs, 4);
                }
                return Err(VisionError::Gguf(e));
            },
        };
        if n_heads == 0 || d_model % n_heads != 0 {
            proof {
                lemma_first_error(errs, 5);
            }
            return Err(VisionError::Heads { d_model, n_heads });
        }
        let head_dim: usize = d_model / n_heads;
        if head_dim % 2 != 0 {
            proof {
                lemma_first_error(errs, 6);
            }
            return Err(VisionError::OddHead(head_dim));
        }
        let patch_size: usize = match h.usize("clip.vision.patch_size") {
            Ok(v) => v,
            Err(e) => {
                proof {
                    lemma_first_error(errs, 7);
                }
                return Err(VisionError::Gguf(e));
            },
        };
        let n_merge: usize = match h.usize("clip.vision.projector_scale_factor") {
            Ok(v) => v,
            Err(_) => N_MERGE,
        };
        if n_merge == 0 {
            proof {
                lemma_first_error(errs, 8);
            }
            return Err(VisionError::Scale);
        }
        let ghost area = patch_area(h@);
        proof {
            let p = patch_size as int;
            let m = n_merge as int;
            assert(p * p <= p * p * m && p * p * m <= p * p * m * m && p * m <= p * m * p * m
                && p * m * p * m == p * p * m * m && 0 <= p * p) by (nonlinear_arith)
                requires
                    p >= 0,
                    m >= 1,
            ;
            assert(area == p * p * m * m);
        }
        let two = if patch_size == 0 {
            Some(0usize)
        } else {
            patch_size.checked_mul(patch_size)
        };
        let largest = times(times(times(two, n_merge), n_merge), MAX_IMAGE_TOKENS);
        let image_max_pixels: usize = match largest {
            Some(n) => n,
            None => {
                proof {
                    lemma_first_error(errs, 9);
                }
                return Err(VisionError::PatchArea);
            },
        };
        let image_min_pixels: usize = image_max_pixels / 256 * 40;
        let pos = match h.info("v.position_embd.weight") {
            Ok(t) => t,
            Err(e) => {
                proof {
                    lemma_first_error(errs, 10);
                }
                return Err(VisionError::Gguf(e));
            },
        };
        proof {
            crate::gpu::arena::lemma_named(h@, "v.position_embd.weight"@, pos@);
        }
        if pos.dims.len() != 3 || pos.dims[2] != 2 {
            proof {
                lemma_first_error(errs, 11);
            }
            return Err(VisionError::PositionShape(copied(&pos.dims)));
        }
        let pos_table_len: usize = pos.dims[1] as usize;
        let proj_dim: usize = match h.info("mm.input_projection.weight") {
            Ok(t) => {
                proof {
                    crate::gpu::arena::lemma_named(h@, "mm.input_projection.weight"@, t@);
                }
                t.out_dim()
            },
            Err(e) => {
                proof {
                    lemma_first_error(errs, 12);
                }
                return Err(VisionError::Gguf(e));
            },
        };
        let n_layers: usize = match h.usize("clip.vision.block_count") {
            Ok(v) => v,
            Err(e) => {
                proof {
                    lemma_first_error(errs, 13);
                }
                return Err(VisionError::Gguf(e));
            },
        };
        let ffn_dim: usize = match h.usize("clip.vision.feed_forward_length") {
            Ok(v) => v,
            Err(e) => {
                proof {
                    lemma_first_error(errs, 14);
                }
                return Err(VisionError::Gguf(e));
            },
        };
        let eps = match h.float("clip.vision.attention.layer_norm_epsilon") {
            Ok(v) => v,
            Err(e) => {
                proof {
                    lemma_first_error(errs, 15);
                }
                return Err(VisionError::Gguf(e));
            },
        };
        proof {
            lemma_no_error(errs);
            assert(d_model == n_heads * head_dim) by (nonlinear_arith)
                requires
                    n_heads > 0,
                    head_dim == d_model / n_heads,
                    d_model % n_heads == 0,
            ;
            let p = patch_size as int;
            let m = n_merge as int;
            assert(p * m <= p * m * p * m) by (nonlinear_arith)
                requires
                    p >= 0,
                    m >= 1,
            ;
        }
        Ok(
            Config {
                n_layers,
                d_model,
                ffn_dim,
                n_heads,
                head_dim,
                patch_size,
                n_merge,
                proj_dim,
                eps,
                rope_theta: ROPE_THETA,
                image_min_pixels,
                image_max_pixels,
                pos_table_len,
            },
        )
    }

    /// Side of one pooled token in pixels: every resized image is a whole number
    /// of these on both axes.
    pub fn align(&self) -> (r: usize)
        requires
            self.patch_size * self.n_merge <= usize::MAX,
        ensures
            r == self.patch_size * self.n_merge,
    {
        self.patch_size * self.n_merge
    }
}

fn copied(v: &Vec<u64>) -> (r: Vec<u64>)
    ensures
        r@ == v@,
{
    let c = v.clone();
    assert(c@ =~= v@);
    c
}

// ---------------------------------------------------------------------------
// Laws
// ---------------------------------------------------------------------------
/// A file is accepted exactly when it says that it holds this encoder, has every number
/// that the tower needs, its width splits over the heads and a head in two, its patches
/// can be pooled and counted, and the position table has one row for each column and one
/// for each row.
#[verifier::rlimit(40)]
pub proof fn a_file_is_accepted_exactly_when(h: HeaderView)
    ensures
        first_error(config_errors(h)) is None <==> {
            let d = meta_u64(h, "clip.vision.embedding_length"@);
            let nh = meta_u64(h, "clip.vision.attention.head_count"@);
            let p = meta_u64(h, "clip.vision.patch_size"@);
            let k = match meta_u64(h, "clip.vision.projector_scale_factor"@) {
                Ok(n) => n as usize,
                Err(_) => 3usize,
            };
            let places = tensor_named(h, "v.position_embd.weight"@);
            &&& meta_str(h, "general.architecture"@) == Ok::<Seq<char>, ErrorView>("clip"@)
            &&& has_encoder(h)
            &&& meta_str(h, "clip.vision.projector_type"@) == Ok::<Seq<char>, ErrorView>(
                "gemma4v"@,
            )
            &&& d is Ok && nh is Ok && p is Ok
            &&& nh->Ok_0 as usize > 0
            &&& (d->Ok_0 as usize) as int % (nh->Ok_0 as usize) as int == 0
            &&& ((d->Ok_0 as usize) as int / (nh->Ok_0 as usize) as int) % 2 == 0
            &&& k > 0
            &&& MAX_IMAGE_TOKENS * ((p->Ok_0 as usize) * (p->Ok_0 as usize) * k * k) <= usize::MAX
            &&& places matches Some(t) && t.dims.len() == 3 && t.dims[2] == 2
            &&& tensor_named(h, "mm.input_projection.weight"@) is Some
            &&& meta_u64(h, "clip.vision.block_count"@) is Ok
            &&& meta_u64(h, "clip.vision.feed_forward_length"@) is Ok
            &&& meta_float(h, "clip.vision.attention.layer_norm_epsilon"@) is Ok
        },
{
    let s = config_errors(h);
    no_error_exactly_when(s);
    reveal_strlit("clip");
    reveal_strlit("gemma4v");
    assert("clip"@.len() == 4 && "gemma4v"@.len() == 7);
    assert(Seq::<char>::empty().len() == 0);
    assert(s.len() == 16);
    let kind = meta_str(h, "general.architecture"@);
    let projector = meta_str(h, "clip.vision.projector_type"@);
    if kind is Err {
        assert(text_or_empty(h, "general.architecture"@).len() == 0);
    }
    if projector is Err {
        assert(text_or_empty(h, "clip.vision.projector_type"@).len() == 0);
    }
    assert(s[0] is None <==> meta_str(h, "general.architecture"@) == Ok::<Seq<char>, ErrorView>(
        "clip"@,
    ));
    assert(s[2] is None <==> meta_str(h, "clip.vision.projector_type"@) == Ok::<
        Seq<char>,
        ErrorView,
    >("gemma4v"@));
    assert(s[1] is None <==> has_encoder(h));
    assert(s[3] is None <==> meta_u64(h, "clip.vision.embedding_length"@) is Ok);
    assert(s[4] is None <==> meta_u64(h, "clip.vision.attention.head_count"@) is Ok);
    let d = size(h, "clip.vision.embedding_length"@);
    let nh = size(h, "clip.vision.attention.head_count"@);
    assert(s[5] is None <==> nh != 0 && d as int % nh as int == 0);
    assert(s[6] is None <==> (d as int / nh as int) % 2 == 0);
    assert(s[7] is None <==> meta_u64(h, "clip.vision.patch_size"@) is Ok);
    assert(s[8] is None <==> merge(h) > 0);
    assert(s[9] is None <==> MAX_IMAGE_TOKENS * patch_area(h) <= usize::MAX);
    assert(s[10] is None <==> tensor_named(h, "v.position_embd.weight"@) is Some);
    assert(s[11] is None <==> pos_dims(h).len() == 3 && pos_dims(h)[2] == 2);
    assert(s[12] is None <==> tensor_named(h, "mm.input_projection.weight"@) is Some);
    assert(s[13] is None <==> meta_u64(h, "clip.vision.block_count"@) is Ok);
    assert(s[14] is None <==> meta_u64(h, "clip.vision.feed_forward_length"@) is Ok);
    assert(s[15] is None <==> meta_float(h, "clip.vision.attention.layer_norm_epsilon"@) is Ok);
}

/// Each number of a description is the file's number of that name, and the sizes that an
/// image is held to are what the smallest and the largest number of tokens cover.
pub proof fn numbers_are_read_under_their_names(h: HeaderView, c: Config)
    requires
        c.describes(h),
        first_error(config_errors(h)) is None,
    ensures
        meta_u64(h, "clip.vision.block_count"@) matches Ok(n) && c.n_layers == n as usize,
        meta_u64(h, "clip.vision.embedding_length"@) matches Ok(n) && c.d_model == n as usize,
        meta_u64(h, "clip.vision.feed_forward_length"@) matches Ok(n) && c.ffn_dim == n as usize,
        meta_u64(h, "clip.vision.attention.head_count"@) matches Ok(n) && c.n_heads == n as usize,
        c.n_heads * c.head_dim == c.d_model,
        meta_u64(h, "clip.vision.patch_size"@) matches Ok(n) && c.patch_size == n as usize,
        meta_u64(h, "clip.vision.projector_scale_factor"@) matches Ok(n) ==> c.n_merge
            == n as usize,
        meta_u64(h, "clip.vision.projector_scale_factor"@) is Err ==> c.n_merge == 3,
        meta_float(h, "clip.vision.attention.layer_norm_epsilon"@) matches Ok(e) && c.eps == e,
        tensor_named(h, "mm.input_projection.weight"@) matches Some(t) && c.proj_dim == t.outer(),
        tensor_named(h, "v.position_embd.weight"@) matches Some(t) && c.pos_table_len
            == t.dims[1] as usize,
        ({
            let side = c.patch_size * c.n_merge;
            &&& c.image_min_pixels == MIN_IMAGE_TOKENS * (side * side)
            &&& c.image_max_pixels == MAX_IMAGE_TOKENS * (side * side)
        }),
{
    a_file_is_accepted_exactly_when(h);
    let (p, k) = (c.patch_size as int, c.n_merge as int);
    assert(p * p * k * k == (p * k) * (p * k)) by (nonlinear_arith);
    lemma_fundamental_div_mod(c.d_model as int, c.n_heads as int);
}

} // verus!
