use llmoxide::gpu::pipelines::{Family, Pipelines};
use llmoxide::gpu::plan::{Grid, ParamArena, PlanError, Weights};
use llmoxide::gpu::vision::{
    self as gpu_vision, arena_tensors, clamp_table, im2col, param_names, position_rows, Clamp, VisionGpu,
    FLOAT_MAX, FLOAT_MIN,
};
use llmoxide::gpu::arena::Plan;
use llmoxide::cpu::{Rows, Scratch};
use llmoxide::header::{Gguf, Header};
use llmoxide::vision::cpu::{
    buffer_size, can_encode, filter_fits, patch_grid, place_of, pooled_patches, EncodeError, TowerGain,
    TowerMatrix, TowerStep, Vision,
};
use llmoxide::vision::preprocess::{planar, prepare, smart_resize, usable, Planar, PrepareError, Rgb};
use llmoxide::vision::{Config, VisionError};

/// A GGUF file in the making.
#[derive(Default)]
struct Build {
    meta: Vec<u8>,
    n_meta: u64,
    infos: Vec<u8>,
    n_infos: u64,
    data: Vec<u8>,
}

#[allow(dead_code)]
impl Build {
    fn string(v: &mut Vec<u8>, s: &str) {
        v.extend_from_slice(&(s.len() as u64).to_le_bytes());
        v.extend_from_slice(s.as_bytes());
    }

    fn key(&mut self, key: &str, ty: u32) {
        self.n_meta += 1;
        Self::string(&mut self.meta, key);
        self.meta.extend_from_slice(&ty.to_le_bytes());
    }

    fn number(mut self, key: &str, v: u32) -> Self {
        self.key(key, 4);
        self.meta.extend_from_slice(&v.to_le_bytes());
        self
    }

    fn single(mut self, key: &str, v: f32) -> Self {
        self.key(key, 6);
        self.meta.extend_from_slice(&v.to_le_bytes());
        self
    }

    fn flag(mut self, key: &str, v: bool) -> Self {
        self.key(key, 7);
        self.meta.push(v as u8);
        self
    }

    fn text(mut self, key: &str, v: &str) -> Self {
        self.key(key, 8);
        Self::string(&mut self.meta, v);
        self
    }

    fn texts(mut self, key: &str, v: &[&str]) -> Self {
        self.key(key, 9);
        self.meta.extend_from_slice(&8u32.to_le_bytes());
        self.meta.extend_from_slice(&(v.len() as u64).to_le_bytes());
        for s in v {
            Self::string(&mut self.meta, s);
        }
        self
    }

    fn numbers(mut self, key: &str, v: &[u32]) -> Self {
        self.key(key, 9);
        self.meta.extend_from_slice(&4u32.to_le_bytes());
        self.meta.extend_from_slice(&(v.len() as u64).to_le_bytes());
        for n in v {
            self.meta.extend_from_slice(&n.to_le_bytes());
        }
        self
    }

    fn flags(mut self, key: &str, v: &[bool]) -> Self {
        self.key(key, 9);
        self.meta.extend_from_slice(&7u32.to_le_bytes());
        self.meta.extend_from_slice(&(v.len() as u64).to_le_bytes());
        for b in v {
            self.meta.push(*b as u8);
        }
        self
    }

    fn tensor(mut self, name: &str, dims: &[u64], ty: u32, data: &[u8]) -> Self {
        self.n_infos += 1;
        Self::string(&mut self.infos, name);
        self.infos.extend_from_slice(&(dims.len() as u32).to_le_bytes());
        for d in dims {
            self.infos.extend_from_slice(&d.to_le_bytes());
        }
        self.infos.extend_from_slice(&ty.to_le_bytes());
        self.infos.extend_from_slice(&(self.data.len() as u64).to_le_bytes());
        self.data.extend_from_slice(data);
        while self.data.len() % 32 != 0 {
            self.data.push(0);
        }
        self
    }

    fn finish(self) -> Vec<u8> {
        let mut v = b"GGUF".to_vec();
        v.extend_from_slice(&3u32.to_le_bytes());
        v.extend_from_slice(&self.n_infos.to_le_bytes());
        v.extend_from_slice(&self.n_meta.to_le_bytes());
        v.extend_from_slice(&self.meta);
        v.extend_from_slice(&self.infos);
        while v.len() % 32 != 0 {
            v.push(0);
        }
        v.extend_from_slice(&self.data);
        v
    }
}

/// The three candidates for the resized sides, as the caller computes them.
fn candidates(
    w: usize,
    h: usize,
    align: usize,
    min_px: usize,
    max_px: usize,
) -> ((usize, usize), (usize, usize), (usize, usize)) {
    let round = |x: f32| (x / align as f32).round() as usize * align;
    let floor = |x: f32| (x / align as f32).floor() as usize * align;
    let ceil = |x: f32| (x / align as f32).ceil() as usize * align;
    let area = (w * h) as f32;
    let down = (area / max_px as f32).sqrt();
    let up = (min_px as f32 / area).sqrt();
    (
        (round(w as f32), round(h as f32)),
        (floor(w as f32 / down), floor(h as f32 / down)),
        (ceil(w as f32 * up), ceil(h as f32 * up)),
    )
}

#[test]
fn smart_resize_snaps_and_respects_bounds() {
    let (align, min_px, max_px) = (48, 40 * 2304, 280 * 2304);
    // A large photo is pulled under the ceiling, still a multiple of 48.
    let (r, f, c) = candidates(4032, 3024, align, min_px, max_px);
    let (w, h) = smart_resize(align, r, f, c, min_px, max_px);
    assert_eq!(w % align, 0);
    assert_eq!(h % align, 0);
    assert!(w * h <= max_px, "{w}x{h} over the ceiling");
    // Aspect is preserved to within one alignment step.
    let want = 4032.0 / 3024.0;
    assert!((w as f32 / h as f32 - want).abs() < 0.1);

    // A tiny icon is pushed up to the floor rather than left alone.
    let (r, f, c) = candidates(32, 32, align, min_px, max_px);
    let (w, h) = smart_resize(align, r, f, c, min_px, max_px);
    assert!(w * h >= min_px, "{w}x{h} under the floor");
    assert_eq!(w % align, 0);
}

#[test]
fn slivers_stay_inside_the_bounds() {
    for (w, h, align, min_px, max_px, want) in [
        // The short side takes a whole step, so the long one is capped.
        (100, 1, 10, 100, 500, (50, 10)),
        (1, 100, 10, 100, 500, (10, 50)),
        // A sliver that is raised to the floor must not leave through the ceiling.
        (1850, 1, 48, 92160, 368640, (7680, 48)),
        (1 << 19, 1, 48, 92160, 645120, (13440, 48)),
    ] {
        let (r, f, c) = candidates(w, h, align, min_px, max_px);
        assert_eq!(smart_resize(align, r, f, c, min_px, max_px), want);
        assert!(min_px <= want.0 * want.1 && want.0 * want.1 <= max_px);
    }
    // Candidates that are whole steps and nothing else are brought inside too.
    assert_eq!(smart_resize(10, (900, 900), (0, 0), (0, 0), 400, 1600), (40, 10));
    assert_eq!(smart_resize(10, (900, 900), (90, 30), (0, 0), 400, 1600), (50, 30));
    // Sides that fit are kept.
    assert_eq!(smart_resize(10, (900, 900), (40, 30), (0, 0), 400, 1600), (40, 30));
}

#[test]
fn a_size_within_bounds_is_only_snapped() {
    assert_eq!(smart_resize(48, (480, 384), (0, 0), (960, 960), 1, 1 << 20), (480, 384));
    // A sliver still has one step on its short side.
    assert_eq!(smart_resize(48, (480, 0), (0, 0), (960, 960), 1, 1 << 20), (480, 48));
}

/// A PNG of one row of red, green and blue, stored without compression.
fn png() -> Vec<u8> {
    let img = image::RgbImage::from_raw(3, 1, vec![255, 0, 0, 0, 255, 0, 0, 0, 255]).unwrap();
    let mut out = std::io::Cursor::new(Vec::new());
    image::DynamicImage::ImageRgb8(img).write_to(&mut out, image::ImageFormat::Png).unwrap();
    out.into_inner()
}

#[test]
fn images_are_decoded_to_pixels() {
    let img = prepare(&png()).unwrap();
    assert_eq!((img.w, img.h), (3, 1));
    assert_eq!(img.pixels, [255, 0, 0, 0, 255, 0, 0, 0, 255]);
    assert_eq!(planar(&img.pixels, 3), [255, 0, 0, 0, 255, 0, 0, 0, 255]);
    assert_eq!(planar(&[1, 2, 3, 4, 5, 6], 2), [1, 4, 2, 5, 3, 6]);
    assert!(matches!(prepare(b"not an image"), Err(PrepareError::Decode(_))));
    let p = Planar { w: 96, h: 64, data: vec![] };
    assert_eq!(p.grid(16), (6, 4));
}

#[test]
fn every_decoded_image_has_three_bytes_a_pixel() {
    let rgb = image::RgbImage::from_fn(5, 4, |x, y| image::Rgb([x as u8, y as u8, 9]));
    let whole = image::DynamicImage::ImageRgb8(rgb);
    let shades = [
        image::DynamicImage::ImageLuma8(whole.to_luma8()),
        image::DynamicImage::ImageLumaA8(whole.to_luma_alpha8()),
        image::DynamicImage::ImageRgba8(whole.to_rgba8()),
        image::DynamicImage::ImageLuma16(whole.to_luma16()),
        image::DynamicImage::ImageRgb16(whole.to_rgb16()),
        image::DynamicImage::ImageRgba16(whole.to_rgba16()),
        whole,
    ];
    for img in shades {
        let mut out = std::io::Cursor::new(Vec::new());
        img.write_to(&mut out, image::ImageFormat::Png).unwrap();
        let got = prepare(&out.into_inner()).unwrap();
        assert_eq!((got.w, got.h, got.pixels.len()), (5, 4, 60));
    }
}

#[test]
fn an_image_without_pixels_is_refused() {
    for (w, h) in [(0, 4), (4, 0), (0, 0)] {
        let empty = Rgb { w, h, pixels: vec![] };
        assert!(matches!(usable(Ok(empty)), Err(PrepareError::ZeroDimension)));
    }
    let one = Rgb { w: 1, h: 1, pixels: vec![1, 2, 3] };
    assert_eq!(usable(Ok(one)).unwrap().pixels, [1, 2, 3]);
}

fn mmproj() -> Build {
    let mut b = Build::default()
        .text("general.architecture", "clip")
        .flag("clip.has_vision_encoder", true)
        .text("clip.vision.projector_type", "gemma4v")
        .number("clip.vision.embedding_length", 256)
        .number("clip.vision.attention.head_count", 2)
        .number("clip.vision.patch_size", 16)
        .number("clip.vision.block_count", 1)
        .number("clip.vision.feed_forward_length", 512)
        .single("clip.vision.attention.layer_norm_epsilon", 1e-6)
        .tensor("v.position_embd.weight", &[256, 8, 2], 0, &vec![0u8; 256 * 16 * 4])
        .tensor("mm.input_projection.weight", &[256, 320], 12, &vec![0u8; 144 * 320]);
    for name in arena_tensors(1) {
        if name != "mm.input_projection.weight" {
            b = b.tensor(&name, &[256, 256], 12, &vec![0u8; 144 * 256]);
        }
    }
    for name in param_names(1) {
        if name != "v.position_embd.weight" {
            b = b.tensor(&name, &[256], 0, &vec![0u8; 1024]);
        }
    }
    b.tensor("v.blk.0.attn_q.input_min", &[1], 0, &(-1.5f32).to_le_bytes())
}

#[test]
fn the_tower_is_described_by_its_file() {
    let file = mmproj().finish();
    let h = Header::parse(&file).unwrap_or_else(|e| panic!("{e:?}"));
    let c = Config::from_gguf(&h).unwrap();
    assert_eq!((c.head_dim, c.n_merge, c.proj_dim, c.pos_table_len), (128, 3, 320, 8));
    assert_eq!(c.align(), 48);
    assert_eq!((c.image_min_pixels, c.image_max_pixels), (40 * 48 * 48, 256 * 48 * 48));
}

#[test]
fn files_that_are_no_tower_are_refused() {
    let config = |b: Build| {
        Config::from_gguf(&Header::parse(&b.finish()).unwrap_or_else(|e| panic!("{e:?}")))
    };
    assert!(matches!(config(Build::default()), Err(VisionError::NotMmproj)));
    let clip = || Build::default().text("general.architecture", "clip");
    assert!(matches!(config(clip()), Err(VisionError::NoEncoder)));
    let enc = || clip().flag("clip.has_vision_encoder", true);
    assert!(matches!(
        config(enc().text("clip.vision.projector_type", "mlp")),
        Err(VisionError::Projector(p)) if p == "mlp"
    ));
    let proj = || {
        enc().text("clip.vision.projector_type", "gemma4v").number("clip.vision.embedding_length", 30)
    };
    assert!(matches!(config(proj()), Err(VisionError::Gguf(_))));
    assert!(matches!(
        config(proj().number("clip.vision.attention.head_count", 4)),
        Err(VisionError::Heads { d_model: 30, n_heads: 4 })
    ));
    assert!(matches!(
        config(proj().number("clip.vision.attention.head_count", 2)),
        Err(VisionError::OddHead(15))
    ));
}

#[test]
fn a_tower_takes_what_it_can_count() {
    let file = mmproj().finish();
    let mut t = tower(&file);
    assert!(t.can_encode(96, 96) && t.can_encode(0, 0) && !t.can_encode(usize::MAX, 2));
    assert!(gpu_vision::can_size(&t.cfg, 36, 4) && !gpu_vision::can_size(&t.cfg, usize::MAX, 4));
    t.cfg.n_heads = usize::MAX;
    assert!(!t.can_encode(96, 96));
    t.cfg.patch_size = 0;
    assert!(!t.can_encode(0, 0));
}

fn tower(file: &[u8]) -> VisionGpu {
    let g = Gguf::from_mmap(file).unwrap_or_else(|e| panic!("{e:?}"));
    let cfg = Config::from_gguf(g.header()).unwrap();
    let plan = Plan::build(g.header(), &arena_tensors(1)).unwrap();
    VisionGpu {
        cfg,
        weights: Weights::new(&plan.handles),
        param_off: ParamArena::build(g.header(), &param_names(1)).unwrap_or_else(|e| panic!("{e:?}")),
        clamp: clamp_table(&g),
        grid: Grid { max_groups: 65535, tile: 2 },
        eps: 0,
        rope_theta: 0,
        sqrt_d: 0,
    }
}

#[test]
fn an_image_becomes_a_plan() {
    let file = mmproj().finish();
    let t = tower(&file);
    let (p, plan, slots) = t.encode(96, 48).unwrap();
    assert_eq!((p.nx, p.ny, p.n, p.n_out), (6, 3, 18, 2));
    assert!(!plan.is_empty() && !slots.is_empty());
    let built = Pipelines::new(Family::Vision);
    for d in &plan {
        let module = built.modules.iter().find(|m| m.shader == d.bind.shader());
        assert!(module.map_or(false, |m| m.kernels.contains(&d.kernel)), "{d:?}");
    }
    assert!(matches!(t.encode(8, 8), Err(PlanError::TooSmall)));
    assert!(matches!(t.encode(64, 48), Err(PlanError::NotPoolable { nx: 4, ny: 3 })));
    assert!(matches!(t.encode(144, 48), Err(PlanError::PastPositions { nx: 9, ny: 3 })));
}

#[test]
fn patches_and_positions_are_laid_out_by_row() {
    // Two planes of a 4 by 2 image in patches of 2: red 0..8, green 8..16, blue 16..24.
    let img: Vec<u32> = (0..24).collect();
    let rows = im2col(&img, 2, 4, 2);
    assert_eq!(rows[..12], [0, 1, 4, 5, 8, 9, 12, 13, 16, 17, 20, 21]);
    assert_eq!(rows[12..16], [2, 3, 6, 7]);
    assert_eq!(position_rows(2, 2, 8), [(0, 8), (1, 8), (0, 9), (1, 9)]);
}

#[test]
fn clamps_are_finite() {
    assert_eq!(Clamp::finite(f32::NEG_INFINITY.to_bits(), f32::INFINITY.to_bits()), (FLOAT_MIN, FLOAT_MAX));
    assert_eq!(Clamp::finite(1, 2), (1, 2));
}

#[test]
fn an_image_becomes_a_program() {
    let file = mmproj().finish();
    let h = Header::parse(&file).unwrap_or_else(|e| panic!("{e:?}"));
    let c = Config::from_gguf(&h).unwrap();
    assert!(can_encode(&c, 96, 48));
    let (g, v) = Vision::new(&c).encode(96, 48).unwrap();
    assert_eq!((g.nx, g.ny, g.ox, g.oy), (6, 3, 2, 1));
    let x = Rows { buf: Scratch::H, first: 0, n: 18, width: 256, stride: 256 };
    assert_eq!(v[..2], [TowerStep::PatchEmbed(x), TowerStep::AddPosition { rows: x, nx: 6 }]);
    // Each head is normalized on its own and turned by its patch's place.
    let heads = Rows { buf: Scratch::Q, first: 0, n: 36, width: 128, stride: 128 };
    assert!(v.contains(&TowerStep::Norm { rows: heads, gain: Some(TowerGain::QueryNorm(0)) }));
    assert!(v.contains(&TowerStep::Rotate { rows: heads, per_patch: 2, nx: 6 }));
    // Every patch attends to every patch.
    let all = v.iter().find_map(|s| match *s {
        TowerStep::Attend { q, k, v, out, heads } => Some((q.n, k.n, v.n, out.n, heads)),
        _ => None,
    });
    assert_eq!(all, Some((18, 18, 18, 18, 2)));
    let y = Rows { buf: Scratch::Logits, first: 0, n: 2, width: 320, stride: 320 };
    let pooled = Rows { buf: Scratch::X, first: 0, n: 2, width: 256, stride: 256 };
    let last = TowerStep::Linear { matrix: TowerMatrix::InputProjection, x: pooled, y };
    assert_eq!(v.last(), Some(&last));
    assert_eq!(v.len(), 2 + 22 + 4);
    assert_eq!(buffer_size(&c, g, Scratch::Gate), 18 * 512);
    assert_eq!(buffer_size(&c, g, Scratch::Logits), 2 * 320);
}

#[test]
fn an_image_that_does_not_fit_the_tower_is_refused() {
    let file = mmproj().finish();
    let h = Header::parse(&file).unwrap_or_else(|e| panic!("{e:?}"));
    let c = Config::from_gguf(&h).unwrap();
    assert_eq!(patch_grid(&c, 8, 96), Err(EncodeError::TooSmall));
    assert_eq!(patch_grid(&c, 64, 48), Err(EncodeError::NotPoolable { nx: 4, ny: 3 }));
    assert_eq!(patch_grid(&c, 144, 48), Err(EncodeError::PastPositions { nx: 9, ny: 3 }));
    assert!(matches!(Vision::new(&c).encode(8, 8), Err(EncodeError::TooSmall)));
    assert!(!can_encode(&c, usize::MAX, usize::MAX));
    assert!(filter_fits(&c, 16 * 16 * 3 * 256) && !filter_fits(&c, 16 * 16 * 3));
}

#[test]
fn tensors_of_the_tower_have_their_names() {
    assert_eq!(TowerGain::Ln1(3).name(), "v.blk.3.ln1.weight");
    assert_eq!(TowerGain::AttnPostNorm(12).name(), "v.blk.12.attn_post_norm.weight");
    assert_eq!(TowerMatrix::FfnDown(0).name(), "v.blk.0.ffn_down.weight");
    assert_eq!(TowerMatrix::InputProjection.name(), "mm.input_projection.weight");
}

#[test]
fn pooling_takes_every_patch_once() {
    assert_eq!(pooled_patches(0, 6, 6, 3), [0, 1, 2, 6, 7, 8, 12, 13, 14]);
    assert_eq!(pooled_patches(3, 4, 4, 2), [10, 11, 14, 15]);
    let mut seen: Vec<usize> = (0..8).flat_map(|o| pooled_patches(o, 12, 6, 3)).collect();
    seen.sort();
    assert_eq!(seen, (0..72).collect::<Vec<usize>>());
}

#[test]
fn a_head_turns_by_the_place_of_its_patch() {
    assert_eq!(place_of(0, 2, 6), (0, 0));
    assert_eq!(place_of(13, 2, 6), (0, 1));
    assert_eq!(place_of(35, 2, 6), (5, 2));
}

#[test]
fn a_tower_is_summed_up_in_words() {
    let file = mmproj().finish();
    let h = Header::parse(&file).unwrap_or_else(|e| panic!("{e:?}"));
    let c = Config::from_gguf(&h).unwrap();
    assert_eq!(
        c.summary(),
        "gemma4v: 1L d 256 ffn 512 heads 2 head_dim 128 patch 16 pool 3x3 -> 320 \
         (92160..589824 px/image, pos table 8)"
    );
}
