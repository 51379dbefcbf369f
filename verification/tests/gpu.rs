use llmoxide::config::Config;
use llmoxide::cpu::{Cpu, Step};
use llmoxide::gguf::GgmlType;
use llmoxide::gpu::arena::{
    block_strides, encode_tensor, gpu_bytes, PackError, Plan, Q4K_GPU_BLOCK_BYTES,
    Q6K_GPU_BLOCK_BYTES,
};
use llmoxide::gpu::forward::{self, buffer_sizes, GpuModel, Resident, Scalars};
use llmoxide::gpu::grid::{
    arena_buffer_bytes, cells, embed_for, pipeline_for, row_groups, subgroup_layout_matches,
    token_groups, token_tile, Kernel,
};
use llmoxide::gpu::pipelines::{Access, Family, Module, Pipelines, Resource, Shader};
use llmoxide::gpu::plan::{
    Bind, Buf, Dispatch, Grid, ParamArena, PlanError, Rest, Slot, Weights, UNIFORM_SLOT,
};
use llmoxide::gpu::qwen35::{self, Qwen35Gpu};
use llmoxide::gpu::upload::{
    adapter_name, check_span, fill_buffer, quant_shader_source, spans, Stream, UploadError,
};
use llmoxide::header::{Gguf, Header, TensorInfo, TensorView};
use llmoxide::qwen35::config::Config as Qwen;
use llmoxide::qwen35::cpu::Cpu as QwenCpu;

/// A GGUF file in the making.
#[derive(Default)]
struct Build {
    meta: Vec<u8>,
    n_meta: u64,
    infos: Vec<u8>,
    n_infos: u64,
    data: Vec<u8>,
}

#[allow(dead_code)]
impl Build {
    fn string(v: &mut Vec<u8>, s: &str) {
        v.extend_from_slice(&(s.len() as u64).to_le_bytes());
        v.extend_from_slice(s.as_bytes());
    }

    fn key(&mut self, key: &str, ty: u32) {
        self.n_meta += 1;
        Self::string(&mut self.meta, key);
        self.meta.extend_from_slice(&ty.to_le_bytes());
    }

    fn number(mut self, key: &str, v: u32) -> Self {
        self.key(key, 4);
        self.meta.extend_from_slice(&v.to_le_bytes());
        self
    }

    fn single(mut self, key: &str, v: f32) -> Self {
        self.key(key, 6);
        self.meta.extend_from_slice(&v.to_le_bytes());
        self
    }

    fn flag(mut self, key: &str, v: bool) -> Self {
        self.key(key, 7);
        self.meta.push(v as u8);
        self
    }

    fn text(mut self, key: &str, v: &str) -> Self {
        self.key(key, 8);
        Self::string(&mut self.meta, v);
        self
    }

    fn texts(mut self, key: &str, v: &[&str]) -> Self {
        self.key(key, 9);
        self.meta.extend_from_slice(&8u32.to_le_bytes());
        self.meta.extend_from_slice(&(v.len() as u64).to_le_bytes());
        for s in v {
            Self::string(&mut self.meta, s);
        }
        self
    }

    fn numbers(mut self, key: &str, v: &[u32]) -> Self {
        self.key(key, 9);
        self.meta.extend_from_slice(&4u32.to_le_bytes());
        self.meta.extend_from_slice(&(v.len() as u64).to_le_bytes());
        for n in v {
            self.meta.extend_from_slice(&n.to_le_bytes());
        }
        self
    }

    fn flags(mut self, key: &str, v: &[bool]) -> Self {
        self.key(key, 9);
        self.meta.extend_from_slice(&7u32.to_le_bytes());
        self.meta.extend_from_slice(&(v.len() as u64).to_le_bytes());
        for b in v {
            self.meta.push(*b as u8);
        }
        self
    }

    fn tensor(mut self, name: &str, dims: &[u64], ty: u32, data: &[u8]) -> Self {
        self.n_infos += 1;
        Self::string(&mut self.infos, name);
        self.infos.extend_from_slice(&(dims.len() as u32).to_le_bytes());
        for d in dims {
            self.infos.extend_from_slice(&d.to_le_bytes());
        }
        self.infos.extend_from_slice(&ty.to_le_bytes());
        self.infos.extend_from_slice(&(self.data.len() as u64).to_le_bytes());
        self.data.extend_from_slice(data);
        while self.data.len() % 32 != 0 {
            self.data.push(0);
        }
        self
    }

    fn finish(self) -> Vec<u8> {
        let mut v = b"GGUF".to_vec();
        v.extend_from_slice(&3u32.to_le_bytes());
        v.extend_from_slice(&self.n_infos.to_le_bytes());
        v.extend_from_slice(&self.n_meta.to_le_bytes());
        v.extend_from_slice(&self.meta);
        v.extend_from_slice(&self.infos);
        while v.len() % 32 != 0 {
            v.push(0);
        }
        v.extend_from_slice(&self.data);
        v
    }
}

/// A gemma4 checkpoint of two layers, the second of which sees everything.
fn gemma4() -> Build {
    let mut b = Build::default()
        .text("general.architecture", "gemma4")
        .number("gemma4.block_count", 2)
        .number("gemma4.embedding_length", 256)
        .number("gemma4.attention.head_count", 2)
        .number("gemma4.feed_forward_length", 512)
        .single("gemma4.attention.layer_norm_rms_epsilon", 1e-6)
        .numbers("gemma4.attention.head_count_kv", &[2, 1])
        .flags("gemma4.attention.sliding_window_pattern", &[true, false])
        .number("gemma4.attention.key_length", 256)
        .number("gemma4.attention.key_length_swa", 128)
        .single("gemma4.rope.freq_base", 1_000_000.0)
        .single("gemma4.rope.freq_base_swa", 10_000.0)
        .number("gemma4.attention.sliding_window", 4)
        .single("gemma4.final_logit_softcapping", 30.0)
        .texts("tokenizer.ggml.tokens", &["<pad>", "<eos>", "<bos>", "<turn|>"])
        .tensor("token_embd.weight", &[256, 4], 14, &[0u8; 840])
        .tensor("output_norm.weight", &[256], 0, &[0u8; 1024]);
    for il in 0..2u64 {
        let (head, kv) = if il == 0 { (128, 256) } else { (256, 256) };
        let q = 2 * head;
        let name = |s: &str| format!("blk.{il}.{s}.weight");
        let wide = |n: u64| vec![0u8; (n * 4) as usize];
        let quant = |i: u64, o: u64| vec![0u8; (i / 256 * 144 * o) as usize];
        b = b
            .tensor(&name("attn_norm"), &[256], 0, &wide(256))
            .tensor(&name("attn_q"), &[256, q], 12, &quant(256, q))
            .tensor(&name("attn_k"), &[256, kv], 12, &quant(256, kv));
        if il == 0 {
            b = b.tensor(&name("attn_v"), &[256, kv], 12, &quant(256, kv));
        }
        b = b
            .tensor(&name("attn_q_norm"), &[head], 0, &wide(head))
            .tensor(&name("attn_k_norm"), &[head], 0, &wide(head))
            .tensor(&name("attn_output"), &[q, 256], 12, &quant(q, 256))
            .tensor(&name("post_attention_norm"), &[256], 0, &wide(256))
            .tensor(&name("ffn_norm"), &[256], 0, &wide(256))
            .tensor(&name("ffn_gate"), &[256, 512], 12, &quant(256, 512))
            .tensor(&name("ffn_up"), &[256, 512], 12, &quant(256, 512))
            .tensor(&name("ffn_down"), &[512, 256], 12, &quant(512, 256))
            .tensor(&name("post_ffw_norm"), &[256], 0, &wide(256))
            .tensor(&name("layer_output_scale"), &[1], 0, &1.0f32.to_le_bytes());
    }
    b
}

fn header(file: &[u8]) -> Header {
    Header::parse(file).unwrap_or_else(|e| panic!("{e:?}"))
}
/// A qwen35 checkpoint of four layers, the last of which is full attention.
fn qwen35() -> Build {
    let mut b = Build::default()
        .text("general.architecture", "qwen35")
        .number("qwen35.block_count", 4)
        .number("qwen35.embedding_length", 256)
        .number("qwen35.attention.key_length", 128)
        .number("qwen35.attention.value_length", 128)
        .number("qwen35.ssm.state_size", 64)
        .number("qwen35.ssm.group_count", 2)
        .number("qwen35.ssm.time_step_rank", 4)
        .number("qwen35.ssm.inner_size", 256)
        .number("qwen35.feed_forward_length", 512)
        .single("qwen35.attention.layer_norm_rms_epsilon", 1e-6)
        .number("qwen35.attention.head_count", 2)
        .number("qwen35.attention.head_count_kv", 2)
        .number("qwen35.rope.dimension_count", 32)
        .single("qwen35.rope.freq_base", 10_000_000.0)
        .number("qwen35.ssm.conv_kernel", 4)
        .texts("tokenizer.ggml.tokens", &["a", "<|im_end|>", "<|endoftext|>"])
        .tensor("token_embd.weight", &[256, 3], 14, &[0u8; 630])
        .tensor("output_norm.weight", &[256], 0, &[0u8; 1024]);
    for il in 0..4u64 {
        let name = |s: &str| format!("blk.{il}.{s}");
        let wide = |n: u64| vec![0u8; (n * 4) as usize];
        let quant = |i: u64, o: u64| vec![0u8; (i / 256 * 144 * o) as usize];
        b = b
            .tensor(&name("attn_norm.weight"), &[256], 0, &wide(256))
            .tensor(&name("post_attention_norm.weight"), &[256], 0, &wide(256))
            .tensor(&name("ffn_gate.weight"), &[256, 512], 12, &quant(256, 512))
            .tensor(&name("ffn_up.weight"), &[256, 512], 12, &quant(256, 512))
            .tensor(&name("ffn_down.weight"), &[512, 256], 12, &quant(512, 256));
        if il < 3 {
            b = b
                .tensor(&name("attn_qkv.weight"), &[256, 512], 12, &quant(256, 512))
                .tensor(&name("attn_gate.weight"), &[256, 256], 12, &quant(256, 256))
                .tensor(&name("ssm_alpha.weight"), &[256, 4], 12, &quant(256, 4))
                .tensor(&name("ssm_beta.weight"), &[256, 4], 12, &quant(256, 4))
                .tensor(&name("ssm_conv1d.weight"), &[4, 512], 0, &wide(2048))
                .tensor(&name("ssm_a"), &[4], 0, &wide(4))
                .tensor(&name("ssm_dt.bias"), &[4], 0, &wide(4))
                .tensor(&name("ssm_norm.weight"), &[64], 0, &wide(64))
                .tensor(&name("ssm_out.weight"), &[256, 256], 12, &quant(256, 256));
        } else {
            b = b
                .tensor(&name("attn_q.weight"), &[256, 512], 12, &quant(256, 512))
                .tensor(&name("attn_k.weight"), &[256, 256], 12, &quant(256, 256))
                .tensor(&name("attn_v.weight"), &[256, 256], 12, &quant(256, 256))
                .tensor(&name("attn_q_norm.weight"), &[128], 0, &wide(128))
                .tensor(&name("attn_k_norm.weight"), &[128], 0, &wide(128))
                .tensor(&name("attn_output.weight"), &[256, 256], 12, &quant(256, 256));
        }
    }
    b
}

#[test]
fn q6k_repack_preserves_payload_and_pads() {
    let src = vec![7u8; llmoxide::quant::Q6K_BLOCK_BYTES * 2];
    let info = TensorInfo {
        name: "t".into(),
        dims: vec![512],
        ty: GgmlType::Q6K,
        offset: 0,
    };
    let view = TensorView {
        info: &info,
        data: &src,
    };
    let mut dst = vec![0xAAu8; gpu_bytes(GgmlType::Q6K, 512)];
    encode_tensor(&view, &mut dst);

    assert_eq!(dst.len(), 448);
    for b in 0..2 {
        let blk = &dst[b * Q6K_GPU_BLOCK_BYTES..(b + 1) * Q6K_GPU_BLOCK_BYTES];
        assert!(blk[..210].iter().all(|&x| x == 7), "payload block {b}");
        assert!(blk[210..].iter().all(|&x| x == 0), "padding block {b}");
    }
}

#[test]
fn gpu_block_strides_are_u32_aligned() {
    assert_eq!(Q4K_GPU_BLOCK_BYTES % 4, 0);
    assert_eq!(Q6K_GPU_BLOCK_BYTES % 4, 0);
}

#[test]
fn row_groups_respects_dispatch_limit() {
    let tile = token_tile(None);
    assert_eq!(token_groups(1, tile), 1);
    assert_eq!(token_groups(tile, tile), 1);
    assert_eq!(token_groups(tile + 1, tile), 2);
    assert_eq!(row_groups(3840, 65535), 480);
    assert_eq!(row_groups(262144, 65535), 32768);
    assert_eq!(row_groups(0, 65535), 1);
    // Never fewer groups than the dispatch limit allows.
    assert!(row_groups(1_000_000, 65535) <= 65535);
}

#[test]
fn tiles_and_kernels_are_those_that_exist() {
    assert_eq!((token_tile(Some(8)), token_tile(Some(3)), token_tile(None)), (8, 2, 2));
    assert_eq!(cells(257, 256), 2);
    assert_eq!(arena_buffer_bytes(1 << 20, 1 << 30), 1 << 20);
    assert_eq!(
        pipeline_for(GgmlType::Q4K, 2),
        Some(Kernel::Matvec { ty: GgmlType::Q4K, tiled: true })
    );
    assert_eq!(
        pipeline_for(GgmlType::Q4K, 1),
        Some(Kernel::Matvec { ty: GgmlType::Q4K, tiled: false })
    );
    assert_eq!(pipeline_for(GgmlType::F16, 1), None);
    assert!(embed_for(GgmlType::Q6K).is_some() && embed_for(GgmlType::F16).is_none());
    assert_eq!(block_strides(GgmlType::Q6K), (210, 224));
}

#[test]
fn subgroups_must_be_the_lane_groups() {
    let ids: Vec<u32> = (0..64).map(|i| i % 32).collect();
    assert!(subgroup_layout_matches(&ids, &[32; 64]));
    assert!(!subgroup_layout_matches(&ids, &[64; 64]));
    let mut swapped = ids.clone();
    swapped.swap(0, 1);
    assert!(!subgroup_layout_matches(&swapped, &[32; 64]));
}

#[test]
fn tensors_are_packed_apart_and_aligned() {
    let file = gemma4().finish();
    let h = header(&file);
    let names = forward::arena_tensors(&h);
    assert_eq!(names.len(), 1 + 7 + 6);
    let p = Plan::build(&h, &names).unwrap();
    assert_eq!(p.buffer_sizes.len(), 1);
    assert_eq!(p.total_bytes(), p.buffer_sizes[0]);
    let mut end = 0u64;
    for (name, a) in &p.handles {
        assert_eq!(a.base_u32 % 64, 0);
        assert!(a.base_u32 as u64 * 4 >= end);
        let t = h.info(name).unwrap();
        end = a.base_u32 as u64 * 4 + gpu_bytes(t.ty, t.elem_count()) as u64;
    }
    assert!(end <= p.buffer_sizes[0]);
    // A small target spreads them over several buffers, or refuses.
    let many = Plan::build_with(&h, &names, 200_000).unwrap();
    assert!(many.buffer_sizes.len() > 1);
    assert!(matches!(Plan::build_with(&h, &names, 4096), Err(PackError::TooLarge { .. })));
    assert!(matches!(
        Plan::build(&h, &vec!["x".to_string()]),
        Err(PackError::NoTensor(n)) if n == "x"
    ));
}

#[test]
fn streaming_writes_what_filling_writes() {
    let mut b = Build::default();
    let blocks: Vec<u8> = (0..1680).map(|i| (i % 251) as u8).collect();
    b = b.tensor("a", &[2048], 14, &blocks).tensor("b", &[256], 12, &blocks[..144]);
    let file = b.finish();
    let g = Gguf::from_mmap(&file).unwrap_or_else(|e| panic!("{e:?}"));
    let names = vec!["a".to_string(), "b".to_string()];
    let p = Plan::build(g.header(), &names).unwrap();
    let whole = fill_buffer(&g, &p, 0).unwrap();
    let mut s = Stream::new(g.header(), &p).unwrap();
    let mut image = vec![0u8; whole.len()];
    while let Some(piece) = s.next() {
        let bytes = &file[piece.from as usize..piece.to as usize];
        assert!(matches!(s.accept(&bytes[1..]), Err(UploadError::ShortRead { .. })));
        let w = s.accept(bytes).unwrap();
        image[w.offset as usize..w.offset as usize + w.data.len()].copy_from_slice(&w.data);
    }
    assert_eq!(image, whole);
    for span in s.finish().unwrap() {
        let at = span.offset as usize;
        assert!(check_span(&span, &image[at..at + span.data.len()]).is_ok());
        let mut bad = span.data.clone();
        bad[0] ^= 1;
        assert!(matches!(check_span(&span, &bad), Err(UploadError::Verification { .. })));
    }
    assert!(spans(0, &whole).iter().all(|s| s.buffer == 0));
}

#[test]
fn bytes_that_were_planned_and_not_written_are_noticed() {
    let file = Build::default()
        .tensor("a", &[256], 14, &[1u8; 210])
        .tensor("b", &[256], 12, &[1u8; 144])
        .finish();
    let h = header(&file);
    let p = Plan::build(&h, &vec!["a".to_string(), "b".to_string()]).unwrap();
    let stream = |most: usize| {
        let mut s = Stream::new(&h, &p).unwrap();
        for _ in 0..most {
            let Some(piece) = s.next() else { break };
            s.accept(&file[piece.from as usize..piece.to as usize]).unwrap();
        }
        s.finish()
    };
    assert!(matches!(stream(0), Err(UploadError::Accounting { wrote: 0, planned: 368 })));
    assert!(matches!(stream(1), Err(UploadError::Accounting { wrote: 224, planned: 368 })));
    // The gap in front of the second tensor is no tensor's.
    assert_eq!(p.total_bytes(), 400);
    let spans = stream(2).unwrap();
    assert_eq!(spans.len(), 2);
    assert_eq!((spans[0].offset, spans[0].data.len()), (0, 224));
    assert_eq!((spans[1].offset, spans[1].data.len()), (256, 144));
}

#[test]
fn shaders_get_their_reduction_and_tile() {
    let t = "// @@REDUCE@@\nconst T = @@TILE@@u; const L = @@LANES@@u; const R = @@ROWS@@u;";
    let with = quant_shader_source(t, true, 4);
    let without = quant_shader_source(t, false, 4);
    assert!(with.contains("subgroupAdd") && !without.contains("subgroupAdd"));
    assert!(with.ends_with("const T = 4u; const L = 32u; const R = 8u;"));
    assert!(without.ends_with("const T = 4u; const L = 32u; const R = 8u;"));
}

#[test]
fn an_adapter_is_called_by_what_it_tells() {
    assert_eq!(adapter_name("M1", "d", "i", "Metal", false), "M1");
    assert_eq!(adapter_name("", "d", "i", "Metal", false), "d i");
    assert_eq!(adapter_name("", "", "i", "Metal", false), "i");
    assert_eq!(adapter_name("", "", "", "Metal", false), "Metal adapter");
    assert_eq!(adapter_name("", "", "", "BrowserWebGpu", true), "WebGPU");
}

fn resident(file: &[u8]) -> Resident {
    let h = header(file);
    let cfg = Config::from_gguf(&h, vec![]).unwrap();
    let names = forward::arena_tensors(&h);
    let plan = Plan::build(&h, &names).unwrap();
    let params = forward::param_names(&h, cfg.n_layers);
    let n = cfg.n_layers;
    Resident {
        cfg,
        weights: Weights::new(&plan.handles),
        param_off: ParamArena::build(&h, &params).unwrap_or_else(|e| panic!("{e:?}")),
        scalars: Scalars {
            embed_scale: 16.0f32.to_bits(),
            rms_eps: 1e-6f32.to_bits(),
            softcap: Some(30.0f32.to_bits()),
            attn_scale: 1.0f32.to_bits(),
            rope_bases: vec![0; n],
            layer_scales: vec![1.0f32.to_bits(); n],
        },
        grid: Grid { max_groups: 65535, tile: 2 },
        n_ctx: 64,
    }
}

/// Whether a family builds what a dispatch runs, in the module that it is bound to.
fn served(f: Family, d: &Dispatch) -> bool {
    Pipelines::new(f)
        .modules
        .iter()
        .any(|m| m.shader == d.bind.shader() && m.kernels.contains(&d.kernel))
}

#[test]
fn a_gemma4_plan_runs_every_step_of_both_layers() {
    let file = gemma4().finish();
    let p = resident(&file).build_plan(3).unwrap();
    assert!(p.checkpoints.iter().any(|c| c.0 == "inp_scaled"));
    assert!(p.checkpoints.iter().any(|c| c.0.ends_with("-1")));
    assert!(p.plan.iter().all(|d| d.offset as usize % UNIFORM_SLOT == 0));
    assert!(p.plan.iter().all(|d| d.groups.0 > 0 && d.groups.1 > 0 && d.groups.2 > 0));
    // Seven projections in the sliding layer, six in the global one.
    let matvecs = p.plan.iter().filter(|d| matches!(d.kernel, Kernel::Matvec { .. })).count();
    assert_eq!(matvecs, 13);
    assert_eq!(p.tail.iter().filter(|d| matches!(d.kernel, Kernel::SoftCap)).count(), 1);
    assert!(p.plan.iter().chain(&p.tail).all(|d| served(Family::Gemma4, d)));
}

/// The names that a pass shows its intermediates under.
fn shown(steps: &[Step]) -> Vec<String> {
    steps
        .iter()
        .filter_map(|s| match s {
            Step::Mark { label, .. } => Some(label.text()),
            _ => None,
        })
        .collect()
}

#[test]
fn checkpoints_are_traced() {
    let file = gemma4().finish();
    let r = resident(&file);
    let p = r.build_plan(3).unwrap();
    let names = shown(&Cpu::new(&r.cfg, 3).forward_traced(3, 0, 8).unwrap());
    assert!(!p.checkpoints.is_empty());
    for (name, _, _) in &p.checkpoints {
        assert!(names.contains(name), "{name}");
    }
}

#[test]
fn a_pass_moves_the_position_and_checks_the_batch() {
    let file = gemma4().finish();
    let mut m = GpuModel {
        res: resident(&file),
        max_batch: 8,
        pos: 0,
        debug_stop: None,
        decode: None,
        prefill: None,
    };
    assert!(matches!(m.forward(0), Err(PlanError::BatchOutOfRange(0))));
    assert!(matches!(m.forward(9), Err(PlanError::BatchOutOfRange(9))));
    let (pass, n) = m.forward(3).unwrap();
    assert!(!pass.cached && n == 3 && m.pos == 3);
    match pass.rest {
        Rest::Head { copy_from, copy_bytes, .. } => assert_eq!((copy_from, copy_bytes), (2 * 1024, 1024)),
        _ => panic!("no checkpoint was asked for"),
    }
    assert!(m.forward(1).unwrap().0.cached && m.pos == 4);
    m.pos = 57;
    assert!(matches!(m.forward(8), Err(PlanError::ContextOverflow)));
    m.pos = 56;
    assert!(m.forward(8).is_ok());
    m.reset();
    assert_eq!(m.pos, 0);
    m.debug_stop = Some("nothing".into());
    assert!(matches!(m.forward(1), Err(PlanError::UnknownCheckpoint(n)) if n == "nothing"));
    m.debug_stop = Some("inp_scaled".into());
    assert!(matches!(m.forward(1).unwrap().0.rest, Rest::Checkpoint(_)));
    assert_eq!(m.pos, 0);
}

#[test]
fn a_batch_never_wraps_a_ring_that_it_reads() {
    // A layer with a window of four keeps four rows.
    let file = gemma4().finish();
    let model = |pos: usize| GpuModel {
        res: resident(&file),
        max_batch: 8,
        pos,
        debug_stop: None,
        decode: None,
        prefill: None,
    };
    let run = |pos: usize, t: usize| {
        let mut m = model(pos);
        let (mut left, mut runs) = (t, Vec::new());
        while left > 0 {
            let (pass, n) = m.forward(left).unwrap();
            assert_eq!(pass.cached, n == 1);
            runs.push(n);
            left -= n;
        }
        assert_eq!(m.pos, pos + t);
        runs
    };
    assert_eq!(run(0, 4), [4]);
    assert_eq!(run(0, 7), [4, 1, 1, 1]);
    assert_eq!(run(2, 3), [2, 1]);
    assert_eq!(run(8, 2), [1, 1]);
    // Without a window a batch runs whole.
    let mut m = model(20);
    for l in &mut m.res.cfg.layers {
        l.window = None;
    }
    assert_eq!(m.forward(8).unwrap().1, 8);
}

#[test]
fn a_missing_weight_is_named() {
    let file = gemma4().finish();
    let mut r = resident(&file);
    r.weights = Weights::new(&vec![]);
    assert!(matches!(r.build_plan(1), Err(PlanError::Weight(n)) if n == "token_embd.weight"));
    let mut r = resident(&file);
    r.param_off = ParamArena::build(&header(&file), &vec![]).unwrap_or_else(|e| panic!("{e:?}"));
    assert!(matches!(r.build_plan(1), Err(PlanError::Param(n)) if n == "blk.0.attn_norm.weight"));
}

#[test]
fn uniforms_follow_the_position() {
    let file = gemma4().finish();
    let p = resident(&file).build_plan(1).unwrap();
    let a = llmoxide::gpu::plan::emit_all(&p.slots, 0, 1);
    let b = llmoxide::gpu::plan::emit_all(&p.slots, 5, 1);
    assert_eq!(a.len(), p.slots.len() * UNIFORM_SLOT);
    for (i, s) in p.slots.iter().enumerate() {
        let at = i * UNIFORM_SLOT..(i + 1) * UNIFORM_SLOT;
        let moves = matches!(s, Slot::Positioned(_) | Slot::Attention(_));
        assert_eq!(a[at.clone()] != b[at], moves, "slot {i}");
    }
}

#[test]
fn only_batches_that_can_be_counted_are_planned() {
    let file = gemma4().finish();
    let mut res = resident(&file);
    assert!(res.can_run(0) && res.can_run(1) && res.can_run(4096));
    // Key rows are counted in 32-bit words: 256 numbers for each token of a batch.
    assert!(res.can_run(0xff_ffff) && !res.can_run(0x100_0000) && !res.can_run(usize::MAX));
    let n_ctx = res.n_ctx;
    if let Some(long) = 0x1_0000_0000u64.try_into().ok() {
        res.n_ctx = long;
        assert!(!res.can_run(1));
    }
    res.n_ctx = n_ctx;
    res.scalars.layer_scales.pop();
    assert!(!res.can_run(1));

    let file = qwen35().finish();
    let h = header(&file);
    let cfg = Qwen::from_gguf(&h).unwrap();
    let plan = Plan::build(&h, &qwen35::arena_tensors(&h, &cfg)).unwrap();
    let params = qwen35::param_names(&cfg);
    let mut res = qwen35::Resident {
        cfg,
        weights: Weights::new(&plan.handles),
        param_off: ParamArena::build(&h, &params).unwrap_or_else(|e| panic!("{e:?}")),
        scalars: qwen35::Scalars { rms_eps: 0, rope_base: 0, attn_scale: 0, delta_scale: 0 },
        grid: Grid { max_groups: 65535, tile: 2 },
    };
    assert!(res.can_run(16, 0) && res.can_run(16, 4096) && !res.can_run(16, usize::MAX));
    assert!(!res.can_run(usize::MAX, 1) || usize::MAX == u32::MAX as usize);
    res.cfg.conv_kernel = 0;
    assert!(!res.can_run(16, 1));
    res.cfg.recurrent = vec![false; 4];
    assert!(res.can_run(16, 1));
    res.grid.tile = 0;
    assert!(!res.can_run(16, 1));
}

#[test]
fn a_qwen35_plan_mixes_both_kinds_of_layer() {
    let file = qwen35().finish();
    let h = header(&file);
    let cfg = Qwen::from_gguf(&h).unwrap();
    let names = qwen35::arena_tensors(&h, &cfg);
    let plan = Plan::build(&h, &names).unwrap();
    let params = qwen35::param_names(&cfg);
    let sizes = qwen35::buffer_sizes(&cfg, 16, 4);
    assert!(sizes.iter().any(|(b, _)| matches!(b, Buf::Recurrent(0))));
    assert!(sizes.iter().any(|(b, _)| matches!(b, Buf::CacheK(3))));
    let res = qwen35::Resident {
        cfg,
        weights: Weights::new(&plan.handles),
        param_off: ParamArena::build(&h, &params).unwrap_or_else(|e| panic!("{e:?}")),
        scalars: qwen35::Scalars { rms_eps: 0, rope_base: 0, attn_scale: 0, delta_scale: 0 },
        grid: Grid { max_groups: 65535, tile: 2 },
    };
    let p = res.build_plan(2).unwrap();
    let count = |k: Kernel| p.plan.iter().filter(|d| d.kernel == k).count();
    assert_eq!(count(Kernel::DeltaRecur), 3);
    assert_eq!(count(Kernel::ScoresPass), 1);
    assert!(p.plan.iter().chain(&p.tail).all(|d| served(Family::Qwen35, d)));
    let traced = shown(&QwenCpu::new(&res.cfg, 2).forward_traced(2, 0, 8).unwrap());
    assert!(p.checkpoints.iter().all(|c| traced.contains(&c.0)));
    let mut m = Qwen35Gpu {
        res,
        n_ctx: 16,
        max_batch: 4,
        pos: 0,
        debug_stop: None,
        decode: None,
        prefill: None,
    };
    assert!(m.forward(4).is_ok() && m.pos == 4);
    assert!(matches!(m.forward(5), Err(PlanError::BatchOutOfRange(5))));
    let clear = m.reset();
    assert_eq!(clear.len(), 6);
    assert_eq!(m.pos, 0);
    assert_eq!(qwen35::submissions(130), [(0, 64), (64, 128), (128, 130)]);
}

#[test]
fn buffers_are_as_large_as_the_widest_layer() {
    let file = gemma4().finish();
    let cfg = Config::from_gguf(&header(&file), vec![]).unwrap();
    let sizes = buffer_sizes(&cfg, 64, 8);
    let of = |want: Buf| sizes.iter().find(|(b, _)| *b == want).unwrap().1;
    assert_eq!(of(Buf::H), 8 * 256 * 4);
    assert_eq!(of(Buf::Q), 8 * 2 * 256 * 4);
    assert_eq!(of(Buf::CacheK(0)), 4 * 256 * 4);
    assert_eq!(of(Buf::CacheV(1)), 64 * 256 * 4);
}

#[test]
fn each_family_builds_its_kernels() {
    let names = |m: &Module| m.kernels.iter().map(|k| k.entry_point()).collect::<Vec<String>>();
    let p = Pipelines::new(Family::Gemma4);
    let labels: Vec<&str> = p.modules.iter().map(|m| m.label).collect();
    assert_eq!(labels, ["ops", "attn", "quant"]);
    assert_eq!(
        names(&p.modules[0]),
        ["rms_norm", "geglu", "add_scale", "scale", "copy", "rope", "soft_cap", "write_cache"]
    );
    assert_eq!(names(&p.modules[1]), ["scores_pass", "softmax_pass", "weighted_v"]);
    assert_eq!(p.modules[2].kernels.len(), 13);
    assert_eq!(names(&p.modules[2])[..2], ["matvec_q4k", "matvec_q6k"]);
    let q = Pipelines::new(Family::Qwen35);
    let labels: Vec<&str> = q.modules.iter().map(|m| m.label).collect();
    assert_eq!(labels, ["qwen-ops", "qwen-attn", "qwen-delta", "quant"]);
    assert_eq!(
        names(&q.modules[2]),
        ["conv_silu", "conv_shift", "conv_commit", "l2norm_qk", "delta_recur"]
    );
    let v = Pipelines::new(Family::Vision);
    assert_eq!(names(&v.modules[0])[4..], ["rope_2d", "clamp_range", "pool_avg"]);
    assert_eq!(Shader::Delta.file(), "deltanet.wgsl");
}

#[test]
fn bind_groups_fill_their_layouts() {
    let (q, k, v) = (Buf::Q, Buf::CacheK(0), Buf::CacheV(0));
    let binds = [
        Bind::Ops { a: Buf::H, b: Buf::Zero, out: Buf::X },
        Bind::Matvec { weights: 2, x: Buf::X, y: Buf::Q },
        Bind::Attn { q, k, v, scores: Buf::Scores, out: Buf::Attn },
        Bind::Delta { a: Buf::Alpha, b: Buf::Beta, c: Buf::Conv, state: Buf::Recurrent(0), out: Buf::Attn },
    ];
    for b in binds {
        let (group, layout) = (b.resources(), b.shader().bindings());
        assert_eq!(group.len(), layout.len());
        for (r, a) in group.iter().zip(&layout) {
            assert_eq!(*r == Resource::Uniforms, *a == Access::Uniform);
        }
    }
    assert_eq!(
        binds[1].resources(),
        [
            Resource::Weights(2),
            Resource::Buf(Buf::X),
            Resource::Buf(Buf::Q),
            Resource::Uniforms,
            Resource::Buf(Buf::Tokens),
        ]
    );
}
