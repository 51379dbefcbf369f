# llmoxide

Local inference for GGUF checkpoints of the gemma4 and qwen35 families, with the logic
proved in Verus: reading the file format, describing and checking a model, tokenizing,
building prompts and reading completions, planning forward passes, caching, sampling,
serving, downloading.

## Layout

- `src/` is the library. Everything in it is verified, against what it takes on trust
  of other crates (below).
  - `cursor`, `gguf`, `header`, `quant`: the file format and its quantized blocks.
  - `config`, `weights`, `cache`, `cpu`, `qwen35/`: the two text models: description,
    tensors, what is kept between passes, and the pass itself as a program of steps.
  - `vision`, `vision/`: the image tower.
  - `gpu/`: the weight arena, dispatch grids and the plans of the GPU passes.
  - `tokenizer`, `tokenizer/`: byte-pair encoding and its inverse, and the tables of
    characters.
  - `chat`, `chat/`, `json`: prompts and completions of both chat formats.
  - `sample`, `engine`, `server`: generation and the HTTP surface's payloads.
  - `hub`, `hub/`: resolving, resuming and checking downloads.
  - `secret`, `repl`, `talk`, `window`, `browser`, `clip`, `md`: conversations and how
    they are shown and forgotten.
- `app/` is a command line around the library: files, sockets, threads, the GPU and
  floating point. Models run on the GPU, or on the CPU where `LLMOXIDE_CPU` is set; the
  kernels are read from the directory that `LLMOXIDE_SHADERS` names, `shaders` by
  default. `LLMOXIDE_STREAM` moves the weights a piece at a time instead of mapping them.
- `tests/` runs the library on concrete values.

## Numbers

Floating-point values pass through the library as their IEEE bits. A forward pass is a
list of steps, each of which says which rows of which buffer it reads and writes, which
weight it applies and which positions it sees; `app/exec.rs` and `app/vision.rs` do the
arithmetic. A GPU pass is a plan of dispatches with the bytes of their parameters, which
`app/gpu.rs` submits.

What such a list computes is defined for any arithmetic that takes each row from its own
row alone (`cpu/meaning`). Of every such arithmetic it is proved that splitting a batch
changes neither the logits nor what the layers keep (`cpu/batch`, `qwen35/batch`).

## What is taken on trust

The contracts of these items are believed, not proved. Each says in its comment which
outside function it stands for and what it claims of it.

- `cursor`: `lossy_string` and the name `utf8_lossy` (`String::from_utf8_lossy`).
- `hub`: `hash_start`, `hash_more`, `hash_end`, the type `ExSha256` and the names
  `absorbed` and `sha256` (sha2's `Sha256`).
- `json`: `from_value`, `to_value`, the type `ExValue` and the name `held`
  (`serde_json::Value`); `value_of_text` and `read` (`serde_json::from_str`);
  `text_of_value` and `printed` (`Value::to_string`); `parse_float` and `float_literal`
  (`str::parse`, with `Number::from_f64`).
- `md`: `events` and the name `markdown` (pulldown-cmark's `Parser::new_ext`); `block`,
  `span`, `words`, `sign`, the type `ExMark` and the name `held` (its `Event`).
- `text`: `String::push`, `String::push_str`, `char::from_u32`; `str_eq` (`==` on `str`);
  `utf8` (`str::from_utf8`); `to_upper` and `uppercase` (`str::to_uppercase`).
- `vision/preprocess`: `decode_rgb8`, the type `ExImageError` and the name `image_size`
  (image's `load_from_memory` and `to_rgb8`).
