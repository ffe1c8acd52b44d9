# bw24-engine

The host side of an inference engine for hybrid language models: models that mix full attention
with recurrent layers, with dense or routed feed-forward blocks. What the host decides and
computes is a library in Verus, with contracts that are proved, but for what takes floating-point
arithmetic. That, the kernels, files, threads and the environment are around it.

## The library

The library turns requests into data: launch plans over named device buffers, lists of tensors to
load, and the steps of generation loops. A plan has a symbolic meaning, given by `launch::run`,
and the laws about plans say what they leave in which buffer.

| Modules | What they hold |
| --- | --- |
| `launch`, `config` | plans and their meaning; the shape of a model |
| `attention`, `recurrent`, `ffn`, `decode_plan`, `decode_laws` | one decode step, in all its forms |
| `batch`, `batch_laws` | one step of several sequences |
| `capture_laws`, `stream_laws` | capturing a step leaves no trace; whole streams, replayed or batched, are those of plain decoding |
| `prefill` | the dense model's pass over a prompt |
| `greedy`, `generate`, `graph` | greedy streams; generation; replay of captured steps |
| `eagle`, `eagle_draft` | speculation with a drafter over hidden states |
| `gemma_spec`, `gemma_draft`, `trim` | speculation with an assistant drafter and its adaptive head |
| `dflash` | a drafter of whole blocks |
| `loader`, `model_load`, `draft_head`, `draft_load`, `gemma_load`, `experts` | what is loaded from a checkpoint |
| `gemm`, `cpu_experts`, `cache` | prompt-time products; experts on the CPU; fresh caches |
| `text`, `json`, `bytes`, `floats`, `settings`, `qtype`, `synth`, `frspec`, `gates` | formats, rankings and comparisons |

Floating-point numbers appear as their bits. Terms of a plan ignore rounding. One thing is taken on
trust: what `char::from_u32` of the standard library returns.

## Around it

`app/` drives the library: it runs plans on a device behind a trait, loads the native expert
backend and the product kernels, reads settings and files, and does what needs floating point.

`tests/` holds the tests of the library; `tests/plans.rs` runs plans on a symbolic device.
