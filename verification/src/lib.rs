//! Verified host logic of the bw24 inference engine.

pub mod greedy;
pub mod eagle;
pub mod gemma_spec;
pub mod trim;
pub mod launch;
pub mod config;
pub mod ffn;
pub mod attention;
pub mod recurrent;
pub mod decode_plan;
pub mod decode_laws;
pub mod batch;
pub mod batch_laws;
pub mod capture_laws;
pub mod refusal_laws;
pub mod stream_laws;
pub mod extent;
pub mod extent_laws;
pub mod step_extents;
pub mod batch_extents;
pub mod eagle_draft;
pub mod prefill;
pub mod prefill_extents;
pub mod gemma_draft;
pub mod text;
pub mod settings;
pub mod gates;
pub mod bytes;
pub mod dflash;
pub mod draft_extents;
pub mod loader;
pub mod model_load;
pub mod draft_head;
pub mod draft_load;
pub mod gemma_load;
pub mod roles;
pub mod experts;
pub mod generate;
pub mod graph;
pub mod cache;
pub mod qtype;
pub mod synth;
pub mod floats;
pub mod gemm;
pub mod frspec;
pub mod json;
pub mod cpu_experts;
