use bw24_engine::config::{Gemma4Config, LayerKind, ModelConfig, MoeConfig, SsmConfig};
use bw24_engine::draft_head::{load_draft, DraftError};
use bw24_engine::draft_load::{load_dflash, load_eagle};
use bw24_engine::gemma_load;
use bw24_engine::gemma_load::{head_count, layer_mirror_roles, DraftMeta, GemmaLoadError};
use bw24_engine::loader::{blk, load_ffn, resolve, Catalog, How, Need, Role, Want};
use bw24_engine::model_load;
use bw24_engine::model_load::{
    load_from_source, load_layer, load_mtp, per_layer_table, DraftHead, LoadOptions,
};
use bw24_engine::qtype::{GgmlType, QT_Q4_0, QT_Q6_K, QT_Q8_0};
use bw24_engine::text::chars_of;
use bw24_engine::trim::{head_rows, ranked_ids};

fn config(n_layer: usize) -> ModelConfig {
    ModelConfig {
        n_layer,
        nextn_predict_layers: 0,
        n_embd: 64,
        n_head: 4,
        n_head_kv: 2,
        head_dim_k: 16,
        rope_dim_count: 16,
        n_vocab: 100,
        kinds: Vec::new(),
        attn_out_gate: false,
        ssm: None,
        moe: None,
        m3_moe_layer_freq: None,
        hy3_first_k_dense: None,
        gemma4: None,
    }
}

fn options() -> LoadOptions {
    LoadOptions {
        disk_tier: false,
        on_disk: false,
        full_prec: false,
        mtp_draft: false,
        frspec_trim: false,
        q4rp: false,
    }
}

fn catalog(names: &[String]) -> Catalog {
    Catalog { names: names.to_vec() }
}

fn dense_names(il: usize) -> Vec<String> {
    [
        "attn_norm.weight",
        "post_attention_norm.weight",
        "attn_q.weight",
        "attn_k.weight",
        "attn_v.weight",
        "attn_output.weight",
        "attn_q_norm.weight",
        "attn_k_norm.weight",
        "ffn_gate.weight",
        "ffn_up.weight",
        "ffn_down.weight",
    ]
    .iter()
    .map(|s| format!("blk.{il}.{s}"))
    .collect()
}

fn head_names() -> Vec<String> {
    vec!["token_embd.weight".into(), "output_norm.weight".into()]
}

fn roles(loads: &[Want]) -> Vec<Role> {
    loads.iter().map(|w| w.role).collect()
}

#[test]
fn names_of_blocks() {
    assert_eq!(blk(12, "attn_q.weight"), "blk.12.attn_q.weight");
}

#[test]
fn resolving_keeps_what_is_there() {
    let want = |name: &str, need: Need| Want {
        name: name.to_string(),
        role: Role::Wq,
        how: How::Device,
        need,
    };
    let ws = vec![
        want("a", Need::Required),
        want("b", Need::Optional),
        want("c", Need::Elsewhere),
        want("d", Need::Optional),
    ];
    let cat = catalog(&["a".to_string(), "d".to_string()]);
    let kept: Vec<String> = resolve(&ws, &cat).unwrap().into_iter().map(|w| w.name).collect();
    assert_eq!(kept, vec!["a", "c", "d"]);
    let ws = vec![want("x", Need::Optional), want("y", Need::Required), want("z", Need::Required)];
    assert_eq!(resolve(&ws, &cat).unwrap_err(), "y");
}

#[test]
fn loads_a_dense_model() {
    let mut names = head_names();
    names.extend(dense_names(0));
    names.extend(dense_names(1));
    let cfg = config(2);
    let plan = load_from_source(&cfg, &catalog(&names), options()).unwrap();
    assert_eq!(plan.layers.len(), 2);
    assert_eq!(plan.head[2].name, "token_embd.weight");
    assert_eq!(plan.head[0].how, How::Raw);
    assert!(!plan.layers[1].moe && plan.layers[1].kv_share.is_none());
    assert_eq!(plan.layers[1].loads[2].name, "blk.1.attn_q.weight");
    assert_eq!(plan.draft_head, DraftHead::Absent);
    assert!(plan.mtp.is_none() && plan.aux.is_empty() && !plan.trim);
    for missing in 0..names.len() {
        let mut some = names.clone();
        let name = some.remove(missing);
        match name.as_str() {
            "blk.0.attn_v.weight" | "blk.1.attn_v.weight" => {
                let plan = load_from_source(&cfg, &catalog(&some), options()).unwrap();
                let il = if name.contains(".0.") { 0 } else { 1 };
                assert_eq!(plan.layers[il].loads[4].name, format!("blk.{il}.attn_k.weight"));
                assert_eq!(plan.layers[il].loads[4].role, Role::Wv);
            }
            "blk.0.post_attention_norm.weight" | "blk.1.post_attention_norm.weight" => {
                let err = load_from_source(&cfg, &catalog(&some), options()).unwrap_err();
                assert!(err.ends_with("ffn_norm.weight"));
            }
            _ => {
                let err = load_from_source(&cfg, &catalog(&some), options()).unwrap_err();
                assert_eq!(err, name);
            }
        }
    }
}

#[test]
fn loads_linear_attention() {
    let mut cfg = config(1);
    cfg.kinds = vec![LayerKind::LinearAttention];
    cfg.ssm =
        Some(SsmConfig { state_size: 8, group_count: 1, time_step_rank: 2, conv_kernel: 4 });
    let mut names = dense_names(0);
    for s in [
        "attn_qkv.weight",
        "attn_gate.weight",
        "ssm_beta.weight",
        "ssm_alpha.weight",
        "ssm_a",
        "ssm_dt.bias",
        "ssm_conv1d.weight",
        "ssm_norm.weight",
        "ssm_out.weight",
    ] {
        names.push(format!("blk.0.{s}"));
    }
    let b = load_layer(&cfg, &catalog(&names), 0, options()).unwrap();
    let r = roles(&b.loads);
    assert_eq!(&r[..4], &[Role::AttnNorm, Role::PostAttnNorm, Role::Wqkv, Role::WqkvGate]);
    assert_eq!(r[10], Role::SsmOut);
    names.retain(|n| n != "blk.0.ssm_a");
    assert_eq!(load_layer(&cfg, &catalog(&names), 0, options()).unwrap_err(), "blk.0.ssm_a");
}

fn moe_config() -> ModelConfig {
    let mut cfg = config(2);
    cfg.moe = Some(MoeConfig { expert_count: 4, expert_ff_length: 32 });
    cfg
}

#[test]
fn loads_experts_as_they_lie() {
    let cfg = moe_config();
    let mut ws = Vec::new();
    let stacked = catalog(&[
        "blk.0.ffn_gate_exps.weight".to_string(),
        "blk.0.ffn_up_exps.weight".to_string(),
        "blk.0.ffn_down_exps.weight".to_string(),
    ]);
    assert!(load_ffn(&mut ws, &cfg, &stacked, 0, false));
    assert_eq!(ws[0].how, How::Stacked);
    assert_eq!((ws[3].role, ws[3].need), (Role::ExpProbsB, Need::Optional));
    assert_eq!((ws[4].role, ws[4].need), (Role::GateInp, Need::Required));
    ws.clear();
    assert!(load_ffn(&mut ws, &cfg, &stacked, 0, true));
    assert_eq!(ws[2].how, How::Tiered);
    ws.clear();
    assert!(load_ffn(&mut ws, &cfg, &stacked, 1, false));
    assert_eq!((ws[0].how, ws[0].need), (How::Gathered { n_expert: 4 }, Need::Elsewhere));
    ws.clear();
    let fused = catalog(&["blk.0.ffn_gate_up_exps.weight".to_string()]);
    assert!(load_ffn(&mut ws, &cfg, &fused, 0, false));
    assert_eq!(ws[0].how, How::Split { from: 0, to: 32 });
    assert_eq!(ws[1].how, How::Split { from: 32, to: 64 });
    assert_eq!(ws[0].name, ws[1].name);
    assert_eq!(ws[2].how, How::Gathered { n_expert: 4 });
}

#[test]
fn some_blocks_stay_dense() {
    let none = catalog(&[]);
    let mut cfg = moe_config();
    cfg.m3_moe_layer_freq = Some(vec![0, 1]);
    let mut ws = Vec::new();
    assert!(!load_ffn(&mut ws, &cfg, &none, 0, false));
    assert_eq!(roles(&ws), vec![Role::FfnGate, Role::FfnUp, Role::FfnDown]);
    ws.clear();
    assert!(load_ffn(&mut ws, &cfg, &none, 1, false));
    ws.clear();
    assert!(load_ffn(&mut ws, &cfg, &none, 2, false));
    cfg.m3_moe_layer_freq = None;
    cfg.hy3_first_k_dense = Some(1);
    assert!(!load_ffn(&mut ws, &cfg, &none, 0, false));
    assert!(load_ffn(&mut ws, &cfg, &none, 1, false));
    cfg.hy3_first_k_dense = None;
    cfg.gemma4 = Some(Gemma4Config {
        shared_kv_layers: 0,
        swa_pattern: Vec::new(),
        sliding_window: 512,
        n_embd_per_layer: 0,
    });
    assert!(!load_ffn(&mut ws, &cfg, &none, 0, false));
    let fused = catalog(&["blk.0.ffn_gate_up_exps.weight".to_string()]);
    assert!(load_ffn(&mut ws, &cfg, &fused, 0, false));
}

fn gemma_names(il: usize, own_kv: bool) -> Vec<String> {
    let mut names = dense_names(il);
    if !own_kv {
        names.retain(|n| !n.contains("attn_k") && !n.contains("attn_v"));
    }
    for s in [
        "ffn_norm.weight",
        "post_ffw_norm.weight",
        "layer_output_scale.weight",
        "inp_gate.weight",
        "proj.weight",
        "post_norm.weight",
    ] {
        names.push(format!("blk.{il}.{s}"));
    }
    names
}

#[test]
fn shared_layers_read_existing_caches() {
    let mut cfg = config(5);
    cfg.gemma4 = Some(Gemma4Config {
        shared_kv_layers: 2,
        swa_pattern: vec![true, true, false, true, false],
        sliding_window: 512,
        n_embd_per_layer: 16,
    });
    let mut names = head_names();
    for il in 0..5 {
        names.extend(gemma_names(il, il < 3));
    }
    names.push("rope_freqs.weight".to_string());
    let plan = load_from_source(&cfg, &catalog(&names), options()).unwrap();
    let shares: Vec<Option<usize>> = plan.layers.iter().map(|l| l.kv_share).collect();
    assert_eq!(shares, vec![None, None, None, Some(1), Some(2)]);
    assert_eq!(plan.layers[3].loads[3].name, "blk.1.attn_k.weight");
    assert_eq!(plan.layers[4].loads[4].name, "blk.2.attn_v.weight");
    let last = plan.layers[4].loads.last().unwrap();
    assert_eq!((last.role, last.how), (Role::LayerScale, How::Scalar));
    assert_eq!(roles(&plan.aux), vec![Role::RopeFreqs]);
    names.push("per_layer_token_embd.weight".to_string());
    assert_eq!(
        load_from_source(&cfg, &catalog(&names), options()).unwrap_err(),
        "per_layer_model_proj.weight"
    );
}

fn draft_names(il: usize) -> Vec<String> {
    let mut names = dense_names(il);
    for s in ["nextn.enorm.weight", "nextn.hnorm.weight", "nextn.eh_proj.weight"] {
        names.push(format!("blk.{il}.{s}"));
    }
    names
}

#[test]
fn draft_blocks_follow_the_trunk() {
    let mut cfg = config(2);
    cfg.nextn_predict_layers = 1;
    let mut names = head_names();
    names.extend(dense_names(0));
    let bare = load_from_source(&cfg, &catalog(&names), options()).unwrap();
    assert_eq!((bare.layers.len(), bare.draft_head), (1, DraftHead::Absent));
    names.extend(draft_names(1));
    names.push("blk.1.nextn.shared_head_norm.weight".to_string());
    let mut o = options();
    o.frspec_trim = true;
    let plan = load_from_source(&cfg, &catalog(&names), o).unwrap();
    assert_eq!(plan.draft_head, DraftHead::Embedded);
    assert!(plan.trim);
    let mtp = plan.mtp.unwrap();
    assert_eq!(&roles(&mtp.loads)[..3], &[Role::Enorm, Role::Hnorm, Role::EhProj]);
    assert_eq!(mtp.loads.last().unwrap().role, Role::SharedHeadNorm);
    o.full_prec = true;
    assert!(!load_from_source(&cfg, &catalog(&names), o).unwrap().trim);
    o.mtp_draft = true;
    assert_eq!(
        load_from_source(&cfg, &catalog(&names), o).unwrap().draft_head,
        DraftHead::External
    );
    names.retain(|n| n != "blk.1.nextn.hnorm.weight");
    assert_eq!(
        load_mtp(&cfg, &catalog(&names), options()).unwrap_err(),
        "blk.1.nextn.hnorm.weight"
    );
}

#[test]
fn draft_files_have_the_models_shape() {
    let main = config(4);
    let mut draft = config(1);
    let mut names = vec!["output.weight".to_string(), "output_norm.weight".to_string()];
    names.extend(draft_names(0));
    let cat = catalog(&names);
    assert!(matches!(load_draft(&draft, &main, &cat), Err(DraftError::NoDraft)));
    draft.nextn_predict_layers = 1;
    let plan = load_draft(&draft, &main, &cat).unwrap();
    assert_eq!((plan.block, plan.moe), (0, false));
    assert_eq!(plan.loads[1].name, "output_norm.weight");
    draft.head_dim_k = 8;
    assert!(matches!(load_draft(&draft, &main, &cat), Err(DraftError::HeadDim)));
    draft.n_head_kv = 1;
    assert!(matches!(load_draft(&draft, &main, &cat), Err(DraftError::NHeadKv)));
    draft.n_head = 1;
    assert!(matches!(load_draft(&draft, &main, &cat), Err(DraftError::NHead)));
    draft.n_embd = 1;
    assert!(matches!(load_draft(&draft, &main, &cat), Err(DraftError::NEmbd)));
    let mut draft = config(1);
    draft.nextn_predict_layers = 1;
    match load_draft(&draft, &main, &catalog(&[])) {
        Err(DraftError::Missing { name }) => assert_eq!(name, "output.weight"),
        other => panic!("nothing is there: {other:?}"),
    }
}

#[test]
fn mirrors_are_listed_by_role() {
    assert!(model_load::mirror_roles(false, true, true, true).is_empty());
    assert!(model_load::mirror_roles(true, false, true, true).is_empty());
    assert!(model_load::mirror_roles(true, true, false, true).is_empty());
    let branch = vec![Role::SharedGate, Role::SharedUp, Role::SharedDown];
    assert_eq!(model_load::mirror_roles(true, true, true, false), branch);
    let full = model_load::mirror_roles(true, true, true, true);
    assert_eq!(full[..4], [Role::Wq, Role::Wk, Role::Wv, Role::Wo]);
    assert_eq!(full[4..], branch[..]);
    assert_eq!(gemma_load::mirror_roles(true), vec![Role::PreProj, Role::PostProj]);
    assert_eq!(gemma_load::mirror_roles(false), vec![Role::PreProj, Role::PostProj, Role::Head]);
    assert_eq!(layer_mirror_roles()[0], Role::Wq);
}

#[test]
fn draft_models_need_all_their_tensors() {
    assert_eq!(load_eagle(&catalog(&[])).unwrap_err(), "d2t");
    assert_eq!(
        load_dflash(&catalog(&[]), 2).unwrap_err(),
        "layers.0.self_attn.q_proj.weight"
    );
    assert_eq!(load_dflash(&catalog(&[]), 0).unwrap_err(), "fc.weight");
    let all: Vec<String> = [
        "d2t",
        "fc.weight",
        "midlayer.input_layernorm.weight",
        "midlayer.hidden_norm.weight",
        "midlayer.self_attn.q_proj.weight",
        "midlayer.self_attn.k_proj.weight",
        "midlayer.self_attn.v_proj.weight",
        "midlayer.self_attn.o_proj.weight",
        "midlayer.post_attention_layernorm.weight",
        "midlayer.mlp.gate_proj.weight",
        "midlayer.mlp.up_proj.weight",
        "midlayer.mlp.down_proj.weight",
        "norm.weight",
        "lm_head.weight",
    ]
    .iter()
    .map(|s| s.to_string())
    .collect();
    let loads = load_eagle(&catalog(&all)).unwrap();
    assert_eq!(loads.len(), 14);
    assert_eq!((loads[0].role, loads[0].how), (Role::D2t, How::Raw));
}

fn assistant<'a>(pattern: &'a [u64]) -> DraftMeta<'a> {
    DraftMeta {
        arch: Some("gemma4_assistant"),
        block_count: Some(2),
        embedding_length: Some(256),
        embedding_length_out: None,
        n_embd_backbone: Some(2560),
        key_length: Some(512),
        key_length_swa: Some(256),
        sliding_window: Some(512),
        sliding_window_pattern: Some(pattern),
    }
}

fn assistant_names() -> Vec<String> {
    let mut names: Vec<String> = Vec::new();
    for il in 0..2 {
        for s in [
            "layer_output_scale.weight",
            "attn_q.weight",
            "attn_norm.weight",
            "attn_output.weight",
            "attn_q_norm.weight",
            "post_attention_norm.weight",
            "ffn_norm.weight",
            "ffn_gate.weight",
            "ffn_up.weight",
            "ffn_down.weight",
            "post_ffw_norm.weight",
        ] {
            names.push(format!("blk.{il}.{s}"));
        }
    }
    for s in [
        "rope_freqs.weight",
        "token_embd.weight",
        "mtp.pre_projection.weight",
        "mtp.post_projection.weight",
        "output_norm.weight",
    ] {
        names.push(s.to_string());
    }
    names
}

#[test]
fn loads_the_assistant_draft() {
    let names = assistant_names();
    let meta = assistant(&[1, 0]);
    let d = gemma_load::load(&meta, &catalog(&names), true).unwrap();
    assert_eq!((d.n_layer, d.n_embd, d.n_backbone, d.sliding_window), (2, 256, 2560, 512));
    assert_eq!(d.layers, vec![(true, 256), (false, 512)]);
    let head = d.loads.iter().find(|w| w.role == Role::Head).unwrap();
    assert_eq!((head.name.as_str(), head.how), ("token_embd.weight", How::Raw));
    let whole = gemma_load::load(&meta, &catalog(&names), false).unwrap();
    assert_eq!(whole.loads.iter().find(|w| w.role == Role::Head).unwrap().how, How::Device);
    let mut renamed = names.clone();
    renamed.push("nextn.pre_projection.weight".to_string());
    assert!(matches!(
        gemma_load::load(&meta, &catalog(&renamed), true),
        Err(GemmaLoadError::Missing { name }) if name == "nextn.post_projection.weight"
    ));
    assert_eq!(head_count(4096, 512), 8);
}

#[test]
fn refuses_other_drafts() {
    let names = assistant_names();
    let cat = catalog(&names);
    let mut meta = assistant(&[1, 0]);
    meta.arch = Some("gemma4");
    assert!(matches!(gemma_load::load(&meta, &cat, true), Err(GemmaLoadError::Arch)));
    let mut meta = assistant(&[1, 0]);
    meta.sliding_window_pattern = None;
    assert!(matches!(gemma_load::load(&meta, &cat, true), Err(GemmaLoadError::NoPattern)));
    let meta = assistant(&[1]);
    assert!(matches!(
        gemma_load::load(&meta, &cat, true),
        Err(GemmaLoadError::ShortPattern { layer: 1 })
    ));
}

#[test]
fn tables_and_heads_have_readable_formats() {
    assert_eq!(per_layer_table(GgmlType::Q6_K, 2100, 10), Some((QT_Q6_K, 210)));
    assert_eq!(per_layer_table(GgmlType::Q8_0, 345, 10), Some((QT_Q8_0, 34)));
    assert_eq!(per_layer_table(GgmlType::Q4_0, 180, 10), None);
    assert_eq!(head_rows(GgmlType::Q4_0, 1024), Some((QT_Q4_0, 576)));
    assert_eq!(head_rows(GgmlType::Q8_0, 1024), Some((QT_Q8_0, 1088)));
    assert_eq!(head_rows(GgmlType::Q6_K, 1024), Some((QT_Q6_K, 840)));
    assert_eq!(head_rows(GgmlType::Q4_K, 1024), None);
}

#[test]
fn ranks_stay_inside_the_vocabulary() {
    let text = chars_of("7\n x\n 12 \n3\n12\n-1\n\n11");
    assert_eq!(ranked_ids(&text, 12), vec![7, 3, 11]);
    assert_eq!(ranked_ids(&text, 13), vec![7, 12, 3, 12, 11]);
    assert_eq!(ranked_ids(&chars_of(""), 13), Vec::<u32>::new());
}
