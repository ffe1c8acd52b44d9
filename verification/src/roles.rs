//! Which tensor fills which place.
//!
//! One table names the tensor of every role. What a model loads is held against it: each place is
//! filled by the tensor of its own name, but for a few that a checkpoint may leave out, and no place
//! of a block is filled twice.

use vstd::prelude::*;
use vstd::string::*;

use crate::config::{LayerKind, ModelConfig};
use crate::draft_head;
use crate::draft_load;
use crate::gemma_load;
use crate::loader;
use crate::loader::{blk_name, Catalog, How, Need, Role, WantView};
use crate::model_load;
use crate::model_load::{BlockPlan, LoadOptions, ModelPlan};

verus! {

/// The tensor of a role in a block, after the block's prefix.
pub open spec fn block_tensor(role: Role) -> Option<Seq<char>> {
    match role {
        Role::AttnNorm => Some("attn_norm.weight"@),
        Role::PostAttnNorm => Some("post_attention_norm.weight"@),
        Role::Wq => Some("attn_q.weight"@),
        Role::Wk => Some("attn_k.weight"@),
        Role::Wv => Some("attn_v.weight"@),
        Role::Wo => Some("attn_output.weight"@),
        Role::QNorm => Some("attn_q_norm.weight"@),
        Role::KNorm => Some("attn_k_norm.weight"@),
        Role::Wqkv => Some("attn_qkv.weight"@),
        Role::WqkvGate => Some("attn_gate.weight"@),
        Role::SsmBeta => Some("ssm_beta.weight"@),
        Role::SsmAlpha => Some("ssm_alpha.weight"@),
        Role::SsmA => Some("ssm_a"@),
        Role::SsmDt => Some("ssm_dt.bias"@),
        Role::SsmConv1d => Some("ssm_conv1d.weight"@),
        Role::SsmNorm => Some("ssm_norm.weight"@),
        Role::SsmOut => Some("ssm_out.weight"@),
        Role::FfnGate => Some("ffn_gate.weight"@),
        Role::FfnUp => Some("ffn_up.weight"@),
        Role::FfnDown => Some("ffn_down.weight"@),
        Role::GateExps => Some("ffn_gate_exps.weight"@),
        Role::UpExps => Some("ffn_up_exps.weight"@),
        Role::DownExps => Some("ffn_down_exps.weight"@),
        Role::ExpProbsB => Some("exp_probs_b.bias"@),
        Role::GateInp => Some("ffn_gate_inp.weight"@),
        Role::GateInpShexp => Some("ffn_gate_inp_shexp.weight"@),
        Role::GateShexp => Some("ffn_gate_shexp.weight"@),
        Role::UpShexp => Some("ffn_up_shexp.weight"@),
        Role::DownShexp => Some("ffn_down_shexp.weight"@),
        Role::FfnNorm => Some("ffn_norm.weight"@),
        Role::PostFfwNorm => Some("post_ffw_norm.weight"@),
        Role::PostFfwNorm1 => Some("post_ffw_norm_1.weight"@),
        Role::PreFfwNorm2 => Some("pre_ffw_norm_2.weight"@),
        Role::PostFfwNorm2 => Some("post_ffw_norm_2.weight"@),
        Role::SharedGate => Some("ffn_gate.weight"@),
        Role::SharedUp => Some("ffn_up.weight"@),
        Role::SharedDown => Some("ffn_down.weight"@),
        Role::RouterScale => Some("ffn_gate_inp.scale"@),
        Role::PerExpertScale => Some("ffn_down_exps.scale"@),
        Role::LayerScale => Some("layer_output_scale.weight"@),
        Role::InpGate => Some("inp_gate.weight"@),
        Role::Proj => Some("proj.weight"@),
        Role::PostNorm => Some("post_norm.weight"@),
        Role::Enorm => Some("nextn.enorm.weight"@),
        Role::Hnorm => Some("nextn.hnorm.weight"@),
        Role::EhProj => Some("nextn.eh_proj.weight"@),
        Role::SharedHeadNorm => Some("nextn.shared_head_norm.weight"@),
        Role::SharedHead => Some("nextn.shared_head.weight"@),
        _ => None,
    }
}

/// The tensor of a role of the whole model.
pub open spec fn model_tensor(role: Role) -> Option<Seq<char>> {
    match role {
        Role::TokenEmbd => Some("token_embd.weight"@),
        Role::OutputNorm => Some("output_norm.weight"@),
        Role::Output => Some("output.weight"@),
        Role::RopeFreqs => Some("rope_freqs.weight"@),
        Role::PerLayerTokenEmbd => Some("per_layer_token_embd.weight"@),
        Role::PerLayerModelProj => Some("per_layer_model_proj.weight"@),
        Role::PerLayerProjNorm => Some("per_layer_proj_norm.weight"@),
        Role::Head => Some("token_embd.weight"@),
        _ => None,
    }
}

/// The tensor of a role in a layer of a drafter from a training checkpoint.
pub open spec fn layer_tensor(role: Role) -> Option<Seq<char>> {
    match role {
        Role::Wq => Some("self_attn.q_proj.weight"@),
        Role::Wk => Some("self_attn.k_proj.weight"@),
        Role::Wv => Some("self_attn.v_proj.weight"@),
        Role::Wo => Some("self_attn.o_proj.weight"@),
        Role::FfnGate => Some("mlp.gate_proj.weight"@),
        Role::FfnUp => Some("mlp.up_proj.weight"@),
        Role::FfnDown => Some("mlp.down_proj.weight"@),
        Role::AttnNorm => Some("input_layernorm.weight"@),
        Role::PostAttnNorm => Some("post_attention_layernorm.weight"@),
        Role::QNorm => Some("self_attn.q_norm.weight"@),
        Role::KNorm => Some("self_attn.k_norm.weight"@),
        _ => None,
    }
}

/// The form in which a tensor of a role is brought in, where it is one tensor.
pub open spec fn form_of(role: Role) -> How {
    match role {
        Role::TokenEmbd | Role::PerLayerTokenEmbd => How::Raw,
        Role::ExpProbsB | Role::RouterScale | Role::PerExpertScale | Role::RopeFreqs => How::Floats,
        Role::LayerScale => How::Scalar,
        _ => How::Device,
    }
}

/// A model works without a tensor of this role.
pub open spec fn dispensable(role: Role) -> bool {
    match role {
        Role::ExpProbsB
        | Role::GateInpShexp
        | Role::GateShexp
        | Role::UpShexp
        | Role::DownShexp
        | Role::SharedHeadNorm
        | Role::SharedHead => true,
        _ => false,
    }
}

/// Stacks of experts.
pub open spec fn is_stack(role: Role) -> bool {
    role == Role::GateExps || role == Role::UpExps || role == Role::DownExps
}

/// The tensor of role `role` of block `il` is under its own name.
pub open spec fn own(il: nat, w: WantView) -> bool {
    block_tensor(w.role) matches Some(t) && w.name == blk_name(il, t)
}

/// A stack of experts: all of it under its own name, or its own rows of a tensor that holds gate
/// rows first and up rows behind them.
pub open spec fn stack_filled(cfg: ModelConfig, cat: Catalog, il: nat, w: WantView) -> bool {
    let ff = cfg.moe->Some_0.expert_ff_length;
    match w.how {
        How::Stacked => own(il, w) && w.need == Need::Required && cat.lists(w.name),
        How::Tiered => own(il, w) && w.need == Need::Required,
        How::Gathered { n_expert } => own(il, w) && w.need == Need::Elsewhere && !cat.lists(w.name)
            && n_expert == cfg.moe->Some_0.expert_count,
        How::Split { from, to } => {
            &&& w.name == blk_name(il, "ffn_gate_up_exps.weight"@)
            &&& w.need == Need::Required
            &&& !cat.lists(blk_name(il, "ffn_gate_exps.weight"@))
            &&& w.role == Role::GateExps ==> from == 0 && to == ff
            &&& w.role == Role::UpExps ==> from == ff && to == 2 * ff
            &&& w.role != Role::DownExps
        },
        _ => false,
    }
}

/// A place of block `il` that is filled by its own tensor, or by the one that stands in for it: the
/// keys where a block has no values, the feed-forward norm where it has no other.
pub open spec fn filled(cfg: ModelConfig, cat: Catalog, il: nat, w: WantView) -> bool {
    if is_stack(w.role) {
        stack_filled(cfg, cat, il, w)
    } else {
        &&& w.how == form_of(w.role)
        &&& w.need == (if dispensable(w.role) {
            Need::Optional
        } else {
            Need::Required
        })
        &&& {
            ||| own(il, w)
            ||| w.role == Role::Wv && w.name == blk_name(il, "attn_k.weight"@) && !cat.lists(
                blk_name(il, "attn_v.weight"@),
            )
            ||| w.role == Role::PostAttnNorm && w.name == blk_name(il, "ffn_norm.weight"@)
                && !cat.lists(blk_name(il, "post_attention_norm.weight"@))
        }
    }
}

/// Keys, values and key norm of a layer that reads the cache of layer `t` are those of `t`.
pub open spec fn borrowed(cfg: ModelConfig, cat: Catalog, il: nat, w: WantView) -> bool {
    &&& model_load::share_target(cfg, il as int) matches Some(t)
    &&& !cat.lists(blk_name(il, "attn_k.weight"@))
    &&& w.role == Role::Wk || w.role == Role::Wv || w.role == Role::KNorm
    &&& own(t as nat, w)
    &&& w.how == How::Device
    &&& w.need == Need::Required
}

/// Every want of a list is as `f` says.
pub open spec fn all(ws: Seq<WantView>, f: spec_fn(WantView) -> bool) -> bool {
    forall|i: int| 0 <= i < ws.len() ==> f(#[trigger] ws[i])
}

proof fn lemma_all_concat(a: Seq<WantView>, b: Seq<WantView>, f: spec_fn(WantView) -> bool)
    requires
        all(a, f),
        all(b, f),
    ensures
        all(a + b, f),
{
    assert forall|i: int| 0 <= i < (a + b).len() implies f(#[trigger] (a + b)[i]) by {
        if i < a.len() {
            assert((a + b)[i] == a[i]);
        } else {
            assert((a + b)[i] == b[i - a.len()]);
        }
    }
}

proof fn lemma_all_kept(ws: Seq<WantView>, cat: Catalog, f: spec_fn(WantView) -> bool)
    requires
        all(ws, f),
    ensures
        all(loader::kept(ws, cat), f),
{
    let k = loader::kept(ws, cat);
    assert forall|i: int| 0 <= i < k.len() implies f(#[trigger] k[i]) by {
        loader::lemma_filter_contains(ws, |w: WantView| loader::loaded(w, cat), k[i]);
        let j = choose|j: int| 0 <= j < ws.len() && ws[j] == k[i];
        assert(f(ws[j]));
    }
}

proof fn lemma_mixer_filled(cfg: ModelConfig, cat: Catalog, il: nat, kind: LayerKind)
    ensures
        all(loader::mixer_wants(cat, il, kind), |w: WantView| filled(cfg, cat, il, w)),
{
    let ws = loader::mixer_wants(cat, il, kind);
    assert forall|i: int| 0 <= i < ws.len() implies filled(cfg, cat, il, #[trigger] ws[i]) by {
        match kind {
            LayerKind::FullAttention => {
                assert(i == 0 || i == 1 || i == 2 || i == 3 || i == 4 || i == 5);
            },
            LayerKind::LinearAttention => {
                assert(i == 0 || i == 1 || i == 2 || i == 3 || i == 4 || i == 5 || i == 6 || i == 7 || i == 8);
            },
        }
    }
}

proof fn lemma_ffn_filled(cfg: ModelConfig, cat: Catalog, il: nat, tiered: bool)
    requires
        cfg.moe matches Some(m) ==> 2 * m.expert_ff_length <= usize::MAX,
    ensures
        all(loader::ffn_wants(cfg, cat, il, tiered), |w: WantView| filled(cfg, cat, il, w)),
{
    let f = |w: WantView| filled(cfg, cat, il, w);
    if loader::routes(cfg, cat, il) {
        let a = loader::expert_wants(cfg, cat, il, tiered);
        assert forall|i: int| 0 <= i < a.len() implies f(#[trigger] a[i]) by {
            assert(i == 0 || i == 1 || i == 2);
        }
        let b = loader::ffn_wants(cfg, cat, il, tiered).skip(3);
        assert forall|i: int| 0 <= i < b.len() implies f(#[trigger] b[i]) by {
            assert(i == 0 || i == 1 || i == 2 || i == 3 || i == 4 || i == 5);
        }
        assert(loader::ffn_wants(cfg, cat, il, tiered) =~= a + b);
        lemma_all_concat(a, b, f);
    } else {
        let ws = loader::ffn_wants(cfg, cat, il, tiered);
        assert forall|i: int| 0 <= i < ws.len() implies f(#[trigger] ws[i]) by {
            assert(i == 0 || i == 1 || i == 2);
        }
    }
}

/// Where a layer of the trunk takes a tensor from: its own block, or the layer whose cache it reads.
pub open spec fn placed(cfg: ModelConfig, cat: Catalog, il: nat, w: WantView) -> bool {
    filled(cfg, cat, il, w) || borrowed(cfg, cat, il, w)
}

proof fn lemma_layer_placed(cfg: ModelConfig, cat: Catalog, il: nat, o: LoadOptions)
    requires
        model_load::loadable(cfg, cat),
        il < cfg.trunk(),
    ensures
        all(model_load::layer_wants(cfg, cat, il, o), |w: WantView| placed(cfg, cat, il, w)),
{
    let f = |w: WantView| placed(cfg, cat, il, w);
    let norms = seq![
        loader::req(il, "attn_norm.weight"@, Role::AttnNorm),
        model_load::pre_ffn_norm(cat, il),
    ];
    assert forall|i: int| 0 <= i < norms.len() implies f(#[trigger] norms[i]) by {
        assert(i == 0 || i == 1);
    }
    let mixer = model_load::trunk_mixer(cfg, cat, il);
    lemma_mixer_filled(cfg, cat, il, cfg.kind_of(il as int));
    assert forall|i: int| 0 <= i < mixer.len() implies f(#[trigger] mixer[i]) by {
        match model_load::share_target(cfg, il as int) {
            Some(t) => {
                if !cat.lists(blk_name(il, "attn_k.weight"@)) {
                    assert(model_load::reads_shared(cfg, cat, il as int));
                    assert(i == 0 || i == 1 || i == 2 || i == 3 || i == 4 || i == 5);
                } else {
                    assert(filled(cfg, cat, il, mixer[i]));
                }
            },
            None => {
                assert(filled(cfg, cat, il, mixer[i]));
            },
        }
    }
    let ffn = loader::ffn_wants(cfg, cat, il, model_load::tiered(cfg, o));
    lemma_ffn_filled(cfg, cat, il, model_load::tiered(cfg, o));
    assert forall|i: int| 0 <= i < ffn.len() implies f(#[trigger] ffn[i]) by {
        assert(filled(cfg, cat, il, ffn[i]));
    }
    let extra = model_load::gemma_wants(cfg, cat, il);
    if cfg.gemma4 is Some {
        let branch = if model_load::has_branch(cat, il) {
            extra.take(8)
        } else {
            Seq::empty()
        };
        let rest = extra.skip(branch.len() as int);
        assert forall|i: int| 0 <= i < branch.len() implies f(#[trigger] branch[i]) by {
            assert(i == 0 || i == 1 || i == 2 || i == 3 || i == 4 || i == 5 || i == 6 || i == 7);
        }
        assert forall|i: int| 0 <= i < rest.len() implies f(#[trigger] rest[i]) by {
            assert(i == 0 || i == 1 || i == 2 || i == 3 || i == 4 || i == 5);
        }
        assert(extra =~= branch + rest);
        lemma_all_concat(branch, rest, f);
    }
    lemma_all_concat(norms, mixer, f);
    lemma_all_concat(norms + mixer, ffn, f);
    lemma_all_concat(norms + mixer + ffn, extra, f);
}

/// Every place of a trunk layer is filled by the tensor of its own name: `FfnGate` by `ffn_gate`,
/// `FfnUp` by `ffn_up`, and so on for every role of the table. The exceptions
/// are the stand-ins of `filled`, and keys and values of a layer that reads another layer's cache.
pub proof fn law_layer_tensors(
    b: BlockPlan,
    cfg: ModelConfig,
    cat: Catalog,
    il: int,
    o: LoadOptions,
    i: int,
)
    requires
        model_load::loadable(cfg, cat),
        0 <= il < cfg.trunk(),
        model_load::layer_complete(b, cfg, cat, il, o),
        0 <= i < b.loads@.len(),
    ensures
        placed(cfg, cat, il as nat, b.loads@[i]@),
{
    let f = |w: WantView| placed(cfg, cat, il as nat, w);
    lemma_layer_placed(cfg, cat, il as nat, o);
    lemma_all_kept(model_load::layer_wants(cfg, cat, il as nat, o), cat, f);
    assert(f(loader::views(b.loads@)[i]));
}

proof fn lemma_draft_filled(cfg: ModelConfig, cat: Catalog, il: nat, tiered: bool)
    requires
        cfg.moe matches Some(m) ==> 2 * m.expert_ff_length <= usize::MAX,
    ensures
        all(model_load::draft_wants(cfg, cat, il, tiered), |w: WantView| filled(cfg, cat, il, w)),
{
    let f = |w: WantView| filled(cfg, cat, il, w);
    let head = seq![
        loader::req(il, "nextn.enorm.weight"@, Role::Enorm),
        loader::req(il, "nextn.hnorm.weight"@, Role::Hnorm),
        loader::req(il, "nextn.eh_proj.weight"@, Role::EhProj),
        loader::req(il, "attn_norm.weight"@, Role::AttnNorm),
        model_load::pre_ffn_norm(cat, il),
    ];
    assert forall|i: int| 0 <= i < head.len() implies f(#[trigger] head[i]) by {
        assert(i == 0 || i == 1 || i == 2 || i == 3 || i == 4);
    }
    let mixer = loader::mixer_wants(cat, il, LayerKind::FullAttention);
    lemma_mixer_filled(cfg, cat, il, LayerKind::FullAttention);
    lemma_ffn_filled(cfg, cat, il, tiered);
    lemma_all_concat(head, mixer, f);
    lemma_all_concat(head + mixer, loader::ffn_wants(cfg, cat, il, tiered), f);
}

/// The same of the draft block: every place is filled by the tensor of its own name.
pub proof fn law_draft_block_tensors(
    plan: ModelPlan,
    cfg: ModelConfig,
    cat: Catalog,
    o: LoadOptions,
    i: int,
)
    requires
        model_load::loadable(cfg, cat),
        model_load::complete(plan, cfg, cat, o),
        plan.mtp is Some,
        0 <= i < plan.mtp->0.loads@.len(),
    ensures
        filled(cfg, cat, cfg.trunk() as nat, plan.mtp->0.loads@[i]@),
{
    let il = cfg.trunk() as nat;
    let f = |w: WantView| filled(cfg, cat, il, w);
    let block = model_load::draft_wants(cfg, cat, il, model_load::tiered(cfg, o));
    lemma_draft_filled(cfg, cat, il, model_load::tiered(cfg, o));
    let tail = seq![
        loader::opt(il, "nextn.shared_head_norm.weight"@, Role::SharedHeadNorm),
        loader::opt(il, "nextn.shared_head.weight"@, Role::SharedHead),
    ];
    assert forall|i: int| 0 <= i < tail.len() implies f(#[trigger] tail[i]) by {
        assert(i == 0 || i == 1);
    }
    lemma_all_concat(block, tail, f);
    lemma_all_kept(model_load::mtp_wants(cfg, cat, o), cat, f);
    assert(f(loader::views(plan.mtp->0.loads@)[i]));
}

/// A place of the whole model that is filled by its own tensor; the head by the embedding where a
/// model has no head of its own.
pub open spec fn model_filled(cat: Catalog, w: WantView) -> bool {
    &&& w.how == form_of(w.role)
    &&& w.need == (if w.role == Role::RopeFreqs {
        Need::Optional
    } else {
        Need::Required
    })
    &&& model_tensor(w.role) is Some
    &&& {
        ||| w.name == model_tensor(w.role)->0
        ||| w.role == Role::Output && w.name == "token_embd.weight"@ && !cat.lists(
            "output.weight"@,
        )
    }
}

/// Embedding, output norm, head and extras of a model are the tensors of their own names.
pub proof fn law_model_tensors(plan: ModelPlan, cfg: ModelConfig, cat: Catalog, o: LoadOptions)
    requires
        model_load::complete(plan, cfg, cat, o),
    ensures
        forall|i: int|
            0 <= i < plan.head@.len() ==> model_filled(cat, (#[trigger] plan.head@[i])@),
        forall|i: int|
            0 <= i < plan.aux@.len() ==> model_filled(cat, (#[trigger] plan.aux@[i])@),
{
    let f = |w: WantView| model_filled(cat, w);
    let head = model_load::head_wants(cat);
    assert forall|i: int| 0 <= i < head.len() implies f(#[trigger] head[i]) by {
        assert(i == 0 || i == 1 || i == 2);
    }
    let aux = model_load::aux_wants(cfg, cat);
    assert forall|i: int| 0 <= i < aux.len() implies f(#[trigger] aux[i]) by {
        assert(i == 0 || i == 1 || i == 2 || i == 3);
    }
    lemma_all_kept(head, cat, f);
    lemma_all_kept(aux, cat, f);
    assert forall|i: int| 0 <= i < plan.head@.len() implies model_filled(
        cat,
        (#[trigger] plan.head@[i])@,
    ) by {
        assert(f(loader::views(plan.head@)[i]));
    }
    assert forall|i: int| 0 <= i < plan.aux@.len() implies model_filled(
        cat,
        (#[trigger] plan.aux@[i])@,
    ) by {
        assert(f(loader::views(plan.aux@)[i]));
    }
}

/// The tensor of a role is wanted.
pub open spec fn wanted(ws: Seq<WantView>, role: Role) -> bool {
    exists|i: int| 0 <= i < ws.len() && (#[trigger] ws[i]).role == role
}

/// The roles that a token mixer needs.
pub open spec fn mixer_needs(kind: LayerKind, role: Role) -> bool {
    match kind {
        LayerKind::FullAttention => role == Role::Wq || role == Role::Wk || role == Role::Wv || role
            == Role::Wo || role == Role::QNorm || role == Role::KNorm,
        LayerKind::LinearAttention => role == Role::Wqkv || role == Role::WqkvGate || role
            == Role::SsmBeta || role == Role::SsmAlpha || role == Role::SsmA || role == Role::SsmDt
            || role == Role::SsmConv1d || role == Role::SsmNorm || role == Role::SsmOut,
    }
}

/// The roles that a feed-forward block has a place for.
pub open spec fn ffn_needs(routed: bool, role: Role) -> bool {
    if routed {
        is_stack(role) || role == Role::GateInp || role == Role::ExpProbsB || role
            == Role::GateInpShexp || role == Role::GateShexp || role == Role::UpShexp || role
            == Role::DownShexp
    } else {
        role == Role::FfnGate || role == Role::FfnUp || role == Role::FfnDown
    }
}

/// No place of a token mixer is left empty or filled twice, and none that it does not need is
/// filled.
pub proof fn law_mixer_places(cat: Catalog, il: nat, kind: LayerKind)
    ensures
        forall|role: Role|
            mixer_needs(kind, role) <==> #[trigger] wanted(loader::mixer_wants(cat, il, kind), role),
        forall|i: int, j: int|
            0 <= i < j < loader::mixer_wants(cat, il, kind).len() ==> (
            #[trigger] loader::mixer_wants(cat, il, kind)[i]).role != (
            #[trigger] loader::mixer_wants(cat, il, kind)[j]).role,
{
    let ws = loader::mixer_wants(cat, il, kind);
    assert forall|role: Role| mixer_needs(kind, role) == #[trigger] wanted(ws, role) by {
        match kind {
            LayerKind::FullAttention => {
                assert(ws[0].role == Role::Wq && ws[1].role == Role::Wk && ws[2].role == Role::Wv
                    && ws[3].role == Role::Wo && ws[4].role == Role::QNorm && ws[5].role
                    == Role::KNorm);
            },
            LayerKind::LinearAttention => {
                assert(ws[0].role == Role::Wqkv && ws[1].role == Role::WqkvGate && ws[2].role
                    == Role::SsmBeta && ws[3].role == Role::SsmAlpha && ws[4].role == Role::SsmA
                    && ws[5].role == Role::SsmDt && ws[6].role == Role::SsmConv1d && ws[7].role
                    == Role::SsmNorm && ws[8].role == Role::SsmOut);
            },
        }
        if wanted(ws, role) {
            let i = choose|i: int| 0 <= i < ws.len() && (#[trigger] ws[i]).role == role;
            match kind {
                LayerKind::FullAttention => {
                    assert(i == 0 || i == 1 || i == 2 || i == 3 || i == 4 || i == 5);
                },
                LayerKind::LinearAttention => {
                    assert(i == 0 || i == 1 || i == 2 || i == 3 || i == 4 || i == 5 || i == 6 || i == 7 || i == 8);
                },
            }
        }
    }
    assert forall|i: int, j: int| 0 <= i < j < ws.len() implies (#[trigger] ws[i]).role != (
    #[trigger] ws[j]).role by {
        match kind {
            LayerKind::FullAttention => {
                assert(i == 0 || i == 1 || i == 2 || i == 3 || i == 4 || i == 5);
                assert(j == 0 || j == 1 || j == 2 || j == 3 || j == 4 || j == 5);
            },
            LayerKind::LinearAttention => {
                assert(i == 0 || i == 1 || i == 2 || i == 3 || i == 4 || i == 5 || i == 6 || i == 7 || i == 8);
                assert(j == 0 || j == 1 || j == 2 || j == 3 || j == 4 || j == 5 || j == 6 || j == 7 || j == 8);
            },
        }
    }
}

/// No place of a feed-forward block is left empty.
pub proof fn law_ffn_places(cfg: ModelConfig, cat: Catalog, il: nat, tiered: bool, role: Role)
    requires
        ffn_needs(loader::routes(cfg, cat, il), role),
    ensures
        wanted(loader::ffn_wants(cfg, cat, il, tiered), role),
{
    let ws = loader::ffn_wants(cfg, cat, il, tiered);
    if loader::routes(cfg, cat, il) {
        let a = loader::expert_wants(cfg, cat, il, tiered);
        assert(ws[0] == a[0] && ws[1] == a[1] && ws[2] == a[2]);
        assert(ws[0].role == Role::GateExps && ws[1].role == Role::UpExps && ws[2].role
            == Role::DownExps && ws[3].role == Role::ExpProbsB && ws[4].role == Role::GateInp
            && ws[5].role == Role::GateInpShexp && ws[6].role == Role::GateShexp && ws[7].role
            == Role::UpShexp && ws[8].role == Role::DownShexp);
    } else {
        assert(ws[0].role == Role::FfnGate && ws[1].role == Role::FfnUp && ws[2].role
            == Role::FfnDown);
    }
}

/// A place of a drafter of whole blocks that is filled by the tensor of its own name.
pub open spec fn drafter_filled(i: nat, w: WantView) -> bool {
    let norm = w.role == Role::AttnNorm || w.role == Role::PostAttnNorm || w.role == Role::QNorm
        || w.role == Role::KNorm;
    &&& layer_tensor(w.role) matches Some(t) && w.name == draft_load::layer_name(i, t)
    &&& w.how == (if norm {
        How::Floats
    } else {
        How::Device
    })
    &&& w.need == Need::Required
}

/// A layer of a drafter of whole blocks fills every place with the tensor of its own name: all
/// projections and norms of attention and of the feed-forward block, each once.
pub proof fn law_block_drafter_tensors(i: nat)
    ensures
        all(draft_load::dflash_layer_wants(i), |w: WantView| drafter_filled(i, w)),
        forall|role: Role|
            layer_tensor(role) is Some <==> #[trigger] wanted(
                draft_load::dflash_layer_wants(i),
                role,
            ),
{
    let ws = draft_load::dflash_layer_wants(i);
    let f = |w: WantView| drafter_filled(i, w);
    assert forall|k: int| 0 <= k < ws.len() implies f(#[trigger] ws[k]) by {
        assert(k == 0 || k == 1 || k == 2 || k == 3 || k == 4 || k == 5 || k == 6 || k == 7 || k == 8 || k == 9 || k == 10);
    }
    assert forall|role: Role| layer_tensor(role) is Some == #[trigger] wanted(ws, role) by {
        assert(ws[0].role == Role::Wq && ws[1].role == Role::Wk && ws[2].role == Role::Wv
            && ws[3].role == Role::Wo && ws[4].role == Role::FfnGate && ws[5].role == Role::FfnUp
            && ws[6].role == Role::FfnDown && ws[7].role == Role::AttnNorm && ws[8].role
            == Role::PostAttnNorm && ws[9].role == Role::QNorm && ws[10].role == Role::KNorm);
        if wanted(ws, role) {
            let k = choose|k: int| 0 <= k < ws.len() && (#[trigger] ws[k]).role == role;
            assert(f(ws[k]));
        }
    }
}

/// The tensor of a role of the drafter over hidden states.
pub open spec fn hidden_drafter_tensor(role: Role) -> Option<Seq<char>> {
    match role {
        Role::D2t => Some("d2t"@),
        Role::Fc => Some("fc.weight"@),
        Role::OutputNorm => Some("norm.weight"@),
        Role::Output => Some("lm_head.weight"@),
        Role::AttnNorm => Some("midlayer.input_layernorm.weight"@),
        Role::HiddenNorm => Some("midlayer.hidden_norm.weight"@),
        Role::PostAttnNorm => Some("midlayer.post_attention_layernorm.weight"@),
        Role::Wq => Some("midlayer.self_attn.q_proj.weight"@),
        Role::Wk => Some("midlayer.self_attn.k_proj.weight"@),
        Role::Wv => Some("midlayer.self_attn.v_proj.weight"@),
        Role::Wo => Some("midlayer.self_attn.o_proj.weight"@),
        Role::FfnGate => Some("midlayer.mlp.gate_proj.weight"@),
        Role::FfnUp => Some("midlayer.mlp.up_proj.weight"@),
        Role::FfnDown => Some("midlayer.mlp.down_proj.weight"@),
        _ => None,
    }
}

/// The drafter over hidden states fills every place with the tensor of its own name, each place
/// once.
pub proof fn law_hidden_drafter_tensors()
    ensures
        forall|i: int|
            0 <= i < draft_load::eagle_wants().len() ==> {
                let w = #[trigger] draft_load::eagle_wants()[i];
                &&& hidden_drafter_tensor(w.role) == Some(w.name)
                &&& w.need == Need::Required
                &&& w.how == (if w.role == Role::D2t {
                    How::Raw
                } else {
                    How::Device
                })
            },
        forall|role: Role|
            hidden_drafter_tensor(role) is Some <==> #[trigger] wanted(
                draft_load::eagle_wants(),
                role,
            ),
{
    let ws = draft_load::eagle_wants();
    assert forall|i: int| 0 <= i < ws.len() implies {
        let w = #[trigger] ws[i];
        &&& hidden_drafter_tensor(w.role) == Some(w.name)
        &&& w.need == Need::Required
        &&& w.how == (if w.role == Role::D2t {
            How::Raw
        } else {
            How::Device
        })
    } by {
        assert(i == 0 || i == 1 || i == 2 || i == 3 || i == 4 || i == 5 || i == 6 || i == 7 || i == 8 || i == 9 || i == 10 || i == 11 || i == 12 || i == 13);
    }
    assert forall|role: Role| hidden_drafter_tensor(role) is Some == #[trigger] wanted(ws, role) by {
        assert(ws[0].role == Role::D2t && ws[1].role == Role::Fc && ws[2].role == Role::AttnNorm
            && ws[3].role == Role::HiddenNorm && ws[4].role == Role::Wq && ws[5].role == Role::Wk
            && ws[6].role == Role::Wv && ws[7].role == Role::Wo && ws[8].role
            == Role::PostAttnNorm && ws[9].role == Role::FfnGate && ws[10].role == Role::FfnUp
            && ws[11].role == Role::FfnDown && ws[12].role == Role::OutputNorm && ws[13].role
            == Role::Output);
        if wanted(ws, role) {
            let i = choose|i: int| 0 <= i < ws.len() && (#[trigger] ws[i]).role == role;
            assert(hidden_drafter_tensor(ws[i].role) == Some(ws[i].name));
        }
    }
}

/// A layer of the assistant drafter fills every place with the tensor of its own name.
pub proof fn law_assistant_layer_tensors(il: nat)
    ensures
        forall|i: int|
            0 <= i < gemma_load::layer_wants(il).len() ==> {
                let w = #[trigger] gemma_load::layer_wants(il)[i];
                own(il, w) && w.need == Need::Required && w.how == form_of(w.role)
            },
        forall|i: int, j: int|
            0 <= i < j < gemma_load::layer_wants(il).len() ==> (
            #[trigger] gemma_load::layer_wants(il)[i]).role != (
            #[trigger] gemma_load::layer_wants(il)[j]).role,
        gemma_load::layer_wants(il).len() == 11,
{
    let ws = gemma_load::layer_wants(il);
    assert forall|i: int| 0 <= i < ws.len() implies {
        let w = #[trigger] ws[i];
        own(il, w) && w.need == Need::Required && w.how == form_of(w.role)
    } by {
        assert(i == 0 || i == 1 || i == 2 || i == 3 || i == 4 || i == 5 || i == 6 || i == 7 || i == 8 || i == 9 || i == 10);
    }
    assert forall|i: int, j: int| 0 <= i < j < ws.len() implies (#[trigger] ws[i]).role != (
    #[trigger] ws[j]).role by {
        assert(i == 0 || i == 1 || i == 2 || i == 3 || i == 4 || i == 5 || i == 6 || i == 7 || i == 8 || i == 9 || i == 10);
        assert(j == 0 || j == 1 || j == 2 || j == 3 || j == 4 || j == 5 || j == 6 || j == 7 || j == 8 || j == 9 || j == 10);
    }
}

/// Either spelling of the projections of the assistant drafter.
pub open spec fn projection_name(cat: Catalog, role: Role) -> Seq<char> {
    let nextn = cat.lists("nextn.pre_projection.weight"@);
    if role == Role::PreProj {
        if nextn {
            "nextn.pre_projection.weight"@
        } else {
            "mtp.pre_projection.weight"@
        }
    } else {
        if nextn {
            "nextn.post_projection.weight"@
        } else {
            "mtp.post_projection.weight"@
        }
    }
}

/// What follows the layers of the assistant drafter is filled by the tensors of their own names,
/// the projections both under the same spelling.
pub proof fn law_assistant_tail_tensors(cat: Catalog, trimmed: bool)
    ensures
        forall|i: int|
            0 <= i < gemma_load::tail_wants(cat, trimmed).len() ==> {
                let w = #[trigger] gemma_load::tail_wants(cat, trimmed)[i];
                &&& w.need == Need::Required
                &&& if w.role == Role::PreProj || w.role == Role::PostProj {
                    w.name == projection_name(cat, w.role) && w.how == How::Device
                } else {
                    &&& model_tensor(w.role) == Some(w.name)
                    &&& w.role == Role::Head ==> w.how == (if trimmed {
                        How::Raw
                    } else {
                        How::Device
                    })
                    &&& w.role != Role::Head ==> w.how == form_of(w.role)
                }
            },
        wanted(gemma_load::tail_wants(cat, trimmed), Role::RopeFreqs),
        wanted(gemma_load::tail_wants(cat, trimmed), Role::Head),
        wanted(gemma_load::tail_wants(cat, trimmed), Role::PreProj),
        wanted(gemma_load::tail_wants(cat, trimmed), Role::PostProj),
        wanted(gemma_load::tail_wants(cat, trimmed), Role::OutputNorm),
{
    let ws = gemma_load::tail_wants(cat, trimmed);
    assert(ws[0].role == Role::RopeFreqs && ws[1].role == Role::Head && ws[2].role == Role::PreProj
        && ws[3].role == Role::PostProj && ws[4].role == Role::OutputNorm);
    assert forall|i: int| 0 <= i < ws.len() implies {
        let w = #[trigger] ws[i];
        &&& w.need == Need::Required
        &&& if w.role == Role::PreProj || w.role == Role::PostProj {
            w.name == projection_name(cat, w.role) && w.how == How::Device
        } else {
            &&& model_tensor(w.role) == Some(w.name)
            &&& w.role == Role::Head ==> w.how == (if trimmed {
                How::Raw
            } else {
                How::Device
            })
            &&& w.role != Role::Head ==> w.how == form_of(w.role)
        }
    } by {
        assert(i == 0 || i == 1 || i == 2 || i == 3 || i == 4);
    }
}

/// A draft file fills its block with the tensors of their own names. Its head is the file's output,
/// and the norm before it the block's own where it has one.
pub proof fn law_draft_file_tensors(cfg: ModelConfig, cat: Catalog)
    requires
        cfg.nextn_predict_layers <= cfg.n_layer,
        cfg.moe matches Some(m) ==> 2 * m.expert_ff_length <= usize::MAX,
    ensures
        forall|i: int|
            0 <= i < draft_head::draft_file_wants(cfg, cat).len() ==> {
                let w = #[trigger] draft_head::draft_file_wants(cfg, cat)[i];
                let norm = blk_name(cfg.trunk() as nat, "nextn.shared_head_norm.weight"@);
                ||| w.role == Role::SharedHead && w.name == "output.weight"@ && w.need
                    == Need::Required && w.how == How::Device
                ||| w.role == Role::SharedHeadNorm && w.need == Need::Optional && w.how
                    == How::Device && w.name == (if cat.lists(norm) {
                    norm
                } else {
                    "output_norm.weight"@
                })
                ||| filled(cfg, cat, cfg.trunk() as nat, w)
            },
{
    let il = cfg.trunk() as nat;
    let ws = draft_head::draft_file_wants(cfg, cat);
    let block = model_load::draft_wants(cfg, cat, il, false);
    lemma_draft_filled(cfg, cat, il, false);
    assert forall|i: int| 0 <= i < ws.len() implies {
        let w = #[trigger] ws[i];
        let norm = blk_name(cfg.trunk() as nat, "nextn.shared_head_norm.weight"@);
        ||| w.role == Role::SharedHead && w.name == "output.weight"@ && w.need == Need::Required
            && w.how == How::Device
        ||| w.role == Role::SharedHeadNorm && w.need == Need::Optional && w.how == How::Device
            && w.name == (if cat.lists(norm) {
            norm
        } else {
            "output_norm.weight"@
        })
        ||| filled(cfg, cat, cfg.trunk() as nat, w)
    } by {
        if i >= 2 {
            assert(ws[i] == block[i - 2]);
            assert(filled(cfg, cat, il, block[i - 2]));
        } else {
            assert(i == 0 || i == 1);
        }
    }
}

proof fn lemma_wanted_concat(a: Seq<WantView>, b: Seq<WantView>, role: Role)
    requires
        wanted(a, role) || wanted(b, role),
    ensures
        wanted(a + b, role),
{
    if wanted(a, role) {
        let i = choose|i: int| 0 <= i < a.len() && (#[trigger] a[i]).role == role;
        assert((a + b)[i] == a[i]);
    } else {
        let i = choose|i: int| 0 <= i < b.len() && (#[trigger] b[i]).role == role;
        assert((a + b)[a.len() + i] == b[i]);
    }
}

/// The places of a Gemma-4 layer beyond those of other layers: norms and scale in each, the shared
/// branch and its scales where the checkpoint scales the router, the per-layer embedding where it
/// holds one.
pub open spec fn extra_needs(cat: Catalog, il: nat, role: Role) -> bool {
    ||| role == Role::FfnNorm || role == Role::PostFfwNorm || role == Role::LayerScale
    ||| cat.lists(blk_name(il, "ffn_gate_inp.scale"@)) && (role == Role::PostFfwNorm1 || role
        == Role::PreFfwNorm2 || role == Role::PostFfwNorm2 || role == Role::SharedGate || role
        == Role::SharedUp || role == Role::SharedDown || role == Role::RouterScale || role
        == Role::PerExpertScale)
    ||| cat.lists(blk_name(il, "inp_gate.weight"@)) && (role == Role::InpGate || role == Role::Proj
        || role == Role::PostNorm)
}

proof fn lemma_extra_places(cfg: ModelConfig, cat: Catalog, il: nat, role: Role)
    requires
        cfg.gemma4 is Some,
        extra_needs(cat, il, role),
    ensures
        wanted(model_load::gemma_wants(cfg, cat, il), role),
{
    let ws = model_load::gemma_wants(cfg, cat, il);
    let n: int = if model_load::has_branch(cat, il) {
        8
    } else {
        0
    };
    let m: int = if model_load::has_ple(cat, il) {
        n + 3
    } else {
        n
    };
    if n == 8 {
        assert(ws[0].role == Role::PostFfwNorm1 && ws[1].role == Role::PreFfwNorm2 && ws[2].role
            == Role::PostFfwNorm2 && ws[3].role == Role::SharedGate && ws[4].role
            == Role::SharedUp && ws[5].role == Role::SharedDown && ws[6].role == Role::RouterScale
            && ws[7].role == Role::PerExpertScale);
    }
    if m == n + 3 {
        assert(ws[n].role == Role::InpGate && ws[n + 1].role == Role::Proj && ws[n + 2].role
            == Role::PostNorm);
    }
    assert(ws[m].role == Role::FfnNorm && ws[m + 1].role == Role::PostFfwNorm && ws[m + 2].role
        == Role::LayerScale);
}

/// The places of a trunk layer: the norms before its two halves, its mixer, its feed-forward block,
/// and a Gemma-4 layer's own. A layer without keys of its own has those of full attention.
pub open spec fn layer_needs(cfg: ModelConfig, cat: Catalog, il: nat, role: Role) -> bool {
    let borrows = model_load::share_target(cfg, il as int) is Some && !cat.lists(
        blk_name(il, "attn_k.weight"@),
    );
    ||| role == Role::AttnNorm || role == Role::PostAttnNorm
    ||| mixer_needs(
        if borrows {
            LayerKind::FullAttention
        } else {
            cfg.kind_of(il as int)
        },
        role,
    )
    ||| ffn_needs(loader::routes(cfg, cat, il), role)
    ||| cfg.gemma4 is Some && extra_needs(cat, il, role)
}

/// No place of a trunk layer is left empty.
pub proof fn law_layer_places(cfg: ModelConfig, cat: Catalog, il: nat, o: LoadOptions, role: Role)
    requires
        layer_needs(cfg, cat, il, role),
    ensures
        wanted(model_load::layer_wants(cfg, cat, il, o), role),
{
    let norms = seq![
        loader::req(il, "attn_norm.weight"@, Role::AttnNorm),
        model_load::pre_ffn_norm(cat, il),
    ];
    assert(norms[0].role == Role::AttnNorm && norms[1].role == Role::PostAttnNorm);
    let mixer = model_load::trunk_mixer(cfg, cat, il);
    let ffn = loader::ffn_wants(cfg, cat, il, model_load::tiered(cfg, o));
    let extra = model_load::gemma_wants(cfg, cat, il);
    law_mixer_places(cat, il, cfg.kind_of(il as int));
    let borrows = model_load::share_target(cfg, il as int) is Some && !cat.lists(
        blk_name(il, "attn_k.weight"@),
    );
    if borrows {
        assert(mixer[0].role == Role::Wq && mixer[1].role == Role::Wk && mixer[2].role == Role::Wv
            && mixer[3].role == Role::Wo && mixer[4].role == Role::QNorm && mixer[5].role
            == Role::KNorm);
    }
    if ffn_needs(loader::routes(cfg, cat, il), role) {
        law_ffn_places(cfg, cat, il, model_load::tiered(cfg, o), role);
    }
    if cfg.gemma4 is Some && extra_needs(cat, il, role) {
        lemma_extra_places(cfg, cat, il, role);
    }
    if wanted(norms, role) || wanted(mixer, role) {
        lemma_wanted_concat(norms, mixer, role);
    }
    if wanted(norms + mixer, role) || wanted(ffn, role) {
        lemma_wanted_concat(norms + mixer, ffn, role);
    }
    lemma_wanted_concat(norms + mixer + ffn, extra, role);
}

/// No place of a draft block is left empty: the three that join it to the trunk, and those of a
/// block of full attention.
pub proof fn law_draft_block_places(
    cfg: ModelConfig,
    cat: Catalog,
    il: nat,
    tiered: bool,
    role: Role,
)
    requires
        role == Role::Enorm || role == Role::Hnorm || role == Role::EhProj || role == Role::AttnNorm
            || role == Role::PostAttnNorm || mixer_needs(LayerKind::FullAttention, role)
            || ffn_needs(loader::routes(cfg, cat, il), role),
    ensures
        wanted(model_load::draft_wants(cfg, cat, il, tiered), role),
{
    let head = seq![
        loader::req(il, "nextn.enorm.weight"@, Role::Enorm),
        loader::req(il, "nextn.hnorm.weight"@, Role::Hnorm),
        loader::req(il, "nextn.eh_proj.weight"@, Role::EhProj),
        loader::req(il, "attn_norm.weight"@, Role::AttnNorm),
        model_load::pre_ffn_norm(cat, il),
    ];
    assert(head[0].role == Role::Enorm && head[1].role == Role::Hnorm && head[2].role
        == Role::EhProj && head[3].role == Role::AttnNorm && head[4].role == Role::PostAttnNorm);
    let mixer = loader::mixer_wants(cat, il, LayerKind::FullAttention);
    let ffn = loader::ffn_wants(cfg, cat, il, tiered);
    law_mixer_places(cat, il, LayerKind::FullAttention);
    if ffn_needs(loader::routes(cfg, cat, il), role) {
        law_ffn_places(cfg, cat, il, tiered, role);
    }
    if wanted(head, role) || wanted(mixer, role) {
        lemma_wanted_concat(head, mixer, role);
    }
    lemma_wanted_concat(head + mixer, ffn, role);
}

/// No place of the whole model is left empty: embedding, norm and head in each, and in a Gemma-4
/// model rotary factors and, where there is one, the per-layer embedding with its projection and
/// norm.
pub proof fn law_model_places(cfg: ModelConfig, cat: Catalog)
    ensures
        wanted(model_load::head_wants(cat), Role::TokenEmbd),
        wanted(model_load::head_wants(cat), Role::OutputNorm),
        wanted(model_load::head_wants(cat), Role::Output),
        cfg.gemma4 is Some ==> wanted(model_load::aux_wants(cfg, cat), Role::RopeFreqs),
        cfg.gemma4 is Some && cat.lists("per_layer_token_embd.weight"@) ==> {
            let ws = model_load::aux_wants(cfg, cat);
            &&& wanted(ws, Role::PerLayerTokenEmbd)
            &&& wanted(ws, Role::PerLayerModelProj)
            &&& wanted(ws, Role::PerLayerProjNorm)
        },
        cfg.gemma4 is None ==> model_load::aux_wants(cfg, cat).len() == 0,
{
    let hs = model_load::head_wants(cat);
    assert(hs[0].role == Role::TokenEmbd && hs[1].role == Role::OutputNorm && hs[2].role
        == Role::Output);
    if cfg.gemma4 is Some {
        let ws = model_load::aux_wants(cfg, cat);
        assert(ws[0].role == Role::RopeFreqs);
        if cat.lists("per_layer_token_embd.weight"@) {
            assert(ws[1].role == Role::PerLayerTokenEmbd && ws[2].role == Role::PerLayerModelProj
                && ws[3].role == Role::PerLayerProjNorm);
        }
    }
}

/// No place of a layer of the assistant drafter is left empty. It has no keys and values: it reads
/// the main model's.
pub proof fn law_assistant_layer_places(il: nat, role: Role)
    ensures
        wanted(gemma_load::layer_wants(il), role) <==> (role == Role::LayerScale || role == Role::Wq
            || role == Role::AttnNorm || role == Role::Wo || role == Role::QNorm || role
            == Role::PostAttnNorm || role == Role::FfnNorm || role == Role::FfnGate || role
            == Role::FfnUp || role == Role::FfnDown || role == Role::PostFfwNorm),
{
    let ws = gemma_load::layer_wants(il);
    assert(ws[0].role == Role::LayerScale && ws[1].role == Role::Wq && ws[2].role == Role::AttnNorm
        && ws[3].role == Role::Wo && ws[4].role == Role::QNorm && ws[5].role == Role::PostAttnNorm
        && ws[6].role == Role::FfnNorm && ws[7].role == Role::FfnGate && ws[8].role == Role::FfnUp
        && ws[9].role == Role::FfnDown && ws[10].role == Role::PostFfwNorm);
    if wanted(ws, role) {
        let i = choose|i: int| 0 <= i < ws.len() && (#[trigger] ws[i]).role == role;
        assert(i == 0 || i == 1 || i == 2 || i == 3 || i == 4 || i == 5 || i == 6 || i == 7 || i == 8 || i == 9 || i == 10);
    }
}

/// Layers route as their family says: one with a list of routed layers where the list does not
/// name the layer dense, one with leading dense layers behind those, Gemma-4 where the block has
/// experts, and any other in every layer. Without experts none does.
pub proof fn law_routed_layers(cfg: ModelConfig, cat: Catalog, il: nat)
    ensures
        cfg.moe is None ==> !loader::routes(cfg, cat, il),
        cfg.m3_moe_layer_freq matches Some(f) ==> il < f@.len() ==> f@[il as int] == 0
            ==> !loader::routes(cfg, cat, il),
        cfg.hy3_first_k_dense matches Some(k) ==> il < k ==> !loader::routes(cfg, cat, il),
        cfg.gemma4 is Some && !cat.lists(blk_name(il, "ffn_gate_exps.weight"@)) && !cat.lists(
            blk_name(il, "ffn_gate_up_exps.weight"@),
        ) ==> !loader::routes(cfg, cat, il),
        cfg.moe is Some && (cfg.m3_moe_layer_freq matches Some(f) ==> il >= f@.len()
            || f@[il as int] != 0) && (cfg.hy3_first_k_dense matches Some(k) ==> il >= k) && (
        cfg.gemma4 is Some ==> cat.lists(blk_name(il, "ffn_gate_exps.weight"@)) || cat.lists(
            blk_name(il, "ffn_gate_up_exps.weight"@),
        )) ==> loader::routes(cfg, cat, il),
{
}

proof fn lemma_block_drafter_layers(n: nat, i: nat, k: int)
    requires
        i < n,
        0 <= k < 11,
    ensures
        draft_load::dflash_layers_wants(n).len() == 11 * n,
        draft_load::dflash_layers_wants(n)[11 * i + k] == draft_load::dflash_layer_wants(i)[k],
    decreases n,
{
    let m = (n - 1) as nat;
    assert(draft_load::dflash_layer_wants(m).len() == 11);
    if m > 0 {
        lemma_block_drafter_layers(m, if i < m {
            i
        } else {
            0
        }, k);
    } else {
        assert(draft_load::dflash_layers_wants(0).len() == 0);
    }
}

/// A drafter of `n` whole blocks loads each layer's tensors for that layer, in order, and behind
/// them the projection of the target's states, the norm of what it gives, and the output norm.
pub proof fn law_block_drafter_order(n: nat, i: nat, k: int)
    ensures
        i < n && 0 <= k < 11 ==> draft_load::dflash_wants(n)[11 * i + k]
            == draft_load::dflash_layer_wants(i)[k],
        draft_load::dflash_wants(n).len() == 11 * n + 3,
        ({
            let ws = draft_load::dflash_wants(n);
            let at = 11 * n as int;
            let (fc, hidden, norm) = (ws[at], ws[at + 1], ws[at + 2]);
            &&& fc.role == Role::Fc && fc.name == "fc.weight"@ && fc.how == How::Device
            &&& hidden.role == Role::HiddenNorm && hidden.name == "hidden_norm.weight"@
                && hidden.how == How::Floats
            &&& norm.role == Role::OutputNorm && norm.name == "norm.weight"@ && norm.how
                == How::Floats
            &&& fc.need == Need::Required && hidden.need == Need::Required && norm.need
                == Need::Required
        }),
{
    if n > 0 {
        lemma_block_drafter_layers(n, 0, 0);
    } else {
        assert(draft_load::dflash_layers_wants(0).len() == 0);
    }
    if i < n && 0 <= k < 11 {
        lemma_block_drafter_layers(n, i, k);
        assert(11 * i + k < 11 * n);
    }
}

proof fn lemma_assistant_layers(n: nat, i: nat, k: int)
    requires
        i < n,
        0 <= k < 11,
    ensures
        gemma_load::layers_wants(n).len() == 11 * n,
        gemma_load::layers_wants(n)[11 * i + k] == gemma_load::layer_wants(i)[k],
    decreases n,
{
    let m = (n - 1) as nat;
    assert(gemma_load::layer_wants(m).len() == 11);
    if m > 0 {
        lemma_assistant_layers(m, if i < m {
            i
        } else {
            0
        }, k);
    } else {
        assert(gemma_load::layers_wants(0).len() == 0);
    }
}

/// An assistant drafter of `n` layers loads each layer's tensors for that layer, in order, and
/// behind them what follows the layers.
pub proof fn law_assistant_order(cat: Catalog, trimmed: bool, n: nat, i: nat, k: int)
    ensures
        gemma_load::draft_wants(cat, n, trimmed).len() == 11 * n + gemma_load::tail_wants(
            cat,
            trimmed,
        ).len(),
        i < n && 0 <= k < 11 ==> gemma_load::draft_wants(cat, n, trimmed)[11 * i + k]
            == gemma_load::layer_wants(i)[k],
        0 <= k < gemma_load::tail_wants(cat, trimmed).len() ==> gemma_load::draft_wants(
            cat,
            n,
            trimmed,
        )[11 * n + k] == gemma_load::tail_wants(cat, trimmed)[k],
{
    if n > 0 {
        lemma_assistant_layers(n, 0, 0);
    } else {
        assert(gemma_load::layers_wants(0).len() == 0);
    }
    if i < n && 0 <= k < 11 {
        lemma_assistant_layers(n, i, k);
        assert(11 * i + k < 11 * n);
    }
}

} // verus!
