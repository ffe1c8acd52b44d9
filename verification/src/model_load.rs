//! Loading plan of a whole model: its trunk, its draft head and its extras.

use vstd::prelude::*;
use vstd::string::*;

use crate::config::{Gemma4Config, LayerKind, ModelConfig};
use crate::loader;
use crate::loader::{Catalog, How, Need, Role, Want};
use crate::qtype::GgmlType;

verus! {

/// Settings of a load.
#[derive(Clone, Copy, Debug, PartialEq, Eq, Structural)]
pub struct LoadOptions {
    /// Experts may be mapped from disk.
    pub disk_tier: bool,
    /// The checkpoint is one file that can be mapped.
    pub on_disk: bool,
    /// Weights are kept at full precision.
    pub full_prec: bool,
    /// A file with a draft head is named.
    pub mtp_draft: bool,
    /// A file with ranked draft tokens is named.
    pub frspec_trim: bool,
    /// Split-plane mirrors are built.
    pub q4rp: bool,
}

/// What is loaded for one block.
#[derive(Debug)]
pub struct BlockPlan {
    pub loads: Vec<Want>,
    /// The feed-forward block routes experts.
    pub moe: bool,
    /// The layer whose KV cache the block reads in place of one of its own.
    pub kv_share: Option<usize>,
}

/// Where the draft head comes from.
#[derive(Clone, Copy, Debug, PartialEq, Eq, Structural)]
pub enum DraftHead {
    Absent,
    /// The block after the trunk.
    Embedded,
    /// A file of its own.
    External,
}

/// What is loaded for a model.
#[derive(Debug)]
pub struct ModelPlan {
    pub head: Vec<Want>,
    pub layers: Vec<BlockPlan>,
    /// The draft block of this checkpoint, if it has one.
    pub mtp: Option<BlockPlan>,
    pub aux: Vec<Want>,
    pub draft_head: DraftHead,
    /// The draft head's rows are gathered from the model's own head.
    pub trim: bool,
}

/// Experts are mapped from disk.
pub open spec fn tiered(cfg: ModelConfig, o: LoadOptions) -> bool {
    cfg.moe is Some && o.disk_tier && o.on_disk
}

/// Whether the attention of layer `il` is windowed.
pub open spec fn windowed(g: Gemma4Config, il: int) -> bool {
    if 0 <= il < g.swa_pattern@.len() {
        g.swa_pattern@[il]
    } else {
        true
    }
}

/// The first layer without a KV cache of its own.
pub open spec fn kv_from(cfg: ModelConfig) -> int {
    cfg.trunk() - (match cfg.gemma4 {
        Some(g) => g.shared_kv_layers as int,
        None => 0,
    })
}

/// The layer whose KV cache layer `il` reads in place of one of its own: of the layers with one,
/// the last but one for windowed layers and the last for the others.
pub open spec fn share_target(cfg: ModelConfig, il: int) -> Option<int> {
    match cfg.gemma4 {
        Some(g) => if g.shared_kv_layers > 0 && il >= kv_from(cfg) {
            Some(
                kv_from(cfg) - (if windowed(g, il) {
                    2int
                } else {
                    1int
                }),
            )
        } else {
            None
        },
        None => None,
    }
}

/// The checkpoint has trunk layer `il` read another layer's KV cache: its keys are missing, or it
/// has a per-layer embedding.
pub open spec fn reads_shared(cfg: ModelConfig, cat: Catalog, il: int) -> bool {
    &&& share_target(cfg, il) is Some
    &&& !cat.lists(loader::blk_name(il as nat, "attn_k.weight"@)) || has_ple(cat, il as nat)
}

/// The configuration can be loaded: no more draft layers than layers, shared caches exist where
/// they are read, and sizes fit.
pub open spec fn loadable(cfg: ModelConfig, cat: Catalog) -> bool {
    &&& cfg.nextn_predict_layers <= cfg.n_layer
    &&& cfg.moe matches Some(m) ==> 2 * m.expert_ff_length <= usize::MAX
    &&& cfg.trunk() > 0 ==> kv_from(cfg) >= 0
    &&& forall|il: int|
        0 <= il < cfg.trunk() && #[trigger] reads_shared(cfg, cat, il) ==> share_target(
            cfg,
            il,
        )->0 >= 0
}

/// The norm before the feed-forward block, under either of its names.
pub open spec fn pre_ffn_norm(cat: Catalog, il: nat) -> loader::WantView {
    loader::req(
        il,
        if cat.lists(loader::blk_name(il, "post_attention_norm.weight"@)) {
            "post_attention_norm.weight"@
        } else {
            "ffn_norm.weight"@
        },
        Role::PostAttnNorm,
    )
}

/// The mixer of a layer that reads the KV cache of layer `t`: keys and values are those of `t`.
pub open spec fn shared_wants(il: nat, t: nat) -> Seq<loader::WantView> {
    seq![
        loader::req(il, "attn_q.weight"@, Role::Wq),
        loader::req(t, "attn_k.weight"@, Role::Wk),
        loader::req(t, "attn_v.weight"@, Role::Wv),
        loader::req(il, "attn_output.weight"@, Role::Wo),
        loader::req(il, "attn_q_norm.weight"@, Role::QNorm),
        loader::req(t, "attn_k_norm.weight"@, Role::KNorm),
    ]
}

/// The mixer of trunk layer `il`.
pub open spec fn trunk_mixer(cfg: ModelConfig, cat: Catalog, il: nat) -> Seq<loader::WantView> {
    match share_target(cfg, il as int) {
        Some(t) => if !cat.lists(loader::blk_name(il, "attn_k.weight"@)) {
            shared_wants(il, t as nat)
        } else {
            loader::mixer_wants(cat, il, cfg.kind_of(il as int))
        },
        None => loader::mixer_wants(cat, il, cfg.kind_of(il as int)),
    }
}

pub open spec fn floats(il: nat, suffix: Seq<char>, role: Role) -> loader::WantView {
    loader::WantView {
        name: loader::blk_name(il, suffix),
        role,
        how: How::Floats,
        need: Need::Required,
    }
}

/// The block has a shared branch beside its experts.
pub open spec fn has_branch(cat: Catalog, il: nat) -> bool {
    cat.lists(loader::blk_name(il, "ffn_gate_inp.scale"@))
}

/// The block has a per-layer embedding.
pub open spec fn has_ple(cat: Catalog, il: nat) -> bool {
    cat.lists(loader::blk_name(il, "inp_gate.weight"@))
}

/// Gemma-4 extras: the shared branch, the per-layer embedding, norms and the output scale.
pub open spec fn gemma_wants(cfg: ModelConfig, cat: Catalog, il: nat) -> Seq<loader::WantView> {
    if cfg.gemma4 is None {
        Seq::empty()
    } else {
        (if has_branch(cat, il) {
            seq![
                loader::req(il, "post_ffw_norm_1.weight"@, Role::PostFfwNorm1),
                loader::req(il, "pre_ffw_norm_2.weight"@, Role::PreFfwNorm2),
                loader::req(il, "post_ffw_norm_2.weight"@, Role::PostFfwNorm2),
                loader::req(il, "ffn_gate.weight"@, Role::SharedGate),
                loader::req(il, "ffn_up.weight"@, Role::SharedUp),
                loader::req(il, "ffn_down.weight"@, Role::SharedDown),
                floats(il, "ffn_gate_inp.scale"@, Role::RouterScale),
                floats(il, "ffn_down_exps.scale"@, Role::PerExpertScale),
            ]
        } else {
            Seq::empty()
        }) + (if has_ple(cat, il) {
            seq![
                loader::req(il, "inp_gate.weight"@, Role::InpGate),
                loader::req(il, "proj.weight"@, Role::Proj),
                loader::req(il, "post_norm.weight"@, Role::PostNorm),
            ]
        } else {
            Seq::empty()
        }) + seq![
            loader::req(il, "ffn_norm.weight"@, Role::FfnNorm),
            loader::req(il, "post_ffw_norm.weight"@, Role::PostFfwNorm),
            (loader::WantView {
                name: loader::blk_name(il, "layer_output_scale.weight"@),
                role: Role::LayerScale,
                how: How::Scalar,
                need: Need::Required,
            }),
        ]
    }
}

/// Everything of trunk layer `il`.
pub open spec fn layer_wants(cfg: ModelConfig, cat: Catalog, il: nat, o: LoadOptions) -> Seq<
    loader::WantView,
> {
    seq![loader::req(il, "attn_norm.weight"@, Role::AttnNorm), pre_ffn_norm(cat, il)]
        + trunk_mixer(cfg, cat, il) + loader::ffn_wants(cfg, cat, il, tiered(cfg, o))
        + gemma_wants(cfg, cat, il)
}

/// The first `n` trunk layers.
pub open spec fn layers_wants(cfg: ModelConfig, cat: Catalog, o: LoadOptions, n: nat) -> Seq<
    loader::WantView,
>
    decreases n,
{
    if n == 0 {
        Seq::empty()
    } else {
        layers_wants(cfg, cat, o, (n - 1) as nat) + layer_wants(cfg, cat, (n - 1) as nat, o)
    }
}

/// The checkpoint holds a draft block.
pub open spec fn has_draft(cfg: ModelConfig, cat: Catalog) -> bool {
    cfg.nextn_predict_layers > 0 && cat.lists(
        loader::blk_name(cfg.trunk() as nat, "nextn.eh_proj.weight"@),
    )
}

/// A draft block: a full-attention block and what joins it to the trunk.
pub open spec fn draft_wants(cfg: ModelConfig, cat: Catalog, il: nat, tiered: bool) -> Seq<
    loader::WantView,
> {
    seq![
        loader::req(il, "nextn.enorm.weight"@, Role::Enorm),
        loader::req(il, "nextn.hnorm.weight"@, Role::Hnorm),
        loader::req(il, "nextn.eh_proj.weight"@, Role::EhProj),
        loader::req(il, "attn_norm.weight"@, Role::AttnNorm),
        pre_ffn_norm(cat, il),
    ] + loader::mixer_wants(cat, il, LayerKind::FullAttention) + loader::ffn_wants(
        cfg,
        cat,
        il,
        tiered,
    )
}

/// The draft block of the checkpoint, if it has one.
pub open spec fn mtp_wants(cfg: ModelConfig, cat: Catalog, o: LoadOptions) -> Seq<
    loader::WantView,
> {
    let il = cfg.trunk() as nat;
    if has_draft(cfg, cat) {
        draft_wants(cfg, cat, il, tiered(cfg, o)) + seq![
            loader::opt(il, "nextn.shared_head_norm.weight"@, Role::SharedHeadNorm),
            loader::opt(il, "nextn.shared_head.weight"@, Role::SharedHead),
        ]
    } else {
        Seq::empty()
    }
}

pub open spec fn named(name: Seq<char>, role: Role, how: How, need: Need) -> loader::WantView {
    loader::WantView { name, role, how, need }
}

/// Embedding, output norm and head; a model without a head of its own takes its embedding.
pub open spec fn head_wants(cat: Catalog) -> Seq<loader::WantView> {
    seq![
        named("token_embd.weight"@, Role::TokenEmbd, How::Raw, Need::Required),
        named("output_norm.weight"@, Role::OutputNorm, How::Device, Need::Required),
        named(
            if cat.lists("output.weight"@) {
                "output.weight"@
            } else {
                "token_embd.weight"@
            },
            Role::Output,
            How::Device,
            Need::Required,
        ),
    ]
}

/// Model-level extras of Gemma-4.
pub open spec fn aux_wants(cfg: ModelConfig, cat: Catalog) -> Seq<loader::WantView> {
    if cfg.gemma4 is None {
        Seq::empty()
    } else {
        seq![named("rope_freqs.weight"@, Role::RopeFreqs, How::Floats, Need::Optional)] + (
        if cat.lists("per_layer_token_embd.weight"@) {
            seq![
                named(
                    "per_layer_token_embd.weight"@,
                    Role::PerLayerTokenEmbd,
                    How::Raw,
                    Need::Required,
                ),
                named(
                    "per_layer_model_proj.weight"@,
                    Role::PerLayerModelProj,
                    How::Device,
                    Need::Required,
                ),
                named(
                    "per_layer_proj_norm.weight"@,
                    Role::PerLayerProjNorm,
                    How::Device,
                    Need::Required,
                ),
            ]
        } else {
            Seq::empty()
        })
    }
}

/// Everything of a model, in the order in which it is loaded.
pub open spec fn all_wants(cfg: ModelConfig, cat: Catalog, o: LoadOptions) -> Seq<
    loader::WantView,
> {
    head_wants(cat) + layers_wants(cfg, cat, o, cfg.trunk() as nat) + mtp_wants(cfg, cat, o)
        + aux_wants(cfg, cat)
}

/// Where the draft head comes from: a named file wins over the checkpoint.
pub open spec fn draft_head(cfg: ModelConfig, cat: Catalog, o: LoadOptions) -> DraftHead {
    if o.mtp_draft {
        DraftHead::External
    } else if has_draft(cfg, cat) {
        DraftHead::Embedded
    } else {
        DraftHead::Absent
    }
}

/// The head of a draft is trimmed when a ranking is named, unless weights are kept at full
/// precision.
pub open spec fn trims(cfg: ModelConfig, cat: Catalog, o: LoadOptions) -> bool {
    o.frspec_trim && !o.full_prec && draft_head(cfg, cat, o) != DraftHead::Absent
}

proof fn lemma_first_unmet_concat(
    a: Seq<loader::WantView>,
    b: Seq<loader::WantView>,
    cat: Catalog,
)
    ensures
        loader::first_unmet(a + b, cat) == (match loader::first_unmet(a, cat) {
            Some(i) => Some(i),
            None => match loader::first_unmet(b, cat) {
                Some(i) => Some(a.len() + i),
                None => None,
            },
        }),
    decreases b.len(),
{
    if b.len() == 0 {
        assert(a + b =~= a);
    } else {
        lemma_first_unmet_concat(a, b.drop_last(), cat);
        assert((a + b).drop_last() =~= a + b.drop_last());
    }
}

fn push_norms(ws: &mut Vec<Want>, cat: &Catalog, il: usize)
    ensures
        loader::views(final(ws)@) == loader::views(old(ws)@) + seq![
            loader::req(il as nat, "attn_norm.weight"@, Role::AttnNorm),
            pre_ffn_norm(*cat, il as nat),
        ],
{
    let ghost w0 = loader::views(ws@);
    loader::push_req(ws, il, "attn_norm.weight", Role::AttnNorm);
    if cat.has(&loader::blk(il, "post_attention_norm.weight")) {
        loader::push_req(ws, il, "post_attention_norm.weight", Role::PostAttnNorm);
    } else {
        loader::push_req(ws, il, "ffn_norm.weight", Role::PostAttnNorm);
    }
    assert(loader::views(ws@) =~= w0 + seq![
        loader::req(il as nat, "attn_norm.weight"@, Role::AttnNorm),
        pre_ffn_norm(*cat, il as nat),
    ]);
}

fn lacks_own_cache(cfg: &ModelConfig, il: usize) -> (r: bool)
    requires
        cfg.nextn_predict_layers <= cfg.n_layer,
        kv_from(*cfg) >= 0,
    ensures
        r == share_target(*cfg, il as int) is Some,
{
    let n_trunk = cfg.n_trunk();
    match &cfg.gemma4 {
        Some(g) => g.shared_kv_layers > 0 && il >= n_trunk - g.shared_kv_layers,
        None => false,
    }
}

fn share_of(cfg: &ModelConfig, il: usize) -> (r: usize)
    requires
        cfg.nextn_predict_layers <= cfg.n_layer,
        kv_from(*cfg) >= 0,
        share_target(*cfg, il as int) matches Some(t) && t >= 0,
    ensures
        share_target(*cfg, il as int) == Some(r as int),
{
    let n_trunk = cfg.n_trunk();
    match &cfg.gemma4 {
        Some(g) => {
            let from: usize = n_trunk - g.shared_kv_layers;
            let swa = if il < g.swa_pattern.len() {
                g.swa_pattern[il]
            } else {
                true
            };
            from - (if swa {
                2
            } else {
                1
            })
        },
        None => 0,
    }
}

fn push_shared(ws: &mut Vec<Want>, il: usize, t: usize)
    ensures
        loader::views(final(ws)@) == loader::views(old(ws)@) + shared_wants(il as nat, t as nat),
{
    let ghost w0 = loader::views(ws@);
    loader::push_req(ws, il, "attn_q.weight", Role::Wq);
    loader::push_req(ws, t, "attn_k.weight", Role::Wk);
    loader::push_req(ws, t, "attn_v.weight", Role::Wv);
    loader::push_req(ws, il, "attn_output.weight", Role::Wo);
    loader::push_req(ws, il, "attn_q_norm.weight", Role::QNorm);
    loader::push_req(ws, t, "attn_k_norm.weight", Role::KNorm);
    assert(loader::views(ws@) =~= w0 + shared_wants(il as nat, t as nat));
}

fn push_floats(ws: &mut Vec<Want>, il: usize, suffix: &str, role: Role)
    ensures
        loader::views(final(ws)@) == loader::views(old(ws)@).push(floats(il as nat, suffix@, role)),
{
    loader::push_want(ws, loader::blk(il, suffix), role, How::Floats, Need::Required);
}

fn push_gemma(ws: &mut Vec<Want>, cfg: &ModelConfig, cat: &Catalog, il: usize)
    ensures
        loader::views(final(ws)@) == loader::views(old(ws)@) + gemma_wants(*cfg, *cat, il as nat),
{
    let ghost w0 = loader::views(ws@);
    if cfg.gemma4.is_none() {
        assert(loader::views(ws@) =~= w0 + gemma_wants(*cfg, *cat, il as nat));
        return ;
    }
    if cat.has(&loader::blk(il, "ffn_gate_inp.scale")) {
        loader::push_req(ws, il, "post_ffw_norm_1.weight", Role::PostFfwNorm1);
        loader::push_req(ws, il, "pre_ffw_norm_2.weight", Role::PreFfwNorm2);
        loader::push_req(ws, il, "post_ffw_norm_2.weight", Role::PostFfwNorm2);
        loader::push_req(ws, il, "ffn_gate.weight", Role::SharedGate);
        loader::push_req(ws, il, "ffn_up.weight", Role::SharedUp);
        loader::push_req(ws, il, "ffn_down.weight", Role::SharedDown);
        push_floats(ws, il, "ffn_gate_inp.scale", Role::RouterScale);
        push_floats(ws, il, "ffn_down_exps.scale", Role::PerExpertScale);
    }
    let ghost w1 = loader::views(ws@);
    if cat.has(&loader::blk(il, "inp_gate.weight")) {
        loader::push_req(ws, il, "inp_gate.weight", Role::InpGate);
        loader::push_req(ws, il, "proj.weight", Role::Proj);
        loader::push_req(ws, il, "post_norm.weight", Role::PostNorm);
    }
    let ghost w2 = loader::views(ws@);
    loader::push_req(ws, il, "ffn_norm.weight", Role::FfnNorm);
    loader::push_req(ws, il, "post_ffw_norm.weight", Role::PostFfwNorm);
    loader::push_want(
        ws,
        loader::blk(il, "layer_output_scale.weight"),
        Role::LayerScale,
        How::Scalar,
        Need::Required,
    );
    assert(loader::views(ws@) =~= w0 + gemma_wants(*cfg, *cat, il as nat));
}

/// Plans trunk layer `il`, or names the first required tensor that is missing.
pub fn load_layer(cfg: &ModelConfig, cat: &Catalog, il: usize, o: LoadOptions) -> (r: Result<
    BlockPlan,
    String,
>)
    requires
        loadable(*cfg, *cat),
        il < cfg.trunk(),
    ensures
        ({
            let ws = layer_wants(*cfg, *cat, il as nat, o);
            match r {
                Ok(b) => {
                    &&& loader::first_unmet(ws, *cat) is None
                    &&& loader::views(b.loads@) == loader::kept(ws, *cat)
                    &&& b.moe == loader::routes(*cfg, *cat, il as nat)
                    &&& match b.kv_share {
                        Some(t) => has_ple(*cat, il as nat) && share_target(*cfg, il as int)
                            == Some(t as int),
                        None => cfg.gemma4 is None || !has_ple(*cat, il as nat) || share_target(
                            *cfg,
                            il as int,
                        ) is None,
                    }
                },
                Err(name) => loader::first_unmet(ws, *cat) matches Some(i) && name@ == ws[i].name,
            }
        }),
{
    let mut ws: Vec<Want> = Vec::new();
    push_norms(&mut ws, cat, il);
    let lacks = lacks_own_cache(cfg, il);
    assert(reads_shared(*cfg, *cat, il as int) ==> share_target(*cfg, il as int)->0 >= 0);
    if lacks && !cat.has(&loader::blk(il, "attn_k.weight")) {
        push_shared(&mut ws, il, share_of(cfg, il));
    } else {
        loader::load_mixer_kind(&mut ws, cat, il, cfg.layer_kind(il));
    }
    let tier = cfg.moe.is_some() && o.disk_tier && o.on_disk;
    let moe = loader::load_ffn(&mut ws, cfg, cat, il, tier);
    push_gemma(&mut ws, cfg, cat, il);
    assert(loader::views(ws@) =~= layer_wants(*cfg, *cat, il as nat, o));
    let kv_share = if lacks && cat.has(&loader::blk(il, "inp_gate.weight")) {
        Some(share_of(cfg, il))
    } else {
        None
    };
    match loader::resolve(&ws, cat) {
        Ok(loads) => Ok(BlockPlan { loads, moe, kv_share }),
        Err(name) => Err(name),
    }
}

pub(crate) fn push_draft(ws: &mut Vec<Want>, cfg: &ModelConfig, cat: &Catalog, il: usize, tier: bool) -> (r:
    bool)
    requires
        cfg.moe matches Some(m) ==> 2 * m.expert_ff_length <= usize::MAX,
    ensures
        r == loader::routes(*cfg, *cat, il as nat),
        loader::views(final(ws)@) == loader::views(old(ws)@) + draft_wants(
            *cfg,
            *cat,
            il as nat,
            tier,
        ),
{
    let ghost w0 = loader::views(ws@);
    loader::push_req(ws, il, "nextn.enorm.weight", Role::Enorm);
    loader::push_req(ws, il, "nextn.hnorm.weight", Role::Hnorm);
    loader::push_req(ws, il, "nextn.eh_proj.weight", Role::EhProj);
    push_norms(ws, cat, il);
    loader::load_mixer_kind(ws, cat, il, LayerKind::FullAttention);
    let moe = loader::load_ffn(ws, cfg, cat, il, tier);
    assert(loader::views(ws@) =~= w0 + draft_wants(*cfg, *cat, il as nat, tier));
    moe
}

/// Plans the draft block of the checkpoint; none where it has none.
pub fn load_mtp(cfg: &ModelConfig, cat: &Catalog, o: LoadOptions) -> (r: Result<
    Option<BlockPlan>,
    String,
>)
    requires
        loadable(*cfg, *cat),
    ensures
        ({
            let ws = mtp_wants(*cfg, *cat, o);
            match r {
                Ok(Some(b)) => {
                    &&& has_draft(*cfg, *cat)
                    &&& loader::first_unmet(ws, *cat) is None
                    &&& loader::views(b.loads@) == loader::kept(ws, *cat)
                    &&& b.moe == loader::routes(*cfg, *cat, cfg.trunk() as nat)
                    &&& b.kv_share is None
                },
                Ok(None) => !has_draft(*cfg, *cat),
                Err(name) => loader::first_unmet(ws, *cat) matches Some(i) && name@ == ws[i].name,
            }
        }),
{
    let n = cfg.n_trunk();
    if cfg.nextn_predict_layers == 0 || !cat.has(&loader::blk(n, "nextn.eh_proj.weight")) {
        return Ok(None);
    }
    let mut ws: Vec<Want> = Vec::new();
    let tier = cfg.moe.is_some() && o.disk_tier && o.on_disk;
    let moe = push_draft(&mut ws, cfg, cat, n, tier);
    loader::push_opt(&mut ws, n, "nextn.shared_head_norm.weight", Role::SharedHeadNorm);
    loader::push_opt(&mut ws, n, "nextn.shared_head.weight", Role::SharedHead);
    assert(loader::views(ws@) =~= mtp_wants(*cfg, *cat, o));
    match loader::resolve(&ws, cat) {
        Ok(loads) => Ok(Some(BlockPlan { loads, moe, kv_share: None })),
        Err(name) => Err(name),
    }
}

fn load_head(cat: &Catalog) -> (r: Result<Vec<Want>, String>)
    ensures
        match r {
            Ok(v) => loader::first_unmet(head_wants(*cat), *cat) is None && loader::views(v@)
                == loader::kept(head_wants(*cat), *cat),
            Err(name) => loader::first_unmet(head_wants(*cat), *cat) matches Some(i) && name@
                == head_wants(*cat)[i].name,
        },
{
    let mut ws: Vec<Want> = Vec::new();
    loader::push_want(
        &mut ws,
        "token_embd.weight".to_owned(),
        Role::TokenEmbd,
        How::Raw,
        Need::Required,
    );
    loader::push_want(
        &mut ws,
        "output_norm.weight".to_owned(),
        Role::OutputNorm,
        How::Device,
        Need::Required,
    );
    let own = "output.weight".to_owned();
    let name = if cat.has(&own) {
        own
    } else {
        "token_embd.weight".to_owned()
    };
    loader::push_want(&mut ws, name, Role::Output, How::Device, Need::Required);
    assert(loader::views(ws@) =~= head_wants(*cat));
    loader::resolve(&ws, cat)
}

fn load_aux(cfg: &ModelConfig, cat: &Catalog) -> (r: Result<Vec<Want>, String>)
    ensures
        match r {
            Ok(v) => loader::first_unmet(aux_wants(*cfg, *cat), *cat) is None && loader::views(v@)
                == loader::kept(aux_wants(*cfg, *cat), *cat),
            Err(name) => loader::first_unmet(aux_wants(*cfg, *cat), *cat) matches Some(i) && name@
                == aux_wants(*cfg, *cat)[i].name,
        },
{
    let mut ws: Vec<Want> = Vec::new();
    if cfg.gemma4.is_some() {
        loader::push_want(
            &mut ws,
            "rope_freqs.weight".to_owned(),
            Role::RopeFreqs,
            How::Floats,
            Need::Optional,
        );
        let table = "per_layer_token_embd.weight".to_owned();
        if cat.has(&table) {
            loader::push_want(&mut ws, table, Role::PerLayerTokenEmbd, How::Raw, Need::Required);
            loader::push_want(
                &mut ws,
                "per_layer_model_proj.weight".to_owned(),
                Role::PerLayerModelProj,
                How::Device,
                Need::Required,
            );
            loader::push_want(
                &mut ws,
                "per_layer_proj_norm.weight".to_owned(),
                Role::PerLayerProjNorm,
                How::Device,
                Need::Required,
            );
        }
    }
    assert(loader::views(ws@) =~= aux_wants(*cfg, *cat));
    loader::resolve(&ws, cat)
}

/// `plan` holds what is there of the whole model.
pub open spec fn complete(plan: ModelPlan, cfg: ModelConfig, cat: Catalog, o: LoadOptions) -> bool {
    &&& loader::views(plan.head@) == loader::kept(head_wants(cat), cat)
    &&& plan.layers@.len() == cfg.trunk()
    &&& forall|il: int|
        0 <= il < plan.layers@.len() ==> layer_complete(#[trigger] plan.layers@[il], cfg, cat, il, o)
    &&& plan.mtp is Some <==> has_draft(cfg, cat)
    &&& plan.mtp matches Some(b) ==> {
        &&& loader::views(b.loads@) == loader::kept(mtp_wants(cfg, cat, o), cat)
        &&& b.moe == loader::routes(cfg, cat, cfg.trunk() as nat)
        &&& b.kv_share is None
    }
    &&& loader::views(plan.aux@) == loader::kept(aux_wants(cfg, cat), cat)
    &&& plan.draft_head == draft_head(cfg, cat, o)
    &&& plan.trim == trims(cfg, cat, o)
}

/// `b` holds what is there of trunk layer `il`.
pub open spec fn layer_complete(
    b: BlockPlan,
    cfg: ModelConfig,
    cat: Catalog,
    il: int,
    o: LoadOptions,
) -> bool {
    &&& loader::views(b.loads@) == loader::kept(layer_wants(cfg, cat, il as nat, o), cat)
    &&& b.moe == loader::routes(cfg, cat, il as nat)
    &&& match b.kv_share {
        Some(t) => has_ple(cat, il as nat) && share_target(cfg, il) == Some(t as int),
        None => cfg.gemma4 is None || !has_ple(cat, il as nat) || share_target(cfg, il) is None,
    }
}

/// Plans a model, or names the first required tensor that is missing. The trunk is the layers
/// before the draft block.
pub fn load_from_source(cfg: &ModelConfig, cat: &Catalog, o: LoadOptions) -> (r: Result<
    ModelPlan,
    String,
>)
    requires
        loadable(*cfg, *cat),
    ensures
        ({
            let ws = all_wants(*cfg, *cat, o);
            match r {
                Ok(plan) => loader::first_unmet(ws, *cat) is None && complete(plan, *cfg, *cat, o),
                Err(name) => loader::first_unmet(ws, *cat) matches Some(i) && name@ == ws[i].name,
            }
        }),
{
    let n = cfg.n_trunk();
    let ghost hw = head_wants(*cat);
    let ghost lw = layers_wants(*cfg, *cat, o, n as nat);
    let ghost mw = mtp_wants(*cfg, *cat, o);
    let ghost aw = aux_wants(*cfg, *cat);
    proof {
        lemma_first_unmet_concat(hw, lw, *cat);
        lemma_first_unmet_concat(hw + lw, mw, *cat);
        lemma_first_unmet_concat(hw + lw + mw, aw, *cat);
        loader::law_refused_iff_missing(hw, *cat);
        loader::law_refused_iff_missing(mw, *cat);
        loader::law_refused_iff_missing(aw, *cat);
    }
    let head = match load_head(cat) {
        Ok(v) => v,
        Err(name) => {
            return Err(name);
        },
    };
    let mut layers: Vec<BlockPlan> = Vec::new();
    let mut il: usize = 0;
    while il < n
        invariant
            il <= n,
            n == cfg.trunk(),
            loadable(*cfg, *cat),
            loader::first_unmet(layers_wants(*cfg, *cat, o, il as nat), *cat) is None,
            layers@.len() == il,
            forall|k: int|
                0 <= k < il ==> layer_complete(#[trigger] layers@[k], *cfg, *cat, k, o),
            hw == head_wants(*cat),
            lw == layers_wants(*cfg, *cat, o, n as nat),
            mw == mtp_wants(*cfg, *cat, o),
            aw == aux_wants(*cfg, *cat),
            loader::first_unmet(hw, *cat) is None,
        decreases n - il,
    {
        let ghost before = layers_wants(*cfg, *cat, o, il as nat);
        let ghost here = layer_wants(*cfg, *cat, il as nat, o);
        proof {
            lemma_first_unmet_concat(before, here, *cat);
        }
        match load_layer(cfg, cat, il, o) {
            Ok(b) => {
                layers.push(b);
            },
            Err(name) => {
                proof {
                    lemma_unmet_in_layers(*cfg, *cat, o, (il + 1) as nat, n as nat);
                    loader::law_refused_iff_missing(here, *cat);
                    lemma_first_unmet_concat(hw, lw, *cat);
                    lemma_first_unmet_concat(hw + lw, mw, *cat);
                    lemma_first_unmet_concat(hw + lw + mw, aw, *cat);
                }
                return Err(name);
            },
        }
        il += 1;
    }
    let mtp = match load_mtp(cfg, cat, o) {
        Ok(v) => v,
        Err(name) => {
            return Err(name);
        },
    };
    let aux = match load_aux(cfg, cat) {
        Ok(v) => v,
        Err(name) => {
            return Err(name);
        },
    };
    let draft_head = if o.mtp_draft {
        DraftHead::External
    } else if mtp.is_some() {
        DraftHead::Embedded
    } else {
        DraftHead::Absent
    };
    let trim = o.frspec_trim && !o.full_prec && (o.mtp_draft || mtp.is_some());
    Ok(ModelPlan { head, layers, mtp, aux, draft_head, trim })
}

proof fn lemma_unmet_in_layers(cfg: ModelConfig, cat: Catalog, o: LoadOptions, k: nat, n: nat)
    requires
        k <= n,
        loader::first_unmet(layers_wants(cfg, cat, o, k), cat) is Some,
    ensures
        loader::first_unmet(layers_wants(cfg, cat, o, n), cat) == loader::first_unmet(
            layers_wants(cfg, cat, o, k),
            cat,
        ),
        layers_wants(cfg, cat, o, k).len() <= layers_wants(cfg, cat, o, n).len(),
        forall|i: int|
            0 <= i < layers_wants(cfg, cat, o, k).len() ==> #[trigger] layers_wants(
                cfg,
                cat,
                o,
                n,
            )[i] == layers_wants(cfg, cat, o, k)[i],
    decreases n,
{
    if k < n {
        lemma_unmet_in_layers(cfg, cat, o, k, (n - 1) as nat);
        lemma_first_unmet_concat(
            layers_wants(cfg, cat, o, (n - 1) as nat),
            layer_wants(cfg, cat, (n - 1) as nat, o),
            cat,
        );
    }
}

/// A layer that reads another layer's KV cache reads one that exists: its target is an earlier
/// layer, and that has a cache of its own.
pub proof fn law_shared_caches_exist(cfg: ModelConfig, cat: Catalog, il: int)
    requires
        loadable(cfg, cat),
        0 <= il < cfg.trunk(),
        reads_shared(cfg, cat, il),
    ensures
        0 <= share_target(cfg, il)->0 < kv_from(cfg) <= il,
        share_target(cfg, share_target(cfg, il)->0) is None,
{
}

/// A layer's weights that get a split-plane mirror: with the setting on, the projections of
/// Gemma-4 layers that have a shared branch, and that branch.
pub open spec fn mirrored(gemma4: bool, q4rp: bool, branch: bool, full: bool) -> Seq<Role> {
    if gemma4 && q4rp && branch {
        (if full {
            seq![Role::Wq, Role::Wk, Role::Wv, Role::Wo]
        } else {
            Seq::empty()
        }) + seq![Role::SharedGate, Role::SharedUp, Role::SharedDown]
    } else {
        Seq::empty()
    }
}

/// Lists a layer's weights that get a split-plane mirror.
pub fn mirror_roles(gemma4: bool, q4rp: bool, branch: bool, full: bool) -> (r: Vec<Role>)
    ensures
        r@ == mirrored(gemma4, q4rp, branch, full),
{
    let mut r: Vec<Role> = Vec::new();
    if gemma4 && q4rp && branch {
        if full {
            r.push(Role::Wq);
            r.push(Role::Wk);
            r.push(Role::Wv);
            r.push(Role::Wo);
        }
        r.push(Role::SharedGate);
        r.push(Role::SharedUp);
        r.push(Role::SharedDown);
    }
    assert(r@ =~= mirrored(gemma4, q4rp, branch, full));
    r
}

/// Code and bytes per row of the per-layer embedding table, which has `rows` rows in `len` bytes;
/// none in a format that its lookup cannot read.
pub fn per_layer_table(ty: GgmlType, len: usize, rows: usize) -> (r: Option<(i32, usize)>)
    requires
        rows > 0,
    ensures
        r == (if ty == GgmlType::Q6_K || ty == GgmlType::Q8_0 {
            Some((ty.code(), (len / rows) as usize))
        } else {
            None
        }),
{
    if ty == GgmlType::Q6_K || ty == GgmlType::Q8_0 {
        Some((ty.qtype(), len / rows))
    } else {
        None
    }
}

/// A layer without a cache of its own reads one of its own kind, where the last two layers that
/// have one are a windowed layer and, after it, one that is not.
pub proof fn law_shared_caches_match(cfg: ModelConfig, g: Gemma4Config, il: int)
    requires
        cfg.gemma4 == Some(g),
        windowed(g, kv_from(cfg) - 2),
        !windowed(g, kv_from(cfg) - 1),
        share_target(cfg, il) is Some,
    ensures
        windowed(g, share_target(cfg, il)->0) == windowed(g, il),
{
}

/// A draft layer reads the cache that the main model's own trailing layers of its kind read.
pub proof fn law_drafter_shares_caches(cfg: ModelConfig, g: Gemma4Config, il: int)
    requires
        cfg.gemma4 == Some(g),
        share_target(cfg, il) is Some,
    ensures
        share_target(cfg, il) == Some(
            crate::gemma_draft::kv_target(
                cfg.trunk() as int,
                g.shared_kv_layers as int,
                windowed(g, il),
            ),
        ),
{
}

/// The drafting head is the one of another file where one is given, and otherwise the block of
/// the checkpoint; only a head that drafts is trimmed, and none at full precision.
pub proof fn law_draft_heads(cfg: ModelConfig, cat: Catalog, o: LoadOptions)
    ensures
        o.mtp_draft <==> draft_head(cfg, cat, o) == DraftHead::External,
        draft_head(cfg, cat, o) == DraftHead::Embedded ==> has_draft(cfg, cat),
        draft_head(cfg, cat, o) == DraftHead::Absent ==> !has_draft(cfg, cat) && !trims(
            cfg,
            cat,
            o,
        ),
        o.full_prec || !o.frspec_trim ==> !trims(cfg, cat, o),
        o.frspec_trim && !o.full_prec && draft_head(cfg, cat, o) != DraftHead::Absent ==> trims(
            cfg,
            cat,
            o,
        ),
{
}

} // verus!
