//! What a checkpoint's tensors are called, and which of them a model loads.
//!
//! A loader lists what it wants, in the order in which it wants it: required tensors and optional
//! ones. `resolve` checks the list against the names that a checkpoint has. It keeps what is
//! there and stops at the first required name that is not.

use vstd::prelude::*;
use vstd::string::*;

use crate::config::{LayerKind, ModelConfig};
use crate::text;

verus! {

/// What a tensor is for.
#[derive(Clone, Copy, Debug, PartialEq, Eq, Structural)]
pub enum Role {
    TokenEmbd,
    OutputNorm,
    Output,
    AttnNorm,
    PostAttnNorm,
    Wq,
    Wk,
    Wv,
    Wo,
    QNorm,
    KNorm,
    Wqkv,
    WqkvGate,
    SsmBeta,
    SsmAlpha,
    SsmA,
    SsmDt,
    SsmConv1d,
    SsmNorm,
    SsmOut,
    FfnGate,
    FfnUp,
    FfnDown,
    GateExps,
    UpExps,
    DownExps,
    ExpProbsB,
    GateInp,
    GateInpShexp,
    GateShexp,
    UpShexp,
    DownShexp,
    FfnNorm,
    PostFfwNorm,
    PostFfwNorm1,
    PreFfwNorm2,
    PostFfwNorm2,
    SharedGate,
    SharedUp,
    SharedDown,
    RouterScale,
    PerExpertScale,
    LayerScale,
    InpGate,
    Proj,
    PostNorm,
    Enorm,
    Hnorm,
    EhProj,
    SharedHeadNorm,
    SharedHead,
    RopeFreqs,
    PerLayerTokenEmbd,
    PerLayerModelProj,
    PerLayerProjNorm,
    Fc,
    HiddenNorm,
    PreProj,
    PostProj,
    Head,
    /// The map from the rows of a head to tokens.
    D2t,
}

/// How a tensor is brought in.
#[derive(Clone, Copy, Debug, PartialEq, Eq, Structural)]
pub enum How {
    /// As a device tensor.
    Device,
    /// As floats on the host.
    Floats,
    /// As one float on the host.
    Scalar,
    /// As raw bytes on the host.
    Raw,
    /// Experts, stacked in one tensor.
    Stacked,
    /// Experts, the rows `from` up to `to` of each in a stacked tensor.
    Split { from: usize, to: usize },
    /// Experts, in a tensor each.
    Gathered { n_expert: usize },
    /// Experts, the hottest pinned and the others mapped from disk.
    Tiered,
}

/// Whether a name has to be there.
#[derive(Clone, Copy, Debug, PartialEq, Eq, Structural)]
pub enum Need {
    Required,
    Optional,
    /// The checkpoint finds it under other names.
    Elsewhere,
}

/// A wanted tensor.
#[derive(Debug)]
pub struct Want {
    pub name: String,
    pub role: Role,
    pub how: How,
    pub need: Need,
}

/// A wanted tensor, its name as text.
pub ghost struct WantView {
    pub name: Seq<char>,
    pub role: Role,
    pub how: How,
    pub need: Need,
}

impl View for Want {
    type V = WantView;

    open spec fn view(&self) -> WantView {
        WantView { name: self.name@, role: self.role, how: self.how, need: self.need }
    }
}

/// A list of wanted tensors, their names as text.
pub open spec fn views(ws: Seq<Want>) -> Seq<WantView> {
    ws.map_values(|w: Want| w@)
}

/// The names that a checkpoint has.
pub struct Catalog {
    pub names: Vec<String>,
}

impl Catalog {
    /// The checkpoint has `name`.
    pub open spec fn lists(&self, name: Seq<char>) -> bool {
        exists|i: int| 0 <= i < self.names@.len() && (#[trigger] self.names@[i])@ == name
    }

    /// Whether the checkpoint has `name`.
    pub fn has(&self, name: &String) -> (r: bool)
        ensures
            r == self.lists(name@),
    {
        let mut i: usize = 0;
        while i < self.names.len()
            invariant
                i <= self.names@.len(),
                forall|j: int| 0 <= j < i ==> (#[trigger] self.names@[j])@ != name@,
            decreases self.names@.len() - i,
        {
            if self.names[i] == *name {
                assert(self.names@[i as int]@ == name@);
                return true;
            }
            i += 1;
        }
        false
    }
}

/// A want that a checkpoint does not meet.
pub open spec fn unmet(w: WantView, cat: Catalog) -> bool {
    w.need == Need::Required && !cat.lists(w.name)
}

/// A want that is loaded.
pub open spec fn loaded(w: WantView, cat: Catalog) -> bool {
    w.need != Need::Optional || cat.lists(w.name)
}

/// What is loaded of a list.
pub open spec fn kept(ws: Seq<WantView>, cat: Catalog) -> Seq<WantView> {
    ws.filter(|w: WantView| loaded(w, cat))
}

/// Index of the first want that is not met.
pub open spec fn first_unmet(ws: Seq<WantView>, cat: Catalog) -> Option<int>
    decreases ws.len(),
{
    if ws.len() == 0 {
        None
    } else {
        match first_unmet(ws.drop_last(), cat) {
            Some(i) => Some(i),
            None => if unmet(ws.last(), cat) {
                Some(ws.len() - 1)
            } else {
                None
            },
        }
    }
}

proof fn lemma_first_unmet(ws: Seq<WantView>, cat: Catalog)
    ensures
        match first_unmet(ws, cat) {
            Some(i) => 0 <= i < ws.len() && unmet(ws[i], cat) && forall|j: int|
                0 <= j < i ==> !unmet(#[trigger] ws[j], cat),
            None => forall|j: int| 0 <= j < ws.len() ==> !unmet(#[trigger] ws[j], cat),
        },
    decreases ws.len(),
{
    if ws.len() > 0 {
        lemma_first_unmet(ws.drop_last(), cat);
        let d = ws.drop_last();
        match first_unmet(d, cat) {
            Some(i) => {
                assert(ws[i] == d[i]);
                assert forall|j: int| 0 <= j < i implies !unmet(#[trigger] ws[j], cat) by {
                    assert(ws[j] == d[j]);
                }
            },
            None => {
                assert forall|j: int| 0 <= j < d.len() implies !unmet(#[trigger] ws[j], cat) by {
                    assert(ws[j] == d[j]);
                }
            },
        }
    }
}

/// A list of wants is refused exactly when a required name is missing, and the name reported is
/// the first such one.
pub proof fn law_refused_iff_missing(ws: Seq<WantView>, cat: Catalog)
    ensures
        first_unmet(ws, cat) is Some <==> exists|i: int|
            0 <= i < ws.len() && unmet(#[trigger] ws[i], cat),
        first_unmet(ws, cat) matches Some(i) ==> 0 <= i < ws.len() && unmet(ws[i], cat) && forall|
            j: int,
        |
            0 <= j < i ==> !unmet(#[trigger] ws[j], cat),
{
    lemma_first_unmet(ws, cat);
    match first_unmet(ws, cat) {
        Some(i) => {
            assert(unmet(ws[i], cat));
        },
        None => {},
    }
}

/// What is loaded is there: every name of an accepted list is in the checkpoint, but for those
/// that it finds under other names.
pub proof fn law_loaded_names_are_there(ws: Seq<WantView>, cat: Catalog)
    requires
        first_unmet(ws, cat) is None,
    ensures
        forall|i: int|
            0 <= i < kept(ws, cat).len() ==> {
                let w = #[trigger] kept(ws, cat)[i];
                w.need != Need::Elsewhere ==> cat.lists(w.name)
            },
{
    broadcast use vstd::seq_lib::group_filter_ensures;

    lemma_first_unmet(ws, cat);
    let f = |w: WantView| loaded(w, cat);
    assert forall|i: int| 0 <= i < kept(ws, cat).len() implies {
        let w = #[trigger] kept(ws, cat)[i];
        w.need != Need::Elsewhere ==> cat.lists(w.name)
    } by {
        let w = ws.filter(f)[i];
        assert(ws.filter(f).contains(w));
        assert(f(w));
        lemma_filter_contains(ws, f, w);
        let k = choose|k: int| 0 <= k < ws.len() && ws[k] == w;
        assert(!unmet(ws[k], cat));
    }
}

pub proof fn lemma_filter_contains(ws: Seq<WantView>, f: spec_fn(WantView) -> bool, w: WantView)
    requires
        ws.filter(f).contains(w),
    ensures
        ws.contains(w),
    decreases ws.len(),
{
    reveal(Seq::filter);
    if ws.len() > 0 {
        let d = ws.drop_last();
        if d.filter(f).contains(w) {
            lemma_filter_contains(d, f, w);
            let k = choose|k: int| 0 <= k < d.len() && d[k] == w;
            assert(ws[k] == w);
        } else {
            let sub = d.filter(f);
            let k = choose|k: int| 0 <= k < ws.filter(f).len() && ws.filter(f)[k] == w;
            if k < sub.len() {
                assert(sub[k] == w);
            }
            assert(ws[ws.len() - 1] == w);
        }
    }
}

/// Keeps what is there of `ws`, or names the first required tensor that is not.
pub fn resolve(ws: &Vec<Want>, cat: &Catalog) -> (r: Result<Vec<Want>, String>)
    ensures
        match r {
            Ok(v) => first_unmet(views(ws@), *cat) is None && views(v@) == kept(
                views(ws@),
                *cat,
            ),
            Err(name) => first_unmet(views(ws@), *cat) matches Some(i) && 0 <= i < ws@.len()
                && name@ == views(ws@)[i].name,
        },
{
    let ghost f = |w: WantView| loaded(w, *cat);
    let ghost all = views(ws@);
    let mut out: Vec<Want> = Vec::new();
    let mut i: usize = 0;
    proof {
        reveal(Seq::filter);
        assert(views(out@) =~= all.take(0).filter(f));
    }
    while i < ws.len()
        invariant
            i <= ws@.len(),
            all == views(ws@),
            f == (|w: WantView| loaded(w, *cat)),
            first_unmet(all.take(i as int), *cat) is None,
            views(out@) == all.take(i as int).filter(f),
        decreases ws@.len() - i,
    {
        let w = &ws[i];
        let here = cat.has(&w.name);
        let ghost t = all.take(i + 1);
        proof {
            assert(t.drop_last() =~= all.take(i as int));
            assert(t.last() == w@);
            reveal(Seq::filter);
        }
        match w.need {
            Need::Required => {
                if !here {
                    proof {
                        lemma_unmet_prefix(all, *cat, i as int);
                    }
                    return Err(w.name.clone());
                }
            },
            _ => {},
        }
        let keep = match w.need {
            Need::Optional => here,
            _ => true,
        };
        if keep {
            let n = Want { name: w.name.clone(), role: w.role, how: w.how, need: w.need };
            let ghost before = views(out@);
            out.push(n);
            assert(views(out@) =~= before.push(w@));
        }
        i += 1;
    }
    assert(all.take(ws@.len() as int) =~= all);
    Ok(out)
}

proof fn lemma_unmet_prefix(ws: Seq<WantView>, cat: Catalog, i: int)
    requires
        0 <= i < ws.len(),
        first_unmet(ws.take(i), cat) is None,
        unmet(ws[i], cat),
    ensures
        first_unmet(ws, cat) == Some(i),
{
    lemma_first_unmet(ws, cat);
    lemma_first_unmet(ws.take(i), cat);
    match first_unmet(ws, cat) {
        Some(k) => {
            if k < i {
                assert(ws.take(i)[k] == ws[k]);
            }
        },
        None => {
            assert(!unmet(ws[i], cat));
        },
    }
}

/// Name of tensor `suffix` of block `il`.
pub open spec fn blk_name(il: nat, suffix: Seq<char>) -> Seq<char> {
    "blk."@ + text::decimal(il) + "."@ + suffix
}

/// Name of tensor `suffix` of block `il`.
pub fn blk(il: usize, suffix: &str) -> (r: String)
    ensures
        r@ == blk_name(il as nat, suffix@),
{
    let mut s = "blk.".to_owned();
    text::push_decimal(&mut s, il as u64);
    s.append(".");
    s.append(suffix);
    s
}

pub open spec fn req(il: nat, suffix: Seq<char>, role: Role) -> WantView {
    WantView { name: blk_name(il, suffix), role, how: How::Device, need: Need::Required }
}

pub open spec fn opt(il: nat, suffix: Seq<char>, role: Role) -> WantView {
    WantView { name: blk_name(il, suffix), role, how: How::Device, need: Need::Optional }
}

pub(crate) fn push_req(ws: &mut Vec<Want>, il: usize, suffix: &str, role: Role)
    ensures
        views(final(ws)@) == views(old(ws)@).push(req(il as nat, suffix@, role)),
{
    ws.push(Want { name: blk(il, suffix), role, how: How::Device, need: Need::Required });
    assert(views(ws@) =~= views(old(ws)@).push(req(il as nat, suffix@, role)));
}

pub(crate) fn push_opt(ws: &mut Vec<Want>, il: usize, suffix: &str, role: Role)
    ensures
        views(final(ws)@) == views(old(ws)@).push(opt(il as nat, suffix@, role)),
{
    ws.push(Want { name: blk(il, suffix), role, how: How::Device, need: Need::Optional });
    assert(views(ws@) =~= views(old(ws)@).push(opt(il as nat, suffix@, role)));
}

pub(crate) fn push_want(ws: &mut Vec<Want>, name: String, role: Role, how: How, need: Need)
    ensures
        views(final(ws)@) == views(old(ws)@).push((WantView { name: name@, role, how, need })),
{
    let ghost w = WantView { name: name@, role, how, need };
    ws.push(Want { name, role, how, need });
    assert(views(ws@) =~= views(old(ws)@).push(w));
}

/// The tensors of a block's token mixer. A full-attention block without a value projection takes
/// its key projection for it.
pub open spec fn mixer_wants(cat: Catalog, il: nat, kind: LayerKind) -> Seq<WantView> {
    match kind {
        LayerKind::FullAttention => seq![
            req(il, "attn_q.weight"@, Role::Wq),
            req(il, "attn_k.weight"@, Role::Wk),
            req(
                il,
                if cat.lists(blk_name(il, "attn_v.weight"@)) {
                    "attn_v.weight"@
                } else {
                    "attn_k.weight"@
                },
                Role::Wv,
            ),
            req(il, "attn_output.weight"@, Role::Wo),
            req(il, "attn_q_norm.weight"@, Role::QNorm),
            req(il, "attn_k_norm.weight"@, Role::KNorm),
        ],
        LayerKind::LinearAttention => seq![
            req(il, "attn_qkv.weight"@, Role::Wqkv),
            req(il, "attn_gate.weight"@, Role::WqkvGate),
            req(il, "ssm_beta.weight"@, Role::SsmBeta),
            req(il, "ssm_alpha.weight"@, Role::SsmAlpha),
            req(il, "ssm_a"@, Role::SsmA),
            req(il, "ssm_dt.bias"@, Role::SsmDt),
            req(il, "ssm_conv1d.weight"@, Role::SsmConv1d),
            req(il, "ssm_norm.weight"@, Role::SsmNorm),
            req(il, "ssm_out.weight"@, Role::SsmOut),
        ],
    }
}

/// Lists the tensors of a block's token mixer.
pub fn load_mixer_kind(ws: &mut Vec<Want>, cat: &Catalog, il: usize, kind: LayerKind)
    ensures
        views(final(ws)@) == views(old(ws)@) + mixer_wants(*cat, il as nat, kind),
{
    let ghost w0 = views(ws@);
    match kind {
        LayerKind::FullAttention => {
            push_req(ws, il, "attn_q.weight", Role::Wq);
            push_req(ws, il, "attn_k.weight", Role::Wk);
            if cat.has(&blk(il, "attn_v.weight")) {
                push_req(ws, il, "attn_v.weight", Role::Wv);
            } else {
                push_req(ws, il, "attn_k.weight", Role::Wv);
            }
            push_req(ws, il, "attn_output.weight", Role::Wo);
            push_req(ws, il, "attn_q_norm.weight", Role::QNorm);
            push_req(ws, il, "attn_k_norm.weight", Role::KNorm);
        },
        LayerKind::LinearAttention => {
            push_req(ws, il, "attn_qkv.weight", Role::Wqkv);
            push_req(ws, il, "attn_gate.weight", Role::WqkvGate);
            push_req(ws, il, "ssm_beta.weight", Role::SsmBeta);
            push_req(ws, il, "ssm_alpha.weight", Role::SsmAlpha);
            push_req(ws, il, "ssm_a", Role::SsmA);
            push_req(ws, il, "ssm_dt.bias", Role::SsmDt);
            push_req(ws, il, "ssm_conv1d.weight", Role::SsmConv1d);
            push_req(ws, il, "ssm_norm.weight", Role::SsmNorm);
            push_req(ws, il, "ssm_out.weight", Role::SsmOut);
        },
    }
    assert(views(ws@) =~= w0 + mixer_wants(*cat, il as nat, kind));
}

/// Whether block `il` has a dense feed-forward block though the model routes experts: M3 layers
/// whose frequency is zero, the leading layers of Hy3, and Gemma-4 blocks without expert tensors.
pub open spec fn dense_override(cfg: ModelConfig, cat: Catalog, il: nat) -> bool {
    ||| (cfg.m3_moe_layer_freq matches Some(f) && il < f@.len() && f@[il as int] == 0)
    ||| (cfg.hy3_first_k_dense matches Some(k) && il < k)
    ||| (cfg.gemma4 is Some && !cat.lists(blk_name(il, "ffn_gate_exps.weight"@)) && !cat.lists(
        blk_name(il, "ffn_gate_up_exps.weight"@),
    ))
}

/// Whether block `il` routes experts.
pub open spec fn routes(cfg: ModelConfig, cat: Catalog, il: nat) -> bool {
    cfg.moe is Some && !dense_override(cfg, cat, il)
}

/// One stack of experts: as it stands where the checkpoint has it, from one tensor per expert
/// otherwise.
pub open spec fn exps(cat: Catalog, il: nat, suffix: Seq<char>, role: Role, n: usize) -> WantView {
    let name = blk_name(il, suffix);
    if cat.lists(name) {
        WantView { name, role, how: How::Stacked, need: Need::Required }
    } else {
        WantView { name, role, how: How::Gathered { n_expert: n }, need: Need::Elsewhere }
    }
}

/// The routed experts. With the disk tier every stack is tiered; a fused gate and up stack is
/// split, gate rows first.
pub open spec fn expert_wants(cfg: ModelConfig, cat: Catalog, il: nat, tiered: bool) -> Seq<
    WantView,
> {
    let moe = cfg.moe->Some_0;
    let n = moe.expert_count;
    let ff = moe.expert_ff_length;
    let gate = blk_name(il, "ffn_gate_exps.weight"@);
    let up = blk_name(il, "ffn_up_exps.weight"@);
    let down = blk_name(il, "ffn_down_exps.weight"@);
    let fused = blk_name(il, "ffn_gate_up_exps.weight"@);
    if tiered {
        seq![
            (WantView { name: gate, role: Role::GateExps, how: How::Tiered, need: Need::Required }),
            (WantView { name: up, role: Role::UpExps, how: How::Tiered, need: Need::Required }),
            (WantView { name: down, role: Role::DownExps, how: How::Tiered, need: Need::Required }),
        ]
    } else if !cat.lists(gate) && cat.lists(fused) {
        seq![
            (WantView {
                name: fused,
                role: Role::GateExps,
                how: How::Split { from: 0, to: ff },
                need: Need::Required,
            }),
            (WantView {
                name: fused,
                role: Role::UpExps,
                how: How::Split { from: ff, to: (2 * ff) as usize },
                need: Need::Required,
            }),
            exps(cat, il, "ffn_down_exps.weight"@, Role::DownExps, n),
        ]
    } else {
        seq![
            exps(cat, il, "ffn_gate_exps.weight"@, Role::GateExps, n),
            exps(cat, il, "ffn_up_exps.weight"@, Role::UpExps, n),
            exps(cat, il, "ffn_down_exps.weight"@, Role::DownExps, n),
        ]
    }
}

/// The tensors of a block's feed-forward block.
pub open spec fn ffn_wants(cfg: ModelConfig, cat: Catalog, il: nat, tiered: bool) -> Seq<WantView> {
    if routes(cfg, cat, il) {
        expert_wants(cfg, cat, il, tiered) + seq![
            (WantView {
                name: blk_name(il, "exp_probs_b.bias"@),
                role: Role::ExpProbsB,
                how: How::Floats,
                need: Need::Optional,
            }),
            req(il, "ffn_gate_inp.weight"@, Role::GateInp),
            opt(il, "ffn_gate_inp_shexp.weight"@, Role::GateInpShexp),
            opt(il, "ffn_gate_shexp.weight"@, Role::GateShexp),
            opt(il, "ffn_up_shexp.weight"@, Role::UpShexp),
            opt(il, "ffn_down_shexp.weight"@, Role::DownShexp),
        ]
    } else {
        seq![
            req(il, "ffn_gate.weight"@, Role::FfnGate),
            req(il, "ffn_up.weight"@, Role::FfnUp),
            req(il, "ffn_down.weight"@, Role::FfnDown),
        ]
    }
}

fn is_dense(cfg: &ModelConfig, cat: &Catalog, il: usize) -> (r: bool)
    ensures
        r == dense_override(*cfg, *cat, il as nat),
{
    let m3 = match &cfg.m3_moe_layer_freq {
        Some(f) => il < f.len() && f[il] == 0,
        None => false,
    };
    let hy3 = match cfg.hy3_first_k_dense {
        Some(k) => il < k,
        None => false,
    };
    let gemma = cfg.gemma4.is_some() && !cat.has(&blk(il, "ffn_gate_exps.weight")) && !cat.has(
        &blk(il, "ffn_gate_up_exps.weight"),
    );
    m3 || hy3 || gemma
}

fn push_exps(ws: &mut Vec<Want>, cat: &Catalog, il: usize, suffix: &str, role: Role, n: usize)
    ensures
        views(final(ws)@) == views(old(ws)@).push(exps(*cat, il as nat, suffix@, role, n)),
{
    let name = blk(il, suffix);
    if cat.has(&name) {
        push_want(ws, name, role, How::Stacked, Need::Required);
    } else {
        push_want(ws, name, role, How::Gathered { n_expert: n }, Need::Elsewhere);
    }
}

fn push_experts(ws: &mut Vec<Want>, cfg: &ModelConfig, cat: &Catalog, il: usize, tiered: bool)
    requires
        cfg.moe matches Some(m) && 2 * m.expert_ff_length <= usize::MAX,
    ensures
        views(final(ws)@) == views(old(ws)@) + expert_wants(*cfg, *cat, il as nat, tiered),
{
    let ghost w0 = views(ws@);
    let moe = cfg.moe.unwrap();
    let n = moe.expert_count;
    let ff = moe.expert_ff_length;
    if tiered {
        push_want(
            ws,
            blk(il, "ffn_gate_exps.weight"),
            Role::GateExps,
            How::Tiered,
            Need::Required,
        );
        push_want(ws, blk(il, "ffn_up_exps.weight"), Role::UpExps, How::Tiered, Need::Required);
        push_want(
            ws,
            blk(il, "ffn_down_exps.weight"),
            Role::DownExps,
            How::Tiered,
            Need::Required,
        );
    } else if !cat.has(&blk(il, "ffn_gate_exps.weight")) && cat.has(
        &blk(il, "ffn_gate_up_exps.weight"),
    ) {
        push_want(
            ws,
            blk(il, "ffn_gate_up_exps.weight"),
            Role::GateExps,
            How::Split { from: 0, to: ff },
            Need::Required,
        );
        push_want(
            ws,
            blk(il, "ffn_gate_up_exps.weight"),
            Role::UpExps,
            How::Split { from: ff, to: 2 * ff },
            Need::Required,
        );
        push_exps(ws, cat, il, "ffn_down_exps.weight", Role::DownExps, n);
    } else {
        push_exps(ws, cat, il, "ffn_gate_exps.weight", Role::GateExps, n);
        push_exps(ws, cat, il, "ffn_up_exps.weight", Role::UpExps, n);
        push_exps(ws, cat, il, "ffn_down_exps.weight", Role::DownExps, n);
    }
    assert(views(ws@) =~= w0 + expert_wants(*cfg, *cat, il as nat, tiered));
}

/// Lists the tensors of a block's feed-forward block; returns whether it routes experts.
pub fn load_ffn(ws: &mut Vec<Want>, cfg: &ModelConfig, cat: &Catalog, il: usize, tiered: bool) -> (r:
    bool)
    requires
        cfg.moe matches Some(m) ==> 2 * m.expert_ff_length <= usize::MAX,
    ensures
        r == routes(*cfg, *cat, il as nat),
        views(final(ws)@) == views(old(ws)@) + ffn_wants(*cfg, *cat, il as nat, tiered),
{
    let ghost w0 = views(ws@);
    let moe = cfg.moe.is_some() && !is_dense(cfg, cat, il);
    if moe {
        push_experts(ws, cfg, cat, il, tiered);
        push_want(
            ws,
            blk(il, "exp_probs_b.bias"),
            Role::ExpProbsB,
            How::Floats,
            Need::Optional,
        );
        push_req(ws, il, "ffn_gate_inp.weight", Role::GateInp);
        push_opt(ws, il, "ffn_gate_inp_shexp.weight", Role::GateInpShexp);
        push_opt(ws, il, "ffn_gate_shexp.weight", Role::GateShexp);
        push_opt(ws, il, "ffn_up_shexp.weight", Role::UpShexp);
        push_opt(ws, il, "ffn_down_shexp.weight", Role::DownShexp);
    } else {
        push_req(ws, il, "ffn_gate.weight", Role::FfnGate);
        push_req(ws, il, "ffn_up.weight", Role::FfnUp);
        push_req(ws, il, "ffn_down.weight", Role::FfnDown);
    }
    assert(views(ws@) =~= w0 + ffn_wants(*cfg, *cat, il as nat, tiered));
    moe
}

} // verus!
