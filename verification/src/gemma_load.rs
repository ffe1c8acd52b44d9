//! Loading plan of the Gemma-4 assistant draft model.

use vstd::prelude::*;
use vstd::string::*;

use crate::loader;
use crate::loader::{Catalog, How, Need, Role, Want};
use crate::model_load;

verus! {

/// What the checkpoint says of itself. Numbers that it does not give, or that are not unsigned
/// integers, are absent.
pub struct DraftMeta<'a> {
    pub arch: Option<&'a str>,
    pub block_count: Option<u64>,
    pub embedding_length: Option<u64>,
    pub embedding_length_out: Option<u64>,
    pub n_embd_backbone: Option<u64>,
    pub key_length: Option<u64>,
    pub key_length_swa: Option<u64>,
    pub sliding_window: Option<u64>,
    /// The entries of the window pattern that are unsigned integers, if there is a pattern.
    pub sliding_window_pattern: Option<&'a [u64]>,
}

/// The shape of the draft model.
#[derive(Debug)]
pub struct DraftShape {
    pub n_layer: usize,
    pub n_embd: usize,
    pub n_backbone: usize,
    pub sliding_window: usize,
    /// Per layer, whether its attention is windowed, and the width of its heads.
    pub layers: Vec<(bool, usize)>,
    pub loads: Vec<Want>,
}

/// Why a drafter cannot be loaded.
#[derive(Debug)]
pub enum GemmaLoadError {
    /// The checkpoint is no assistant draft model.
    Arch,
    NoPattern,
    /// The window pattern does not reach this layer.
    ShortPattern { layer: usize },
    /// A required tensor is missing.
    Missing { name: String },
}

/// The draft model goes by two spellings.
pub open spec fn is_assistant(arch: Option<&str>) -> bool {
    arch matches Some(a) && (a@ == "gemma4-assistant"@ || a@ == "gemma4_assistant"@)
}

/// A number of the checkpoint, cut to 32 bits; zero when it is absent.
pub open spec fn meta_u32(v: Option<u64>) -> int {
    match v {
        Some(x) => x as int % 0x1_0000_0000,
        None => 0,
    }
}

/// Width of the main model, under either of its names.
pub open spec fn backbone(m: DraftMeta) -> int {
    if meta_u32(m.embedding_length_out) == 0 {
        meta_u32(m.n_embd_backbone)
    } else {
        meta_u32(m.embedding_length_out)
    }
}

/// The tensors of one layer.
pub open spec fn layer_wants(il: nat) -> Seq<loader::WantView> {
    seq![
        (loader::WantView {
            name: loader::blk_name(il, "layer_output_scale.weight"@),
            role: Role::LayerScale,
            how: How::Scalar,
            need: Need::Required,
        }),
        loader::req(il, "attn_q.weight"@, Role::Wq),
        loader::req(il, "attn_norm.weight"@, Role::AttnNorm),
        loader::req(il, "attn_output.weight"@, Role::Wo),
        loader::req(il, "attn_q_norm.weight"@, Role::QNorm),
        loader::req(il, "post_attention_norm.weight"@, Role::PostAttnNorm),
        loader::req(il, "ffn_norm.weight"@, Role::FfnNorm),
        loader::req(il, "ffn_gate.weight"@, Role::FfnGate),
        loader::req(il, "ffn_up.weight"@, Role::FfnUp),
        loader::req(il, "ffn_down.weight"@, Role::FfnDown),
        loader::req(il, "post_ffw_norm.weight"@, Role::PostFfwNorm),
    ]
}

pub open spec fn layers_wants(n: nat) -> Seq<loader::WantView>
    decreases n,
{
    if n == 0 {
        Seq::empty()
    } else {
        layers_wants((n - 1) as nat) + layer_wants((n - 1) as nat)
    }
}

/// What follows the layers: rotary factors, the head, as raw rows where it is trimmed, the two
/// projections under either of their names, and the output norm.
pub open spec fn tail_wants(cat: Catalog, trimmed: bool) -> Seq<loader::WantView> {
    let nextn = cat.lists("nextn.pre_projection.weight"@);
    seq![
        model_load::named("rope_freqs.weight"@, Role::RopeFreqs, How::Floats, Need::Required),
        model_load::named(
            "token_embd.weight"@,
            Role::Head,
            if trimmed {
                How::Raw
            } else {
                How::Device
            },
            Need::Required,
        ),
        model_load::named(
            if nextn {
                "nextn.pre_projection.weight"@
            } else {
                "mtp.pre_projection.weight"@
            },
            Role::PreProj,
            How::Device,
            Need::Required,
        ),
        model_load::named(
            if nextn {
                "nextn.post_projection.weight"@
            } else {
                "mtp.post_projection.weight"@
            },
            Role::PostProj,
            How::Device,
            Need::Required,
        ),
        model_load::named("output_norm.weight"@, Role::OutputNorm, How::Device, Need::Required),
    ]
}

pub open spec fn draft_wants(cat: Catalog, n_layer: nat, trimmed: bool) -> Seq<loader::WantView> {
    layers_wants(n_layer) + tail_wants(cat, trimmed)
}

/// Per layer, whether it is windowed, and the width of its heads.
pub open spec fn layer_shapes(pattern: Seq<u64>, n: nat, hd: int, hd_swa: int) -> Seq<
    (bool, usize),
> {
    Seq::new(
        n,
        |i: int|
            (
                pattern[i] != 0,
                (if pattern[i] != 0 {
                    hd_swa
                } else {
                    hd
                }) as usize,
            ),
    )
}

/// `v` cut to 32 bits, zero when it is absent.
fn cut(v: Option<u64>) -> (r: usize)
    ensures
        r == meta_u32(v),
{
    match v {
        Some(x) => (x % 0x1_0000_0000) as usize,
        None => 0,
    }
}

fn push_layer(ws: &mut Vec<Want>, il: usize)
    ensures
        loader::views(final(ws)@) == loader::views(old(ws)@) + layer_wants(il as nat),
{
    let ghost w0 = loader::views(ws@);
    loader::push_want(
        ws,
        loader::blk(il, "layer_output_scale.weight"),
        Role::LayerScale,
        How::Scalar,
        Need::Required,
    );
    loader::push_req(ws, il, "attn_q.weight", Role::Wq);
    loader::push_req(ws, il, "attn_norm.weight", Role::AttnNorm);
    loader::push_req(ws, il, "attn_output.weight", Role::Wo);
    loader::push_req(ws, il, "attn_q_norm.weight", Role::QNorm);
    loader::push_req(ws, il, "post_attention_norm.weight", Role::PostAttnNorm);
    loader::push_req(ws, il, "ffn_norm.weight", Role::FfnNorm);
    loader::push_req(ws, il, "ffn_gate.weight", Role::FfnGate);
    loader::push_req(ws, il, "ffn_up.weight", Role::FfnUp);
    loader::push_req(ws, il, "ffn_down.weight", Role::FfnDown);
    loader::push_req(ws, il, "post_ffw_norm.weight", Role::PostFfwNorm);
    assert(loader::views(ws@) =~= w0 + layer_wants(il as nat));
}

fn push_tail(ws: &mut Vec<Want>, cat: &Catalog, trimmed: bool)
    ensures
        loader::views(final(ws)@) == loader::views(old(ws)@) + tail_wants(*cat, trimmed),
{
    let ghost w0 = loader::views(ws@);
    loader::push_want(
        ws,
        "rope_freqs.weight".to_owned(),
        Role::RopeFreqs,
        How::Floats,
        Need::Required,
    );
    let how = if trimmed {
        How::Raw
    } else {
        How::Device
    };
    loader::push_want(ws, "token_embd.weight".to_owned(), Role::Head, how, Need::Required);
    let nextn = "nextn.pre_projection.weight".to_owned();
    if cat.has(&nextn) {
        loader::push_want(ws, nextn, Role::PreProj, How::Device, Need::Required);
        loader::push_want(
            ws,
            "nextn.post_projection.weight".to_owned(),
            Role::PostProj,
            How::Device,
            Need::Required,
        );
    } else {
        loader::push_want(
            ws,
            "mtp.pre_projection.weight".to_owned(),
            Role::PreProj,
            How::Device,
            Need::Required,
        );
        loader::push_want(
            ws,
            "mtp.post_projection.weight".to_owned(),
            Role::PostProj,
            How::Device,
            Need::Required,
        );
    }
    loader::push_want(
        ws,
        "output_norm.weight".to_owned(),
        Role::OutputNorm,
        How::Device,
        Need::Required,
    );
    assert(loader::views(ws@) =~= w0 + tail_wants(*cat, trimmed));
}

fn check_arch(arch: Option<&str>) -> (r: bool)
    ensures
        r == is_assistant(arch),
{
    match arch {
        Some(a) => {
            let s = a.to_owned();
            s == "gemma4-assistant".to_owned() || s == "gemma4_assistant".to_owned()
        },
        None => false,
    }
}

/// Plans the draft model; `trimmed` where its head is gathered from ranked rows.
pub fn load(meta: &DraftMeta, cat: &Catalog, trimmed: bool) -> (r: Result<
    DraftShape,
    GemmaLoadError,
>)
    ensures
        match r {
            Ok(d) => {
                let pattern = meta.sliding_window_pattern->0@;
                let n = meta_u32(meta.block_count);
                &&& is_assistant(meta.arch) && meta.sliding_window_pattern is Some
                &&& n <= pattern.len()
                &&& loader::first_unmet(draft_wants(*cat, n as nat, trimmed), *cat) is None
                &&& loader::views(d.loads@) == loader::kept(
                    draft_wants(*cat, n as nat, trimmed),
                    *cat,
                )
                &&& d.n_layer == n
                &&& d.n_embd == meta_u32(meta.embedding_length)
                &&& d.n_backbone == backbone(*meta)
                &&& d.sliding_window == meta_u32(meta.sliding_window)
                &&& d.layers@ == layer_shapes(
                    pattern,
                    n as nat,
                    meta_u32(meta.key_length),
                    meta_u32(meta.key_length_swa),
                )
            },
            Err(GemmaLoadError::Arch) => !is_assistant(meta.arch),
            Err(GemmaLoadError::NoPattern) => is_assistant(meta.arch)
                && meta.sliding_window_pattern is None,
            Err(GemmaLoadError::ShortPattern { layer }) => {
                let pattern = meta.sliding_window_pattern->0@;
                &&& is_assistant(meta.arch) && meta.sliding_window_pattern is Some
                &&& layer == pattern.len() < meta_u32(meta.block_count)
                &&& loader::first_unmet(layers_wants(pattern.len()), *cat) is None
            },
            Err(GemmaLoadError::Missing { name }) => {
                let pattern = meta.sliding_window_pattern->0@;
                let n = meta_u32(meta.block_count);
                let ws = if n <= pattern.len() {
                    draft_wants(*cat, n as nat, trimmed)
                } else {
                    layers_wants(pattern.len())
                };
                &&& is_assistant(meta.arch) && meta.sliding_window_pattern is Some
                &&& loader::first_unmet(ws, *cat) matches Some(i) && name@ == ws[i].name
            },
        },
{
    if !check_arch(meta.arch) {
        return Err(GemmaLoadError::Arch);
    }
    let pattern = match meta.sliding_window_pattern {
        Some(p) => p,
        None => {
            return Err(GemmaLoadError::NoPattern);
        },
    };
    let n_layer = cut(meta.block_count);
    let n_embd = cut(meta.embedding_length);
    let out = cut(meta.embedding_length_out);
    let n_backbone = if out == 0 {
        cut(meta.n_embd_backbone)
    } else {
        out
    };
    let hd_g = cut(meta.key_length);
    let hd_s = cut(meta.key_length_swa);
    let n: usize = if n_layer <= pattern.len() {
        n_layer
    } else {
        pattern.len()
    };
    let mut ws: Vec<Want> = Vec::new();
    let mut layers: Vec<(bool, usize)> = Vec::new();
    let mut il: usize = 0;
    let ghost shapes = layer_shapes(pattern@, n as nat, hd_g as int, hd_s as int);
    assert(loader::views(ws@) =~= layers_wants(0));
    while il < n
        invariant
            il <= n <= pattern@.len(),
            shapes == layer_shapes(pattern@, n as nat, hd_g as int, hd_s as int),
            loader::views(ws@) == layers_wants(il as nat),
            layers@ == shapes.take(il as int),
        decreases n - il,
    {
        let swa = pattern[il] != 0;
        let hd = if swa {
            hd_s
        } else {
            hd_g
        };
        push_layer(&mut ws, il);
        layers.push((swa, hd));
        assert(layers@ =~= shapes.take(il + 1));
        il += 1;
    }
    assert(shapes.take(n as int) =~= shapes);
    if n < n_layer {
        return match loader::resolve(&ws, cat) {
            Ok(_) => Err(GemmaLoadError::ShortPattern { layer: n }),
            Err(name) => Err(GemmaLoadError::Missing { name }),
        };
    }
    push_tail(&mut ws, cat, trimmed);
    assert(loader::views(ws@) =~= draft_wants(*cat, n as nat, trimmed));
    match loader::resolve(&ws, cat) {
        Ok(loads) => Ok(
            DraftShape {
                n_layer,
                n_embd,
                n_backbone,
                sliding_window: cut(meta.sliding_window),
                layers,
                loads,
            },
        ),
        Err(name) => Err(GemmaLoadError::Missing { name }),
    }
}

/// Heads of a layer, from the width of its query projection.
pub fn head_count(q_out: usize, hd: usize) -> (r: usize)
    requires
        hd > 0,
    ensures
        r == q_out as int / hd as int,
{
    q_out / hd
}

/// The weights outside the layers that get a split-plane mirror. An adaptive head gets none: its
/// rows change in place, and the mirror would not.
pub open spec fn mirrored(adaptive: bool) -> Seq<Role> {
    if adaptive {
        seq![Role::PreProj, Role::PostProj]
    } else {
        seq![Role::PreProj, Role::PostProj, Role::Head]
    }
}

/// Lists the weights outside the layers that get a split-plane mirror.
pub fn mirror_roles(adaptive: bool) -> (r: Vec<Role>)
    ensures
        r@ == mirrored(adaptive),
{
    let mut r: Vec<Role> = Vec::new();
    r.push(Role::PreProj);
    r.push(Role::PostProj);
    if !adaptive {
        r.push(Role::Head);
    }
    assert(r@ =~= mirrored(adaptive));
    r
}

/// Lists the weights of a layer that get a split-plane mirror.
pub fn layer_mirror_roles() -> (r: Vec<Role>)
    ensures
        r@ == seq![Role::Wq, Role::Wo, Role::FfnGate, Role::FfnUp, Role::FfnDown],
{
    let r: Vec<Role> = vec![Role::Wq, Role::Wo, Role::FfnGate, Role::FfnUp, Role::FfnDown];
    assert(r@ =~= seq![Role::Wq, Role::Wo, Role::FfnGate, Role::FfnUp, Role::FfnDown]);
    r
}

/// Windowed layers have heads of the windowed width and the others of the other; two layers of a
/// kind have the same.
pub proof fn law_layer_shapes(pattern: Seq<u64>, n: nat, hd: usize, hd_swa: usize, i: int, j: int)
    requires
        0 <= i < n <= pattern.len(),
        0 <= j < n,
    ensures
        ({
            let l = layer_shapes(pattern, n, hd as int, hd_swa as int);
            &&& l.len() == n
            &&& l[i].0 <==> pattern[i] != 0
            &&& l[i].0 ==> l[i].1 == hd_swa
            &&& !l[i].0 ==> l[i].1 == hd
            &&& l[i].0 == l[j].0 ==> l[i].1 == l[j].1
        }),
{
}

/// The width of the main model's rows is the one that the checkpoint names as its output, and the
/// other where it names none.
pub proof fn law_backbone(meta: DraftMeta)
    ensures
        meta.embedding_length_out is None ==> backbone(meta) == meta_u32(meta.n_embd_backbone),
        meta.embedding_length_out matches Some(v) ==> 0 < v < 0x1_0000_0000 ==> backbone(meta) == v,
{
}

} // verus!
