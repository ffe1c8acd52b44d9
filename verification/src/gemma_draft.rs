//! The assistant draft model of Gemma-4: a few layers whose attention projects queries only and
//! reads the KV cache of the main model.
//!
//! One draft step computes, from the main embedding `e` of the previous token and the recurrent
//! hidden state `h`:
//!
//! - `cur = pre_proj([sqrt(len) * e ; h])`
//! - per layer: `r = norm(wo(attention(cur))) + cur`, `cur = scale * (norm(ffn(norm(r))) + r)`
//! - `hn = norm(cur)`, draft logits `= head(hn)`, `h' = post_proj(hn)`

use vstd::prelude::*;

use crate::config::GpuTensor;
use crate::launch;
use crate::launch::{Buf, Op, Slot, Weight};
use crate::trim;
use crate::trim::TrimAdapt;

verus! {

/// One layer of the draft model.
#[derive(Clone, Copy, Debug, PartialEq, Eq, Structural)]
pub struct GemmaDraftLayer {
    pub attn_norm: GpuTensor,
    pub wq: GpuTensor,
    pub wo: GpuTensor,
    pub q_norm: GpuTensor,
    pub post_attn_norm: GpuTensor,
    pub ffn_norm: GpuTensor,
    pub ffn_gate: GpuTensor,
    pub ffn_up: GpuTensor,
    pub ffn_down: GpuTensor,
    pub ffn_post_norm: GpuTensor,
    /// Bits of the output scale, a 32-bit float.
    pub out_scale: u32,
    /// Attention is windowed.
    pub swa: bool,
    pub hd: usize,
    pub nh: usize,
}

/// The draft model.
pub struct GemmaDraft {
    pub layers: Vec<GemmaDraftLayer>,
    pub pre_proj: GpuTensor,
    pub post_proj: GpuTensor,
    pub output_norm: GpuTensor,
    /// The token head, of all rows or of a ranked selection.
    pub head: GpuTensor,
    /// Per row of a trimmed head, its token; none for a head of all rows.
    pub d2t: Option<Vec<u32>>,
    pub trim_adapt: Option<TrimAdapt>,
    pub n_embd: usize,
    /// Width of the main model.
    pub n_backbone: usize,
    /// Bits of the rotary base of the unwindowed layers, a 32-bit float.
    pub rope_base_global: u32,
    /// Bits of the rotary base of the windowed layers, a 32-bit float.
    pub rope_base_swa: u32,
    pub sliding_window: usize,
}

/// A KV cache of the main model, as the draft model reads it.
#[derive(Clone, Copy, Debug, PartialEq, Eq, Structural)]
pub struct MainKv {
    /// Rows held.
    pub len: usize,
    /// Width of a key row.
    pub kv_dim_k: usize,
}

/// How the attention launches take the number of cache rows.
#[derive(Clone, Copy, Debug, PartialEq, Eq, Structural)]
pub enum CacheRows {
    /// The host passes it.
    Host,
    /// The device counter of the cache holds it; the grid serves `bucket` rows.
    Counted { bucket: usize },
}

/// The main layer whose cache a draft layer reads: of the layers with a cache of their own, the
/// last but one for windowed layers and the last for the others.
pub open spec fn kv_target(n_layer: int, shared: int, swa: bool) -> int {
    n_layer - shared - (if swa {
        2int
    } else {
        1int
    })
}

/// The main layer whose cache a draft layer reads, in a main model of `n_layer` layers of which
/// the last `shared` have no cache of their own.
pub fn gemma4_draft_kv_target(n_layer: usize, shared: usize, swa: bool) -> (r: usize)
    requires
        kv_target(n_layer as int, shared as int, swa) >= 0,
    ensures
        r == kv_target(n_layer as int, shared as int, swa),
{
    n_layer - shared - (if swa {
        2
    } else {
        1
    })
}

/// First of the cache rows that a layer reads when the cache holds `len`.
pub open spec fn window_from(swa: bool, len: int, win: int) -> int {
    if swa && len > win {
        len - win
    } else {
        0
    }
}

/// Embeds a token that the host knows, at a position that it knows.
pub open spec fn embed_host_ops(nb: usize, token: u32, pos: usize) -> Seq<Op> {
    seq![
        Op::Alloc { dst: Buf::X, rows: 1, dim: nb },
        Op::EmbedHost { row: 0, token, dim: nb },
        Op::ScaleSqrt { buf: Buf::X, n: nb },
        Op::Alloc { dst: Buf::Pos, rows: 1, dim: 1 },
        Op::SetPos { row: 0, pos },
    ]
}

/// Embeds the token in the device counter.
pub open spec fn embed_device_ops(nb: usize) -> Seq<Op> {
    seq![Op::EmbedDevice { dim: nb }, Op::ScaleSqrt { buf: Buf::X, n: nb }]
}

/// Joins embedding and hidden state and projects them.
pub open spec fn in_ops(nb: usize) -> Seq<Op> {
    seq![
        Op::AllocParts { dst: Buf::Cat, parts: 2, n: nb },
        Op::CopyPart { src: Buf::X, dst: Buf::Cat, part: 0, n: nb },
        Op::CopyPart { src: Buf::G, dst: Buf::Cat, part: 1, n: nb },
        Op::Matmul { w: Weight::Model(Slot::PreProj), src: Buf::Cat, dst: Buf::X1, rows: 1 },
    ]
}

/// Queries of one layer.
pub open spec fn query_ops(l: GemmaDraftLayer, il: usize, ne: usize) -> Seq<Op> {
    seq![
        Op::RmsNorm {
            src: Buf::X1,
            w: Weight::Layer(il, Slot::AttnNorm),
            dst: Buf::H,
            dim: ne,
            rows: 1,
        },
        Op::Matmul { w: Weight::Layer(il, Slot::Wq), src: Buf::H, dst: Buf::Qf, rows: 1 },
        Op::RmsNorm {
            src: Buf::Qf,
            w: Weight::Layer(il, Slot::QNorm),
            dst: Buf::Q,
            dim: l.hd,
            rows: l.nh,
        },
        if l.swa {
            Op::Rope { buf: Buf::Q, head_dim: l.hd, dims: l.hd, heads: l.nh, rows: 1 }
        } else {
            Op::RopeFactors { buf: Buf::Q, head_dim: l.hd, heads: l.nh }
        },
    ]
}

/// Attention of one layer over the cache of main layer `at`.
pub open spec fn attend_op(
    l: GemmaDraftLayer,
    at: usize,
    kv: MainKv,
    win: usize,
    rows: CacheRows,
    wkv: bool,
) -> Op {
    let n_head_kv = (kv.kv_dim_k as int / l.hd as int) as usize;
    let from = window_from(l.swa, kv.len as int, win as int);
    match rows {
        CacheRows::Counted { bucket } => if from > 0 {
            Op::FaWindow {
                layer: at,
                q: Buf::Q,
                dst: Buf::Attn,
                head_dim: l.hd,
                n_head: l.nh,
                n_head_kv,
                win,
            }
        } else {
            Op::FaBucket {
                layer: at,
                q: Buf::Q,
                dst: Buf::Attn,
                head_dim: l.hd,
                n_head: l.nh,
                n_head_kv,
                bucket,
                windowed: l.swa && wkv,
            }
        },
        CacheRows::Host => Op::FaRange {
            layer: at,
            q: Buf::Q,
            dst: Buf::Attn,
            head_dim: l.hd,
            n_head: l.nh,
            n_head_kv,
            from: from as usize,
            t_kv: (kv.len - from) as usize,
            windowed: l.swa && wkv,
        },
    }
}

/// Output projection and residual of one layer.
pub open spec fn out_ops(il: usize, ne: usize) -> Seq<Op> {
    seq![
        Op::Matmul { w: Weight::Layer(il, Slot::Wo), src: Buf::Attn, dst: Buf::Mixed, rows: 1 },
        Op::RmsNorm {
            src: Buf::Mixed,
            w: Weight::Layer(il, Slot::PostAttnNorm),
            dst: Buf::MixedRow,
            dim: ne,
            rows: 1,
        },
        Op::Add { a: Buf::MixedRow, b: Buf::X1, dst: Buf::Res, n: ne },
    ]
}

/// Gated projections of one layer.
pub open spec fn gate_ops(l: GemmaDraftLayer, il: usize, ne: usize) -> Seq<Op> {
    seq![
        Op::RmsNorm {
            src: Buf::Res,
            w: Weight::Layer(il, Slot::FfnNorm),
            dst: Buf::Z,
            dim: ne,
            rows: 1,
        },
        Op::Matmul { w: Weight::Layer(il, Slot::FfnGate), src: Buf::Z, dst: Buf::FfnGate, rows: 1 },
        Op::Matmul { w: Weight::Layer(il, Slot::FfnUp), src: Buf::Z, dst: Buf::FfnUp, rows: 1 },
        Op::GeluMul { gate: Buf::FfnGate, up: Buf::FfnUp, dst: Buf::Act, n: l.ffn_gate.out_f },
    ]
}

/// Down projection and residual of one layer.
pub open spec fn down_ops(il: usize, ne: usize) -> Seq<Op> {
    seq![
        Op::Matmul { w: Weight::Layer(il, Slot::FfnDown), src: Buf::Act, dst: Buf::FfnOut, rows: 1 },
        Op::RmsNorm {
            src: Buf::FfnOut,
            w: Weight::Layer(il, Slot::FfnPostNorm),
            dst: Buf::Xn,
            dim: ne,
            rows: 1,
        },
        Op::AddScaled { a: Buf::Xn, b: Buf::Res, dst: Buf::X1, layer: il, n: ne },
    ]
}

/// What a step reads of the main model and of the host's settings.
pub struct DraftContext<'a> {
    /// Layers of the main model, and how many of the last have no cache of their own.
    pub n_layer: usize,
    pub shared: usize,
    /// The caches of the main layers.
    pub kv: &'a [Option<MainKv>],
    pub rows: CacheRows,
    /// Windowed layers keep their cache in the windowed format.
    pub wkv: bool,
}

impl<'a> DraftContext<'a> {
    /// The main layer that a draft layer reads.
    pub open spec fn target(&self, swa: bool) -> int {
        kv_target(self.n_layer as int, self.shared as int, swa)
    }

    /// Every layer of `d` finds a cache and has heads of some width.
    pub open spec fn serves(&self, d: &GemmaDraft) -> bool {
        forall|i: int|
            0 <= i < d.layers@.len() ==> {
                let l = #[trigger] d.layers@[i];
                &&& l.hd > 0
                &&& 0 <= self.target(l.swa) < self.kv@.len()
                &&& self.kv@[self.target(l.swa)] is Some
            }
    }
}

/// One layer.
pub open spec fn layer_ops(d: GemmaDraft, cx: DraftContext, il: usize) -> Seq<Op> {
    let l = d.layers@[il as int];
    let at = cx.target(l.swa) as usize;
    query_ops(l, il, d.n_embd) + seq![
        attend_op(l, at, cx.kv@[at as int]->Some_0, d.sliding_window, cx.rows, cx.wkv),
    ] + out_ops(il, d.n_embd) + gate_ops(l, il, d.n_embd) + down_ops(il, d.n_embd)
}

/// The first `n` layers.
pub open spec fn layers_ops(d: GemmaDraft, cx: DraftContext, n: nat) -> Seq<Op>
    decreases n,
{
    if n == 0 {
        Seq::empty()
    } else {
        layers_ops(d, cx, (n - 1) as nat) + layer_ops(d, cx, (n - 1) as usize)
    }
}

pub open spec fn tail_ops(ne: usize) -> Seq<Op> {
    seq![
        Op::RmsNorm {
            src: Buf::X1,
            w: Weight::Model(Slot::OutputNorm),
            dst: Buf::Hn,
            dim: ne,
            rows: 1,
        },
        Op::Matmul { w: Weight::Model(Slot::PostProj), src: Buf::Hn, dst: Buf::HSeed, rows: 1 },
    ]
}

/// The trunk from the scaled embedding on.
pub open spec fn from_x_ops(d: GemmaDraft, cx: DraftContext) -> Seq<Op> {
    in_ops(d.n_backbone) + layers_ops(d, cx, d.layers@.len()) + tail_ops(d.n_embd)
}

/// The head's logits.
pub open spec fn logits_op() -> Op {
    Op::Matmul { w: Weight::Model(Slot::Output), src: Buf::Hn, dst: Buf::Logits, rows: 1 }
}

fn push_query(ops: &mut Vec<Op>, l: &GemmaDraftLayer, il: usize, ne: usize)
    ensures
        final(ops)@ == old(ops)@ + query_ops(*l, il, ne),
{
    ops.push(
        Op::RmsNorm {
            src: Buf::X1,
            w: Weight::Layer(il, Slot::AttnNorm),
            dst: Buf::H,
            dim: ne,
            rows: 1,
        },
    );
    ops.push(Op::Matmul { w: Weight::Layer(il, Slot::Wq), src: Buf::H, dst: Buf::Qf, rows: 1 });
    ops.push(
        Op::RmsNorm {
            src: Buf::Qf,
            w: Weight::Layer(il, Slot::QNorm),
            dst: Buf::Q,
            dim: l.hd,
            rows: l.nh,
        },
    );
    if l.swa {
        ops.push(Op::Rope { buf: Buf::Q, head_dim: l.hd, dims: l.hd, heads: l.nh, rows: 1 });
    } else {
        ops.push(Op::RopeFactors { buf: Buf::Q, head_dim: l.hd, heads: l.nh });
    }
    assert(ops@ =~= old(ops)@ + query_ops(*l, il, ne));
}

fn attend(
    l: &GemmaDraftLayer,
    at: usize,
    kv: &MainKv,
    win: usize,
    rows: CacheRows,
    wkv: bool,
) -> (r: Op)
    requires
        l.hd > 0,
    ensures
        r == attend_op(*l, at, *kv, win, rows, wkv),
{
    let n_head_kv: usize = kv.kv_dim_k / l.hd;
    let from: usize = if l.swa && kv.len > win {
        kv.len - win
    } else {
        0
    };
    let windowed = l.swa && wkv;
    match rows {
        CacheRows::Counted { bucket } => if from > 0 {
            Op::FaWindow {
                layer: at,
                q: Buf::Q,
                dst: Buf::Attn,
                head_dim: l.hd,
                n_head: l.nh,
                n_head_kv,
                win,
            }
        } else {
            Op::FaBucket {
                layer: at,
                q: Buf::Q,
                dst: Buf::Attn,
                head_dim: l.hd,
                n_head: l.nh,
                n_head_kv,
                bucket,
                windowed,
            }
        },
        CacheRows::Host => Op::FaRange {
            layer: at,
            q: Buf::Q,
            dst: Buf::Attn,
            head_dim: l.hd,
            n_head: l.nh,
            n_head_kv,
            from,
            t_kv: kv.len - from,
            windowed,
        },
    }
}

fn push_out(ops: &mut Vec<Op>, il: usize, ne: usize)
    ensures
        final(ops)@ == old(ops)@ + out_ops(il, ne),
{
    ops.push(
        Op::Matmul { w: Weight::Layer(il, Slot::Wo), src: Buf::Attn, dst: Buf::Mixed, rows: 1 },
    );
    ops.push(
        Op::RmsNorm {
            src: Buf::Mixed,
            w: Weight::Layer(il, Slot::PostAttnNorm),
            dst: Buf::MixedRow,
            dim: ne,
            rows: 1,
        },
    );
    ops.push(Op::Add { a: Buf::MixedRow, b: Buf::X1, dst: Buf::Res, n: ne });
    assert(ops@ =~= old(ops)@ + out_ops(il, ne));
}

fn push_gate(ops: &mut Vec<Op>, l: &GemmaDraftLayer, il: usize, ne: usize)
    ensures
        final(ops)@ == old(ops)@ + gate_ops(*l, il, ne),
{
    ops.push(
        Op::RmsNorm {
            src: Buf::Res,
            w: Weight::Layer(il, Slot::FfnNorm),
            dst: Buf::Z,
            dim: ne,
            rows: 1,
        },
    );
    ops.push(
        Op::Matmul { w: Weight::Layer(il, Slot::FfnGate), src: Buf::Z, dst: Buf::FfnGate, rows: 1 },
    );
    ops.push(
        Op::Matmul { w: Weight::Layer(il, Slot::FfnUp), src: Buf::Z, dst: Buf::FfnUp, rows: 1 },
    );
    ops.push(
        Op::GeluMul { gate: Buf::FfnGate, up: Buf::FfnUp, dst: Buf::Act, n: l.ffn_gate.out_f },
    );
    assert(ops@ =~= old(ops)@ + gate_ops(*l, il, ne));
}

fn push_down(ops: &mut Vec<Op>, il: usize, ne: usize)
    ensures
        final(ops)@ == old(ops)@ + down_ops(il, ne),
{
    ops.push(
        Op::Matmul { w: Weight::Layer(il, Slot::FfnDown), src: Buf::Act, dst: Buf::FfnOut, rows: 1 },
    );
    ops.push(
        Op::RmsNorm {
            src: Buf::FfnOut,
            w: Weight::Layer(il, Slot::FfnPostNorm),
            dst: Buf::Xn,
            dim: ne,
            rows: 1,
        },
    );
    ops.push(Op::AddScaled { a: Buf::Xn, b: Buf::Res, dst: Buf::X1, layer: il, n: ne });
    assert(ops@ =~= old(ops)@ + down_ops(il, ne));
}

impl GemmaDraft {
    fn push_layer(&self, ops: &mut Vec<Op>, cx: &DraftContext, il: usize)
        requires
            il < self.layers@.len(),
            cx.serves(self),
        ensures
            final(ops)@ == old(ops)@ + layer_ops(*self, *cx, il),
    {
        let l = self.layers[il];
        let ne = self.n_embd;
        assert(l == self.layers@[il as int]);
        let at = gemma4_draft_kv_target(cx.n_layer, cx.shared, l.swa);
        let ghost o0 = ops@;
        push_query(ops, &l, il, ne);
        match cx.kv[at] {
            Some(kv) => {
                let op = attend(&l, at, &kv, self.sliding_window, cx.rows, cx.wkv);
                ops.push(op);
                push_out(ops, il, ne);
                push_gate(ops, &l, il, ne);
                push_down(ops, il, ne);
                assert(ops@ =~= o0 + (query_ops(l, il, ne) + seq![op] + out_ops(il, ne) + gate_ops(
                    l,
                    il,
                    ne,
                ) + down_ops(il, ne)));
            },
            None => {},
        }
    }

    fn push_from_x(&self, ops: &mut Vec<Op>, cx: &DraftContext)
        requires
            cx.serves(self),
        ensures
            final(ops)@ == old(ops)@ + from_x_ops(*self, *cx),
    {
        let nb = self.n_backbone;
        let ghost o0 = ops@;
        ops.push(Op::AllocParts { dst: Buf::Cat, parts: 2, n: nb });
        ops.push(Op::CopyPart { src: Buf::X, dst: Buf::Cat, part: 0, n: nb });
        ops.push(Op::CopyPart { src: Buf::G, dst: Buf::Cat, part: 1, n: nb });
        ops.push(
            Op::Matmul { w: Weight::Model(Slot::PreProj), src: Buf::Cat, dst: Buf::X1, rows: 1 },
        );
        let n = self.layers.len();
        let mut il: usize = 0;
        assert(ops@ =~= o0 + (in_ops(nb) + layers_ops(*self, *cx, 0)));
        while il < n
            invariant
                il <= n,
                n == self.layers@.len(),
                cx.serves(self),
                ops@ == o0 + (in_ops(nb) + layers_ops(*self, *cx, il as nat)),
            decreases n - il,
        {
            self.push_layer(ops, cx, il);
            assert(ops@ =~= o0 + (in_ops(nb) + layers_ops(*self, *cx, (il + 1) as nat)));
            il += 1;
        }
        ops.push(
            Op::RmsNorm {
                src: Buf::X1,
                w: Weight::Model(Slot::OutputNorm),
                dst: Buf::Hn,
                dim: self.n_embd,
                rows: 1,
            },
        );
        ops.push(
            Op::Matmul { w: Weight::Model(Slot::PostProj), src: Buf::Hn, dst: Buf::HSeed, rows: 1 },
        );
        assert(ops@ =~= o0 + from_x_ops(*self, *cx));
    }

    /// The trunk, from the scaled embedding in `X`, the hidden state in `G` and the position in
    /// `Pos`: leaves the normalized hidden state in `Hn` and the next hidden state in `HSeed`.
    pub fn gemma4_draft_trunk_from_x(&self, cx: &DraftContext) -> (ops: Vec<Op>)
        requires
            cx.serves(self),
        ensures
            ops@ == from_x_ops(*self, *cx),
    {
        let mut ops: Vec<Op> = Vec::new();
        self.push_from_x(&mut ops, cx);
        assert(ops@ =~= from_x_ops(*self, *cx));
        ops
    }

    /// The trunk for the token in the device counter at the position in `Pos`.
    pub fn gemma4_draft_trunk_dev(&self, cx: &DraftContext) -> (ops: Vec<Op>)
        requires
            cx.serves(self),
        ensures
            ops@ == embed_device_ops(self.n_backbone) + from_x_ops(*self, *cx),
    {
        let mut ops: Vec<Op> = Vec::new();
        ops.push(Op::EmbedDevice { dim: self.n_backbone });
        ops.push(Op::ScaleSqrt { buf: Buf::X, n: self.n_backbone });
        assert(ops@ =~= embed_device_ops(self.n_backbone));
        self.push_from_x(&mut ops, cx);
        ops
    }

    /// The trunk for `token` at `pos`.
    pub fn gemma4_draft_trunk(&self, cx: &DraftContext, token: u32, pos: usize) -> (ops: Vec<Op>)
        requires
            cx.serves(self),
        ensures
            ops@ == embed_host_ops(self.n_backbone, token, pos) + from_x_ops(*self, *cx),
    {
        let nb = self.n_backbone;
        let mut ops: Vec<Op> = Vec::new();
        ops.push(Op::Alloc { dst: Buf::X, rows: 1, dim: nb });
        ops.push(Op::EmbedHost { row: 0, token, dim: nb });
        ops.push(Op::ScaleSqrt { buf: Buf::X, n: nb });
        ops.push(Op::Alloc { dst: Buf::Pos, rows: 1, dim: 1 });
        ops.push(Op::SetPos { row: 0, pos });
        assert(ops@ =~= embed_host_ops(nb, token, pos));
        self.push_from_x(&mut ops, cx);
        ops
    }

    /// One draft step that leaves the logits for the host.
    pub fn gemma4_draft_step(&self, cx: &DraftContext, token: u32, pos: usize) -> (ops: Vec<Op>)
        requires
            cx.serves(self),
        ensures
            ops@ == embed_host_ops(self.n_backbone, token, pos) + from_x_ops(*self, *cx) + seq![
                logits_op(),
            ],
    {
        let mut ops = self.gemma4_draft_trunk(cx, token, pos);
        let ghost o = ops@;
        ops.push(
            Op::Matmul { w: Weight::Model(Slot::Output), src: Buf::Hn, dst: Buf::Logits, rows: 1 },
        );
        assert(ops@ =~= o + seq![logits_op()]);
        ops
    }

    /// One greedy draft step: leaves the best head row in the token counter.
    pub fn gemma4_draft_step_greedy(&self, cx: &DraftContext, token: u32, pos: usize) -> (ops: Vec<
        Op,
    >)
        requires
            cx.serves(self),
        ensures
            ops@ == embed_host_ops(self.n_backbone, token, pos) + from_x_ops(*self, *cx) + seq![
                logits_op(),
                Op::Argmax { src: Buf::Logits, n: self.head.out_f },
            ],
    {
        let mut ops = self.gemma4_draft_trunk(cx, token, pos);
        let ghost o = ops@;
        ops.push(
            Op::Matmul { w: Weight::Model(Slot::Output), src: Buf::Hn, dst: Buf::Logits, rows: 1 },
        );
        ops.push(Op::Argmax { src: Buf::Logits, n: self.head.out_f });
        assert(ops@ =~= o + seq![
            logits_op(),
            Op::Argmax { src: Buf::Logits, n: self.head.out_f },
        ]);
        ops
    }

    /// The token of head row `idx`.
    pub open spec fn token_of(&self, idx: u32) -> u32 {
        match self.d2t {
            Some(map) => map@[idx as int],
            None => idx,
        }
    }

    /// The token of head row `idx`.
    pub fn draft_token(&self, idx: u32) -> (r: u32)
        requires
            self.d2t matches Some(map) ==> idx < map@.len(),
        ensures
            r == self.token_of(idx),
    {
        match &self.d2t {
            Some(map) => map[idx as usize],
            None => idx,
        }
    }

    /// The adaptive state, where there is one, agrees with the trimmed head's map.
    pub open spec fn adapt_wf(&self) -> bool {
        (self.trim_adapt is Some && self.d2t is Some) ==> self.trim_adapt->0.wf(self.d2t->0@)
    }

    /// Spare rows of the adaptive head in use and in all; none when adaptation is off.
    pub fn trim_adapt_stats(&self) -> (r: Option<(usize, usize)>)
        ensures
            r is Some <==> self.trim_adapt is Some,
            r matches Some(p) ==> p.0 == self.trim_adapt->0.filled()
                && p.1 == self.trim_adapt->0.budget(),
    {
        trim::trim_adapt_stats(&self.trim_adapt)
    }

    /// The learned tokens to append to a sidecar file that lists `prior`; none when adaptation
    /// is off.
    pub fn trim_adapt_save(&self, prior: &[u32]) -> (r: Vec<u32>)
        requires
            self.adapt_wf(),
        ensures
            r@ == (if self.trim_adapt is Some && self.d2t is Some {
                self.trim_adapt->0.learned(self.d2t->0@).filter(|id: u32| !prior@.contains(id))
            } else {
                Seq::empty()
            }),
    {
        match (&self.trim_adapt, &self.d2t) {
            (Some(ta), Some(map)) => trim::fresh_learned_ids(ta, map.as_slice(), prior),
            _ => Vec::new(),
        }
    }
}

/// Weight `slot` of draft layer `il`.
pub open spec fn dw(il: usize, slot: Slot) -> Weight {
    Weight::Layer(il, slot)
}

/// The input of the first layer.
pub open spec fn draft_in(env: launch::Env, x: launch::Term, h: launch::Term) -> launch::Term {
    launch::mm(
        env,
        Weight::Model(Slot::PreProj),
        launch::Term::Node(launch::Fun::Concat, seq![x, h]),
    )
}

/// The query of a layer.
pub open spec fn draft_query(
    env: launch::Env,
    l: GemmaDraftLayer,
    il: usize,
    ne: nat,
    cur: launch::Term,
    pos: launch::Term,
) -> launch::Term {
    let h = launch::rms(dw(il, Slot::AttnNorm), ne, cur);
    let q = launch::rms(dw(il, Slot::QNorm), l.hd as nat, launch::mm(env, dw(il, Slot::Wq), h));
    if l.swa {
        launch::bin(launch::Fun::Rope(l.hd as nat, l.hd as nat, l.nh as nat), q, pos)
    } else {
        launch::bin(launch::Fun::RopeFactors(l.hd as nat, l.nh as nat), q, pos)
    }
}

/// Attention over the last `win` rows of the cache, or over all of them where the layer is not
/// windowed or the cache is no longer than that.
pub open spec fn draft_attend(
    l: GemmaDraftLayer,
    kv: MainKv,
    win: int,
    q: launch::Term,
    k: launch::Term,
    v: launch::Term,
) -> launch::Term {
    launch::Term::Node(
        launch::Fun::AttendRows(
            l.hd as nat,
            l.nh as nat,
            (kv.kv_dim_k as int / l.hd as int) as nat,
        ),
        seq![
            q,
            k,
            v,
            launch::Term::Int(window_from(l.swa, kv.len as int, win)),
            launch::Term::Int(kv.len as int),
        ],
    )
}

/// The residual after the attention result `a`.
pub open spec fn draft_residual(
    env: launch::Env,
    il: usize,
    ne: nat,
    cur: launch::Term,
    a: launch::Term,
) -> launch::Term {
    launch::sum(
        launch::rms(dw(il, Slot::PostAttnNorm), ne, launch::mm(env, dw(il, Slot::Wo), a)),
        cur,
    )
}

/// The gated activation of the residual `r`.
pub open spec fn draft_act(env: launch::Env, il: usize, ne: nat, r: launch::Term) -> launch::Term {
    let z = launch::rms(dw(il, Slot::FfnNorm), ne, r);
    launch::bin(
        launch::Fun::GeluMul,
        launch::mm(env, dw(il, Slot::FfnGate), z),
        launch::mm(env, dw(il, Slot::FfnUp), z),
    )
}

/// The layer's output for the residual `r`.
pub open spec fn draft_out(env: launch::Env, il: usize, ne: nat, r: launch::Term) -> launch::Term {
    launch::bin(
        launch::Fun::AddScaled(il as nat),
        launch::rms(
            dw(il, Slot::FfnPostNorm),
            ne,
            launch::mm(env, dw(il, Slot::FfnDown), draft_act(env, il, ne, r)),
        ),
        r,
    )
}

/// What a draft step reads of the device state: the position, and per main layer the caches.
pub ghost struct DraftInput {
    pub pos: launch::Term,
    pub keys: spec_fn(int) -> launch::Term,
    pub values: spec_fn(int) -> launch::Term,
}

/// The input of layer `n`, from the first layer's input.
pub open spec fn draft_hidden(
    env: launch::Env,
    d: GemmaDraft,
    cx: DraftContext,
    w: DraftInput,
    first: launch::Term,
    n: nat,
) -> launch::Term
    decreases n,
{
    if n == 0 {
        first
    } else {
        let il = (n - 1) as usize;
        let l = d.layers@[il as int];
        let at = cx.target(l.swa);
        let cur = draft_hidden(env, d, cx, w, first, (n - 1) as nat);
        let ne = d.n_embd as nat;
        let a = draft_attend(
            l,
            cx.kv@[at]->Some_0,
            d.sliding_window as int,
            draft_query(env, l, il, ne, cur, w.pos),
            (w.keys)(at),
            (w.values)(at),
        );
        draft_out(env, il, ne, draft_residual(env, il, ne, cur, a))
    }
}

/// The normalized hidden state that the head reads.
pub open spec fn draft_final(
    env: launch::Env,
    d: GemmaDraft,
    cx: DraftContext,
    w: DraftInput,
    x: launch::Term,
    h: launch::Term,
) -> launch::Term {
    launch::rms(
        Weight::Model(Slot::OutputNorm),
        d.n_embd as nat,
        draft_hidden(env, d, cx, w, draft_in(env, x, h), d.layers@.len()),
    )
}

/// The device state holds what `w` says and, where the launches count rows by device counters,
/// the counters agree with the host.
pub open spec fn holds(s: launch::Store, cx: DraftContext, w: DraftInput) -> bool {
    &&& s[Buf::Pos] == seq![w.pos]
    &&& forall|at: usize|
        (#[trigger] s[Buf::KCache { seq: 0, layer: at }]) == seq![(w.keys)(at as int)]
    &&& forall|at: usize|
        (#[trigger] s[Buf::VCache { seq: 0, layer: at }]) == seq![(w.values)(at as int)]
    &&& forall|at: usize|
        at < cx.kv@.len() && cx.kv@[at as int] is Some && cx.rows is Counted ==> (
        #[trigger] s[Buf::Len { seq: 0, layer: at }]) == seq![
            launch::Term::Int(cx.kv@[at as int]->Some_0.len as int),
        ]
}

/// A buffer that no draft layer writes.
pub open spec fn kept(b: Buf) -> bool {
    match b {
        Buf::Pos | Buf::G | Buf::X => true,
        Buf::KCache { .. } | Buf::VCache { .. } | Buf::Len { .. } => true,
        _ => false,
    }
}

proof fn lemma_in(env: launch::Env, s: launch::Store, nb: usize, x: launch::Term, h: launch::Term)
    requires
        s[Buf::X] == seq![x],
        s[Buf::G] == seq![h],
    ensures
        launch::run(env, s, in_ops(nb))[Buf::X1] == seq![draft_in(env, x, h)],
{
    let ops = in_ops(nb);
    launch::lemma_run4(env, s, ops[0], ops[1], ops[2], ops[3]);
    assert(ops =~= seq![ops[0], ops[1], ops[2], ops[3]]);
    let s1 = launch::step(env, s, ops[0]);
    let s2 = launch::step(env, s1, ops[1]);
    let s3 = launch::step(env, s2, ops[2]);
    let e = launch::step(env, s3, ops[3]);
    let u = launch::Term::Unknown;
    let cat = launch::Fun::Concat;
    assert(s1[Buf::Cat] == seq![launch::Term::Node(cat, seq![u, u])] && s1[Buf::X] == s[Buf::X]
        && s1[Buf::G] == s[Buf::G]) by {
        reveal(launch::step);
        assert(Seq::new(2, |i: int| launch::Term::Unknown) =~= seq![u, u]);
    }
    assert(s2[Buf::Cat] == seq![launch::Term::Node(cat, seq![x, u])] && s2[Buf::G]
        == s[Buf::G]) by {
        reveal(launch::step);
        assert(seq![u, u].update(0, x) =~= seq![x, u]);
    }
    assert(s3[Buf::Cat] == seq![launch::Term::Node(cat, seq![x, h])]) by {
        reveal(launch::step);
        assert(seq![x, u].update(1, h) =~= seq![x, h]);
    }
    assert(e[Buf::X1] =~= seq![draft_in(env, x, h)]) by {
        reveal(launch::step);
    }
}

proof fn lemma_query(
    env: launch::Env,
    s: launch::Store,
    l: GemmaDraftLayer,
    il: usize,
    ne: usize,
    cur: launch::Term,
    pos: launch::Term,
)
    requires
        s[Buf::X1] == seq![cur],
        s[Buf::Pos] == seq![pos],
    ensures
        launch::run(env, s, query_ops(l, il, ne))[Buf::Q] == seq![
            draft_query(env, l, il, ne as nat, cur, pos),
        ],
        launch::run(env, s, query_ops(l, il, ne))[Buf::X1] == seq![cur],
        forall|b: Buf|
            kept(b) ==> #[trigger] launch::run(env, s, query_ops(l, il, ne))[b] == s[b],
{
    let ops = query_ops(l, il, ne);
    launch::lemma_run4(env, s, ops[0], ops[1], ops[2], ops[3]);
    assert(ops =~= seq![ops[0], ops[1], ops[2], ops[3]]);
    let s1 = launch::step(env, s, ops[0]);
    let s2 = launch::step(env, s1, ops[1]);
    let s3 = launch::step(env, s2, ops[2]);
    let e = launch::step(env, s3, ops[3]);
    let h = launch::rms(dw(il, Slot::AttnNorm), ne as nat, cur);
    let q0 = launch::mm(env, dw(il, Slot::Wq), h);
    let q1 = launch::rms(dw(il, Slot::QNorm), l.hd as nat, q0);
    assert(s1[Buf::H] =~= seq![h]) by {
        reveal(launch::step);
    }
    assert(s2[Buf::Qf] =~= seq![q0]) by {
        reveal(launch::step);
    }
    assert(s3[Buf::Q] =~= seq![q1] && s3[Buf::Pos] == s[Buf::Pos]) by {
        reveal(launch::step);
    }
    assert(e[Buf::Q] =~= seq![draft_query(env, l, il, ne as nat, cur, pos)]) by {
        reveal(launch::step);
    }
    launch::lemma_run_frame(env, s, ops, Buf::X1);
    assert forall|b: Buf| kept(b) implies #[trigger] launch::run(env, s, ops)[b] == s[b] by {
        launch::lemma_run_frame(env, s, ops, b);
    }
}

proof fn lemma_attend(
    env: launch::Env,
    s: launch::Store,
    l: GemmaDraftLayer,
    at: usize,
    kv: MainKv,
    win: usize,
    rows: CacheRows,
    wkv: bool,
    q: launch::Term,
    k: launch::Term,
    v: launch::Term,
)
    requires
        l.hd > 0,
        s[Buf::Q] == seq![q],
        s[Buf::KCache { seq: 0, layer: at }] == seq![k],
        s[Buf::VCache { seq: 0, layer: at }] == seq![v],
        rows is Counted ==> s[Buf::Len { seq: 0, layer: at }] == seq![
            launch::Term::Int(kv.len as int),
        ],
    ensures
        ({
            let e = launch::step(env, s, attend_op(l, at, kv, win, rows, wkv));
            &&& e[Buf::Attn] == seq![draft_attend(l, kv, win as int, q, k, v)]
            &&& e[Buf::X1] == s[Buf::X1]
            &&& forall|b: Buf| kept(b) ==> #[trigger] e[b] == s[b]
        }),
{
    reveal(launch::step);
    let e = launch::step(env, s, attend_op(l, at, kv, win, rows, wkv));
    assert(0 <= kv.kv_dim_k as int / l.hd as int <= kv.kv_dim_k) by (nonlinear_arith)
        requires
            l.hd > 0,
    ;
    let a = draft_attend(l, kv, win as int, q, k, v);
    assert(e[Buf::Attn][0]->Node_1 =~= a->Node_1);
    assert(e[Buf::Attn] =~= seq![a]);
}

proof fn lemma_out(
    env: launch::Env,
    s: launch::Store,
    il: usize,
    ne: usize,
    cur: launch::Term,
    a: launch::Term,
)
    requires
        s[Buf::X1] == seq![cur],
        s[Buf::Attn] == seq![a],
    ensures
        launch::run(env, s, out_ops(il, ne))[Buf::Res] == seq![
            draft_residual(env, il, ne as nat, cur, a),
        ],
        forall|b: Buf| kept(b) ==> #[trigger] launch::run(env, s, out_ops(il, ne))[b] == s[b],
{
    let ops = out_ops(il, ne);
    launch::lemma_run3(env, s, ops[0], ops[1], ops[2]);
    assert(ops =~= seq![ops[0], ops[1], ops[2]]);
    let s1 = launch::step(env, s, ops[0]);
    let s2 = launch::step(env, s1, ops[1]);
    let e = launch::step(env, s2, ops[2]);
    let o = launch::mm(env, dw(il, Slot::Wo), a);
    assert(s1[Buf::Mixed] =~= seq![o] && s1[Buf::X1] == s[Buf::X1]) by {
        reveal(launch::step);
    }
    assert(s2[Buf::MixedRow] =~= seq![launch::rms(dw(il, Slot::PostAttnNorm), ne as nat, o)]
        && s2[Buf::X1] == s[Buf::X1]) by {
        reveal(launch::step);
    }
    assert(e[Buf::Res] =~= seq![draft_residual(env, il, ne as nat, cur, a)]) by {
        reveal(launch::step);
    }
    assert forall|b: Buf| kept(b) implies #[trigger] launch::run(env, s, ops)[b] == s[b] by {
        launch::lemma_run_frame(env, s, ops, b);
    }
}

proof fn lemma_gate(
    env: launch::Env,
    s: launch::Store,
    l: GemmaDraftLayer,
    il: usize,
    ne: usize,
    r: launch::Term,
)
    requires
        s[Buf::Res] == seq![r],
    ensures
        launch::run(env, s, gate_ops(l, il, ne))[Buf::Act] == seq![
            draft_act(env, il, ne as nat, r),
        ],
        launch::run(env, s, gate_ops(l, il, ne))[Buf::Res] == seq![r],
        forall|b: Buf| kept(b) ==> #[trigger] launch::run(env, s, gate_ops(l, il, ne))[b] == s[b],
{
    let ops = gate_ops(l, il, ne);
    launch::lemma_run4(env, s, ops[0], ops[1], ops[2], ops[3]);
    assert(ops =~= seq![ops[0], ops[1], ops[2], ops[3]]);
    let s1 = launch::step(env, s, ops[0]);
    let s2 = launch::step(env, s1, ops[1]);
    let s3 = launch::step(env, s2, ops[2]);
    let e = launch::step(env, s3, ops[3]);
    let z = launch::rms(dw(il, Slot::FfnNorm), ne as nat, r);
    let g = launch::mm(env, dw(il, Slot::FfnGate), z);
    let u = launch::mm(env, dw(il, Slot::FfnUp), z);
    assert(s1[Buf::Z] =~= seq![z]) by {
        reveal(launch::step);
    }
    assert(s2[Buf::FfnGate] =~= seq![g] && s2[Buf::Z] == s1[Buf::Z]) by {
        reveal(launch::step);
    }
    assert(s3[Buf::FfnUp] =~= seq![u] && s3[Buf::FfnGate] == s2[Buf::FfnGate]) by {
        reveal(launch::step);
    }
    assert(e[Buf::Act] =~= seq![draft_act(env, il, ne as nat, r)]) by {
        reveal(launch::step);
    }
    launch::lemma_run_frame(env, s, ops, Buf::Res);
    assert forall|b: Buf| kept(b) implies #[trigger] launch::run(env, s, ops)[b] == s[b] by {
        launch::lemma_run_frame(env, s, ops, b);
    }
}

proof fn lemma_down(
    env: launch::Env,
    s: launch::Store,
    il: usize,
    ne: usize,
    r: launch::Term,
)
    requires
        s[Buf::Res] == seq![r],
        s[Buf::Act] == seq![draft_act(env, il, ne as nat, r)],
    ensures
        launch::run(env, s, down_ops(il, ne))[Buf::X1] == seq![draft_out(env, il, ne as nat, r)],
        forall|b: Buf| kept(b) ==> #[trigger] launch::run(env, s, down_ops(il, ne))[b] == s[b],
{
    let ops = down_ops(il, ne);
    launch::lemma_run3(env, s, ops[0], ops[1], ops[2]);
    assert(ops =~= seq![ops[0], ops[1], ops[2]]);
    let s1 = launch::step(env, s, ops[0]);
    let s2 = launch::step(env, s1, ops[1]);
    let e = launch::step(env, s2, ops[2]);
    let f = launch::mm(env, dw(il, Slot::FfnDown), draft_act(env, il, ne as nat, r));
    assert(s1[Buf::FfnOut] =~= seq![f] && s1[Buf::Res] == s[Buf::Res]) by {
        reveal(launch::step);
    }
    assert(s2[Buf::Xn] =~= seq![launch::rms(dw(il, Slot::FfnPostNorm), ne as nat, f)]
        && s2[Buf::Res] == s[Buf::Res]) by {
        reveal(launch::step);
    }
    assert(e[Buf::X1] =~= seq![draft_out(env, il, ne as nat, r)]) by {
        reveal(launch::step);
    }
    assert forall|b: Buf| kept(b) implies #[trigger] launch::run(env, s, ops)[b] == s[b] by {
        launch::lemma_run_frame(env, s, ops, b);
    }
}

proof fn lemma_layer(
    env: launch::Env,
    s: launch::Store,
    d: GemmaDraft,
    cx: DraftContext,
    w: DraftInput,
    first: launch::Term,
    n: nat,
)
    requires
        cx.serves(&d),
        0 < n <= d.layers.len(),
        holds(s, cx, w),
        s[Buf::X1] == seq![draft_hidden(env, d, cx, w, first, (n - 1) as nat)],
    ensures
        ({
            let e = launch::run(env, s, layer_ops(d, cx, (n - 1) as usize));
            &&& e[Buf::X1] == seq![draft_hidden(env, d, cx, w, first, n)]
            &&& forall|b: Buf| kept(b) ==> #[trigger] e[b] == s[b]
        }),
{
    let il = (n - 1) as usize;
    let l = d.layers@[il as int];
    let at = cx.target(l.swa) as usize;
    let n_kv = cx.kv.len();
    let kv = cx.kv@[at as int]->Some_0;
    let ne = d.n_embd;
    let cur = draft_hidden(env, d, cx, w, first, (n - 1) as nat);
    let a_op = attend_op(l, at, kv, d.sliding_window, cx.rows, cx.wkv);
    let p1 = query_ops(l, il, ne);
    let p2 = p1 + seq![a_op];
    let p3 = p2 + out_ops(il, ne);
    let p4 = p3 + gate_ops(l, il, ne);
    launch::lemma_run_concat(env, s, p1, seq![a_op]);
    launch::lemma_run_concat(env, s, p2, out_ops(il, ne));
    launch::lemma_run_concat(env, s, p3, gate_ops(l, il, ne));
    launch::lemma_run_concat(env, s, p4, down_ops(il, ne));
    let s1 = launch::run(env, s, p1);
    launch::lemma_run1(env, s1, a_op);
    let s2 = launch::step(env, s1, a_op);
    let s3 = launch::run(env, s2, out_ops(il, ne));
    let s4 = launch::run(env, s3, gate_ops(l, il, ne));
    let q = draft_query(env, l, il, ne as nat, cur, w.pos);
    let k = (w.keys)(at as int);
    let v = (w.values)(at as int);
    lemma_query(env, s, l, il, ne, cur, w.pos);
    assert(s[Buf::KCache { seq: 0, layer: at }] == seq![k]);
    assert(s[Buf::VCache { seq: 0, layer: at }] == seq![v]);
    assert(s1[Buf::KCache { seq: 0, layer: at }] == seq![k]);
    assert(s1[Buf::VCache { seq: 0, layer: at }] == seq![v]);
    assert(s1[Buf::Len { seq: 0, layer: at }] == s[Buf::Len { seq: 0, layer: at }]);
    lemma_attend(env, s1, l, at, kv, d.sliding_window, cx.rows, cx.wkv, q, k, v);
    let a = draft_attend(l, kv, d.sliding_window as int, q, k, v);
    lemma_out(env, s2, il, ne, cur, a);
    let r = draft_residual(env, il, ne as nat, cur, a);
    lemma_gate(env, s3, l, il, ne, r);
    lemma_down(env, s4, il, ne, r);
    let e = launch::run(env, s4, down_ops(il, ne));
    assert forall|b: Buf| kept(b) implies #[trigger] e[b] == s[b] by {
        assert(s1[b] == s[b]);
        assert(s2[b] == s1[b]);
        assert(s3[b] == s2[b]);
        assert(s4[b] == s3[b]);
    }
}

proof fn lemma_holds(s: launch::Store, t: launch::Store, cx: DraftContext, w: DraftInput)
    requires
        holds(s, cx, w),
        forall|b: Buf| kept(b) ==> #[trigger] t[b] == s[b],
    ensures
        holds(t, cx, w),
{
    assert(t[Buf::Pos] == s[Buf::Pos]);
    assert forall|at: usize|
        (#[trigger] t[Buf::KCache { seq: 0, layer: at }]) == seq![(w.keys)(at as int)] by {
        assert(s[Buf::KCache { seq: 0, layer: at }] == seq![(w.keys)(at as int)]);
    }
    assert forall|at: usize|
        (#[trigger] t[Buf::VCache { seq: 0, layer: at }]) == seq![(w.values)(at as int)] by {
        assert(s[Buf::VCache { seq: 0, layer: at }] == seq![(w.values)(at as int)]);
    }
    assert forall|at: usize|
        at < cx.kv@.len() && cx.kv@[at as int] is Some && cx.rows is Counted implies (
    #[trigger] t[Buf::Len { seq: 0, layer: at }]) == seq![
        launch::Term::Int(cx.kv@[at as int]->Some_0.len as int),
    ] by {
        assert(s[Buf::Len { seq: 0, layer: at }] == t[Buf::Len { seq: 0, layer: at }]);
    }
}

proof fn lemma_layers(
    env: launch::Env,
    s: launch::Store,
    d: GemmaDraft,
    cx: DraftContext,
    w: DraftInput,
    first: launch::Term,
    n: nat,
)
    requires
        cx.serves(&d),
        n <= d.layers.len(),
        holds(s, cx, w),
        s[Buf::X1] == seq![first],
    ensures
        ({
            let e = launch::run(env, s, layers_ops(d, cx, n));
            &&& e[Buf::X1] == seq![draft_hidden(env, d, cx, w, first, n)]
            &&& forall|b: Buf| kept(b) ==> #[trigger] e[b] == s[b]
        }),
    decreases n,
{
    if n > 0 {
        lemma_layers(env, s, d, cx, w, first, (n - 1) as nat);
        let before = layers_ops(d, cx, (n - 1) as nat);
        let s1 = launch::run(env, s, before);
        launch::lemma_run_concat(env, s, before, layer_ops(d, cx, (n - 1) as usize));
        lemma_holds(s, s1, cx, w);
        lemma_layer(env, s1, d, cx, w, first, n);
    }
}

/// The trunk computes the draft model's hidden states, whether the launches take the number of
/// cache rows from the host or from the device counters; it leaves the caches as they were.
pub proof fn law_trunk(
    env: launch::Env,
    s: launch::Store,
    d: GemmaDraft,
    cx: DraftContext,
    w: DraftInput,
    x: launch::Term,
    h: launch::Term,
)
    requires
        cx.serves(&d),
        holds(s, cx, w),
        s[Buf::X] == seq![x],
        s[Buf::G] == seq![h],
    ensures
        ({
            let e = launch::run(env, s, from_x_ops(d, cx));
            let hn = draft_final(env, d, cx, w, x, h);
            &&& e[Buf::Hn] == seq![hn]
            &&& e[Buf::HSeed] == seq![launch::mm(env, Weight::Model(Slot::PostProj), hn)]
            &&& forall|b: Buf| kept(b) ==> #[trigger] e[b] == s[b]
        }),
{
    let a = in_ops(d.n_backbone);
    let b = layers_ops(d, cx, d.layers@.len());
    let c = tail_ops(d.n_embd);
    launch::lemma_run_concat(env, s, a, b);
    launch::lemma_run_concat(env, s, a + b, c);
    let s1 = launch::run(env, s, a);
    lemma_in(env, s, d.n_backbone, x, h);
    assert forall|z: Buf| kept(z) implies #[trigger] s1[z] == s[z] by {
        launch::lemma_run_frame(env, s, a, z);
    }
    lemma_holds(s, s1, cx, w);
    assert(d.layers@.len() <= d.layers.len());
    lemma_layers(env, s1, d, cx, w, draft_in(env, x, h), d.layers@.len());
    let s2 = launch::run(env, s1, b);
    let cur = draft_hidden(env, d, cx, w, draft_in(env, x, h), d.layers@.len());
    launch::lemma_run2(env, s2, c[0], c[1]);
    assert(c =~= seq![c[0], c[1]]);
    let s3 = launch::step(env, s2, c[0]);
    let e = launch::step(env, s3, c[1]);
    let hn = draft_final(env, d, cx, w, x, h);
    assert(s3[Buf::Hn] =~= seq![hn]) by {
        reveal(launch::step);
    }
    assert(e[Buf::Hn] == s3[Buf::Hn] && e[Buf::HSeed] =~= seq![
        launch::mm(env, Weight::Model(Slot::PostProj), hn),
    ]) by {
        reveal(launch::step);
    }
    assert forall|z: Buf| kept(z) implies #[trigger] e[z] == s[z] by {
        launch::lemma_run_frame(env, s2, c, z);
        assert(s2[z] == s1[z]);
        assert(s1[z] == s[z]);
    }
}

proof fn lemma_same_hidden(
    env: launch::Env,
    d: GemmaDraft,
    cx: DraftContext,
    other: DraftContext,
    w: DraftInput,
    first: launch::Term,
    n: nat,
)
    requires
        cx.n_layer == other.n_layer,
        cx.shared == other.shared,
        cx.kv == other.kv,
    ensures
        draft_hidden(env, d, cx, w, first, n) == draft_hidden(env, d, other, w, first, n),
    decreases n,
{
    if n > 0 {
        lemma_same_hidden(env, d, cx, other, w, first, (n - 1) as nat);
    }
}

/// Taking the number of cache rows from the host or from the device counters, with whatever
/// grid, leaves the same hidden states.
pub proof fn law_row_counting_does_not_matter(
    env: launch::Env,
    s: launch::Store,
    d: GemmaDraft,
    cx: DraftContext,
    other: DraftContext,
    w: DraftInput,
    x: launch::Term,
    h: launch::Term,
)
    requires
        cx.n_layer == other.n_layer,
        cx.shared == other.shared,
        cx.kv == other.kv,
        cx.serves(&d),
        holds(s, cx, w),
        holds(s, other, w),
        s[Buf::X] == seq![x],
        s[Buf::G] == seq![h],
    ensures
        launch::run(env, s, from_x_ops(d, cx))[Buf::Hn] == launch::run(
            env,
            s,
            from_x_ops(d, other),
        )[Buf::Hn],
        launch::run(env, s, from_x_ops(d, cx))[Buf::HSeed] == launch::run(
            env,
            s,
            from_x_ops(d, other),
        )[Buf::HSeed],
{
    assert(other.serves(&d)) by {
        assert forall|i: int| 0 <= i < d.layers@.len() implies {
            let l = #[trigger] d.layers@[i];
            &&& l.hd > 0
            &&& 0 <= other.target(l.swa) < other.kv@.len()
            &&& other.kv@[other.target(l.swa)] is Some
        } by {
            let l = d.layers@[i];
            assert(cx.target(l.swa) == other.target(l.swa));
        }
    }
    law_trunk(env, s, d, cx, w, x, h);
    law_trunk(env, s, d, other, w, x, h);
    lemma_same_hidden(env, d, cx, other, w, draft_in(env, x, h), d.layers@.len());
}

} // verus!
