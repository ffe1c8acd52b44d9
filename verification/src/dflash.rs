//! The block draft model: drafts a whole block of tokens in one pass that is not causal, over
//! hidden states of the target model.
//!
//! The context features are `norm(fc(tapped hidden states))`. In every layer the block rows give
//! the queries, and keys and values come from the context features and then the block rows; every
//! block row sees all of them. Embedding and head are the target's.

use vstd::prelude::*;

use crate::config::GpuTensor;
use crate::launch;
use crate::launch::{Buf, Op, Slot, Weight};

verus! {

/// Shape of the draft model. The norms' epsilon and the rotary base are bits of 32-bit floats.
pub struct DflashCfg {
    pub hidden: usize,
    pub n_head: usize,
    pub n_kv: usize,
    pub head_dim: usize,
    pub n_ff: usize,
    pub n_layer: usize,
    pub eps: u32,
    pub rope_theta: u32,
    pub block_size: usize,
    pub mask_token_id: u32,
    /// Target layers whose hidden states are tapped.
    pub target_layer_ids: Vec<usize>,
    pub sliding_window: usize,
    /// Per layer, whether its attention is windowed.
    pub layer_sliding: Vec<bool>,
}

/// One layer of the draft model.
#[derive(Clone, Copy, Debug, PartialEq, Eq, Structural)]
pub struct DflashLayer {
    pub wq: GpuTensor,
    pub wk: GpuTensor,
    pub wv: GpuTensor,
    pub wo: GpuTensor,
    pub w_gate: GpuTensor,
    pub w_up: GpuTensor,
    pub w_down: GpuTensor,
    pub ln_in: GpuTensor,
    pub ln_post: GpuTensor,
    pub q_norm: GpuTensor,
    pub k_norm: GpuTensor,
}

/// The draft model.
pub struct DflashDraft {
    pub cfg: DflashCfg,
    pub layers: Vec<DflashLayer>,
    pub fc: GpuTensor,
    pub hidden_norm: GpuTensor,
    pub norm: GpuTensor,
}

/// How a pass runs.
#[derive(Clone, Copy, Debug, PartialEq, Eq, Structural)]
pub struct DflashOptions {
    /// Leave out the rotary embedding.
    pub norope: bool,
    /// Use the tiled attention kernel.
    pub fused: bool,
}

impl DflashCfg {
    /// Buffer lengths for `ctx` context rows fit.
    pub open spec fn fits(&self, ctx: int) -> bool {
        let rows = ctx + self.block_size;
        &&& self.block_size * self.hidden <= usize::MAX
        &&& self.block_size * self.n_head <= usize::MAX
        &&& self.block_size * self.n_ff <= usize::MAX
        &&& self.n_kv * self.head_dim <= usize::MAX
        &&& rows <= usize::MAX
        &&& rows * self.n_kv <= usize::MAX
        &&& rows * (self.n_kv * self.head_dim) <= usize::MAX
    }
}

/// Writes the first `m` positions of `pos` from entry `from` on.
pub open spec fn pos_ops(dst: Buf, pos: Seq<i32>, from: int, m: nat) -> Seq<Op>
    decreases m,
{
    if m == 0 {
        Seq::empty()
    } else {
        pos_ops(dst, pos, from, (m - 1) as nat).push(
            Op::PutPos { dst, row: (m - 1) as usize, value: pos[from + m - 1] },
        )
    }
}

/// Context features, positions and the residual stream.
pub open spec fn start_ops(c: DflashCfg, pos: Seq<i32>, ctx: usize) -> Seq<Op> {
    let b = c.block_size;
    seq![
        Op::Matmul { w: Weight::Model(Slot::Fc), src: Buf::Cat, dst: Buf::FcOut, rows: ctx },
        Op::RmsNorm {
            src: Buf::FcOut,
            w: Weight::Model(Slot::HiddenNorm),
            dst: Buf::CtxF,
            dim: c.hidden,
            rows: ctx,
        },
        Op::Clone { src: Buf::Noise, dst: Buf::X },
        Op::Alloc { dst: Buf::PosBlk, rows: b, dim: 1 },
        Op::Alloc { dst: Buf::Pos, rows: (ctx + b) as usize, dim: 1 },
    ] + pos_ops(Buf::PosBlk, pos, ctx as int, b as nat) + pos_ops(
        Buf::Pos,
        pos,
        0,
        (ctx + b) as nat,
    )
}

pub open spec fn lw(il: usize, slot: Slot) -> Weight {
    Weight::Layer(il, slot)
}

/// Projections of one layer.
pub open spec fn proj_ops(c: DflashCfg, il: usize, ctx: usize) -> Seq<Op> {
    let b = c.block_size;
    seq![
        Op::RmsNorm { src: Buf::X, w: lw(il, Slot::AttnNorm), dst: Buf::Xn, dim: c.hidden, rows: b },
        Op::Matmul { w: lw(il, Slot::Wq), src: Buf::Xn, dst: Buf::Qf, rows: b },
        Op::Matmul { w: lw(il, Slot::Wk), src: Buf::CtxF, dst: Buf::KCtx, rows: ctx },
        Op::Matmul { w: lw(il, Slot::Wv), src: Buf::CtxF, dst: Buf::VCtx, rows: ctx },
        Op::Matmul { w: lw(il, Slot::Wk), src: Buf::Xn, dst: Buf::KBlk, rows: b },
        Op::Matmul { w: lw(il, Slot::Wv), src: Buf::Xn, dst: Buf::VBlk, rows: b },
    ]
}

/// Keys and values of context and block, stacked, and the norms of queries and keys.
pub open spec fn stack_ops(c: DflashCfg, il: usize, ctx: usize) -> Seq<Op> {
    let b = c.block_size;
    let d = c.n_kv * c.head_dim;
    seq![
        Op::StackRows {
            a: Buf::KCtx,
            b: Buf::KBlk,
            dst: Buf::K,
            n_a: (ctx * d) as usize,
            n_b: (b * d) as usize,
        },
        Op::StackRows {
            a: Buf::VCtx,
            b: Buf::VBlk,
            dst: Buf::V,
            n_a: (ctx * d) as usize,
            n_b: (b * d) as usize,
        },
        Op::RmsNorm {
            src: Buf::Qf,
            w: lw(il, Slot::QNorm),
            dst: Buf::Q,
            dim: c.head_dim,
            rows: (b * c.n_head) as usize,
        },
        Op::RmsNorm {
            src: Buf::K,
            w: lw(il, Slot::KNorm),
            dst: Buf::Kn,
            dim: c.head_dim,
            rows: ((ctx + b) * c.n_kv) as usize,
        },
    ]
}

/// Rotary embedding of queries and keys.
pub open spec fn rope_ops(c: DflashCfg, ctx: usize, norope: bool) -> Seq<Op> {
    if norope {
        Seq::empty()
    } else {
        seq![
            Op::RopeAt {
                buf: Buf::Q,
                positions: Buf::PosBlk,
                head_dim: c.head_dim,
                dims: c.head_dim,
                heads: c.n_head,
                rows: c.block_size,
            },
            Op::RopeAt {
                buf: Buf::Kn,
                positions: Buf::Pos,
                head_dim: c.head_dim,
                dims: c.head_dim,
                heads: c.n_kv,
                rows: (ctx + c.block_size) as usize,
            },
        ]
    }
}

/// Attention, output projection and residual.
pub open spec fn attn_ops(c: DflashCfg, il: usize, ctx: usize, fused: bool) -> Seq<Op> {
    let b = c.block_size;
    seq![
        Op::SdpaAll {
            q: Buf::Q,
            k: Buf::Kn,
            v: Buf::V,
            dst: Buf::Attn,
            head_dim: c.head_dim,
            n_head: c.n_head,
            n_head_kv: c.n_kv,
            t: b,
            t_kv: (ctx + b) as usize,
            fused,
        },
        Op::Matmul { w: lw(il, Slot::Wo), src: Buf::Attn, dst: Buf::Mixed, rows: b },
        Op::Add { a: Buf::Mixed, b: Buf::X, dst: Buf::X1, n: (b * c.hidden) as usize },
    ]
}

/// The gated projections.
pub open spec fn gate_ops(c: DflashCfg, il: usize) -> Seq<Op> {
    let b = c.block_size;
    seq![
        Op::RmsNorm { src: Buf::X1, w: lw(il, Slot::FfnNorm), dst: Buf::Z, dim: c.hidden, rows: b },
        Op::Matmul { w: lw(il, Slot::FfnGate), src: Buf::Z, dst: Buf::FfnGate, rows: b },
        Op::Matmul { w: lw(il, Slot::FfnUp), src: Buf::Z, dst: Buf::FfnUp, rows: b },
        Op::FfnAct {
            gate: Buf::FfnGate,
            up: Buf::FfnUp,
            dst: Buf::Act,
            n: (b * c.n_ff) as usize,
            m3: false,
        },
    ]
}

/// The down projection and the residual.
pub open spec fn down_ops(c: DflashCfg, il: usize) -> Seq<Op> {
    let b = c.block_size;
    seq![
        Op::Matmul { w: lw(il, Slot::FfnDown), src: Buf::Act, dst: Buf::FfnOut, rows: b },
        Op::Add { a: Buf::FfnOut, b: Buf::X1, dst: Buf::X, n: (b * c.hidden) as usize },
    ]
}

/// One layer.
pub open spec fn layer_ops(c: DflashCfg, il: usize, ctx: usize, o: DflashOptions) -> Seq<Op> {
    proj_ops(c, il, ctx) + stack_ops(c, il, ctx) + rope_ops(c, ctx, o.norope) + attn_ops(
        c,
        il,
        ctx,
        o.fused,
    ) + gate_ops(c, il) + down_ops(c, il)
}

/// The first `n` layers.
pub open spec fn layers_ops(c: DflashCfg, ctx: usize, o: DflashOptions, n: nat) -> Seq<Op>
    decreases n,
{
    if n == 0 {
        Seq::empty()
    } else {
        layers_ops(c, ctx, o, (n - 1) as nat) + layer_ops(c, (n - 1) as usize, ctx, o)
    }
}

pub open spec fn tail_op(c: DflashCfg) -> Op {
    Op::RmsNorm {
        src: Buf::X,
        w: Weight::Model(Slot::OutputNorm),
        dst: Buf::Hn,
        dim: c.hidden,
        rows: c.block_size,
    }
}

/// The whole pass.
pub open spec fn forward_ops(d: DflashDraft, pos: Seq<i32>, ctx: usize, o: DflashOptions) -> Seq<
    Op,
> {
    (start_ops(d.cfg, pos, ctx) + layers_ops(d.cfg, ctx, o, d.layers@.len())).push(tail_op(d.cfg))
}

fn push_pos(ops: &mut Vec<Op>, dst: Buf, pos: &[i32], from: usize, m: usize)
    requires
        from + m <= pos@.len(),
    ensures
        final(ops)@ == old(ops)@ + pos_ops(dst, pos@, from as int, m as nat),
{
    let n = pos.len();
    let ghost o0 = ops@;
    let mut i: usize = 0;
    assert(ops@ =~= o0 + pos_ops(dst, pos@, from as int, 0));
    while i < m
        invariant
            i <= m,
            from + m <= n,
            n == pos@.len(),
            ops@ == o0 + pos_ops(dst, pos@, from as int, i as nat),
        decreases m - i,
    {
        ops.push(Op::PutPos { dst, row: i, value: pos[from + i] });
        assert(ops@ =~= o0 + pos_ops(dst, pos@, from as int, (i + 1) as nat));
        i += 1;
    }
}

fn push_proj(ops: &mut Vec<Op>, c: &DflashCfg, il: usize, ctx: usize)
    ensures
        final(ops)@ == old(ops)@ + proj_ops(*c, il, ctx),
{
    let b = c.block_size;
    ops.push(
        Op::RmsNorm {
            src: Buf::X,
            w: Weight::Layer(il, Slot::AttnNorm),
            dst: Buf::Xn,
            dim: c.hidden,
            rows: b,
        },
    );
    ops.push(Op::Matmul { w: Weight::Layer(il, Slot::Wq), src: Buf::Xn, dst: Buf::Qf, rows: b });
    ops.push(
        Op::Matmul { w: Weight::Layer(il, Slot::Wk), src: Buf::CtxF, dst: Buf::KCtx, rows: ctx },
    );
    ops.push(
        Op::Matmul { w: Weight::Layer(il, Slot::Wv), src: Buf::CtxF, dst: Buf::VCtx, rows: ctx },
    );
    ops.push(Op::Matmul { w: Weight::Layer(il, Slot::Wk), src: Buf::Xn, dst: Buf::KBlk, rows: b });
    ops.push(Op::Matmul { w: Weight::Layer(il, Slot::Wv), src: Buf::Xn, dst: Buf::VBlk, rows: b });
    assert(ops@ =~= old(ops)@ + proj_ops(*c, il, ctx));
}

fn push_stack(ops: &mut Vec<Op>, c: &DflashCfg, il: usize, ctx: usize)
    requires
        c.fits(ctx as int),
    ensures
        final(ops)@ == old(ops)@ + stack_ops(*c, il, ctx),
{
    let b = c.block_size;
    let d: usize = c.n_kv * c.head_dim;
    let rows: usize = ctx + b;
    assert(ctx * d <= rows * d && b * d <= rows * d) by (nonlinear_arith)
        requires
            rows == ctx + b,
    ;
    let (n_a, n_b): (usize, usize) = (ctx * d, b * d);
    ops.push(Op::StackRows { a: Buf::KCtx, b: Buf::KBlk, dst: Buf::K, n_a, n_b });
    ops.push(Op::StackRows { a: Buf::VCtx, b: Buf::VBlk, dst: Buf::V, n_a, n_b });
    ops.push(
        Op::RmsNorm {
            src: Buf::Qf,
            w: Weight::Layer(il, Slot::QNorm),
            dst: Buf::Q,
            dim: c.head_dim,
            rows: b * c.n_head,
        },
    );
    ops.push(
        Op::RmsNorm {
            src: Buf::K,
            w: Weight::Layer(il, Slot::KNorm),
            dst: Buf::Kn,
            dim: c.head_dim,
            rows: rows * c.n_kv,
        },
    );
    assert(ops@ =~= old(ops)@ + stack_ops(*c, il, ctx));
}

fn push_rope(ops: &mut Vec<Op>, c: &DflashCfg, ctx: usize, norope: bool)
    requires
        c.fits(ctx as int),
    ensures
        final(ops)@ == old(ops)@ + rope_ops(*c, ctx, norope),
{
    if !norope {
        ops.push(
            Op::RopeAt {
                buf: Buf::Q,
                positions: Buf::PosBlk,
                head_dim: c.head_dim,
                dims: c.head_dim,
                heads: c.n_head,
                rows: c.block_size,
            },
        );
        ops.push(
            Op::RopeAt {
                buf: Buf::Kn,
                positions: Buf::Pos,
                head_dim: c.head_dim,
                dims: c.head_dim,
                heads: c.n_kv,
                rows: ctx + c.block_size,
            },
        );
    }
    assert(ops@ =~= old(ops)@ + rope_ops(*c, ctx, norope));
}

fn push_attn(ops: &mut Vec<Op>, c: &DflashCfg, il: usize, ctx: usize, fused: bool)
    requires
        c.fits(ctx as int),
    ensures
        final(ops)@ == old(ops)@ + attn_ops(*c, il, ctx, fused),
{
    let b = c.block_size;
    ops.push(
        Op::SdpaAll {
            q: Buf::Q,
            k: Buf::Kn,
            v: Buf::V,
            dst: Buf::Attn,
            head_dim: c.head_dim,
            n_head: c.n_head,
            n_head_kv: c.n_kv,
            t: b,
            t_kv: ctx + b,
            fused,
        },
    );
    ops.push(
        Op::Matmul { w: Weight::Layer(il, Slot::Wo), src: Buf::Attn, dst: Buf::Mixed, rows: b },
    );
    ops.push(Op::Add { a: Buf::Mixed, b: Buf::X, dst: Buf::X1, n: b * c.hidden });
    assert(ops@ =~= old(ops)@ + attn_ops(*c, il, ctx, fused));
}

fn push_mlp(ops: &mut Vec<Op>, c: &DflashCfg, il: usize, ctx: usize)
    requires
        c.fits(ctx as int),
    ensures
        final(ops)@ == old(ops)@ + (gate_ops(*c, il) + down_ops(*c, il)),
{
    let b = c.block_size;
    ops.push(
        Op::RmsNorm {
            src: Buf::X1,
            w: Weight::Layer(il, Slot::FfnNorm),
            dst: Buf::Z,
            dim: c.hidden,
            rows: b,
        },
    );
    ops.push(
        Op::Matmul { w: Weight::Layer(il, Slot::FfnGate), src: Buf::Z, dst: Buf::FfnGate, rows: b },
    );
    ops.push(
        Op::Matmul { w: Weight::Layer(il, Slot::FfnUp), src: Buf::Z, dst: Buf::FfnUp, rows: b },
    );
    ops.push(
        Op::FfnAct {
            gate: Buf::FfnGate,
            up: Buf::FfnUp,
            dst: Buf::Act,
            n: b * c.n_ff,
            m3: false,
        },
    );
    ops.push(
        Op::Matmul { w: Weight::Layer(il, Slot::FfnDown), src: Buf::Act, dst: Buf::FfnOut, rows: b },
    );
    ops.push(Op::Add { a: Buf::FfnOut, b: Buf::X1, dst: Buf::X, n: b * c.hidden });
    assert(ops@ =~= old(ops)@ + (gate_ops(*c, il) + down_ops(*c, il)));
}

fn push_start(ops: &mut Vec<Op>, c: &DflashCfg, pos: &[i32], ctx: usize)
    requires
        pos@.len() == ctx + c.block_size,
    ensures
        final(ops)@ == old(ops)@ + start_ops(*c, pos@, ctx),
{
    let b = c.block_size;
    let rows = pos.len();
    ops.push(
        Op::Matmul { w: Weight::Model(Slot::Fc), src: Buf::Cat, dst: Buf::FcOut, rows: ctx },
    );
    ops.push(
        Op::RmsNorm {
            src: Buf::FcOut,
            w: Weight::Model(Slot::HiddenNorm),
            dst: Buf::CtxF,
            dim: c.hidden,
            rows: ctx,
        },
    );
    ops.push(Op::Clone { src: Buf::Noise, dst: Buf::X });
    ops.push(Op::Alloc { dst: Buf::PosBlk, rows: b, dim: 1 });
    ops.push(Op::Alloc { dst: Buf::Pos, rows, dim: 1 });
    push_pos(ops, Buf::PosBlk, pos, ctx, b);
    push_pos(ops, Buf::Pos, pos, 0, rows);
    assert(ops@ =~= old(ops)@ + start_ops(*c, pos@, ctx));
}

impl DflashDraft {
    /// Plans the pass over `ctx` rows of tapped hidden states in `Cat` and the block's embeddings
    /// in `Noise`; `pos` holds the positions of the context rows and then of the block rows. The
    /// block's normalized hidden states end in `Hn`.
    pub fn forward(&self, pos: &[i32], ctx: usize, o: DflashOptions) -> (ops: Vec<Op>)
        requires
            pos@.len() == ctx + self.cfg.block_size,
            self.cfg.fits(ctx as int),
        ensures
            ops@ == forward_ops(*self, pos@, ctx, o),
    {
        let c = &self.cfg;
        let mut ops: Vec<Op> = Vec::new();
        push_start(&mut ops, c, pos, ctx);
        let ghost s0 = start_ops(*c, pos@, ctx);
        let n = self.layers.len();
        let mut il: usize = 0;
        assert(ops@ =~= s0 + layers_ops(*c, ctx, o, 0));
        while il < n
            invariant
                il <= n,
                c.fits(ctx as int),
                ops@ == s0 + layers_ops(*c, ctx, o, il as nat),
            decreases n - il,
        {
            push_proj(&mut ops, c, il, ctx);
            push_stack(&mut ops, c, il, ctx);
            push_rope(&mut ops, c, ctx, o.norope);
            push_attn(&mut ops, c, il, ctx, o.fused);
            push_mlp(&mut ops, c, il, ctx);
            assert(ops@ =~= s0 + layers_ops(*c, ctx, o, (il + 1) as nat));
            il += 1;
        }
        ops.push(
            Op::RmsNorm {
                src: Buf::X,
                w: Weight::Model(Slot::OutputNorm),
                dst: Buf::Hn,
                dim: c.hidden,
                rows: c.block_size,
            },
        );
        ops
    }
}

/// What the pass reads: the tapped rows of the context, the block's embeddings, and the positions
/// of context and block.
pub ghost struct DflashInput {
    pub taps: Seq<launch::Term>,
    pub noise: Seq<launch::Term>,
    pub pos: Seq<i32>,
}

/// Context features.
pub open spec fn features(env: launch::Env, c: DflashCfg, taps: Seq<launch::Term>) -> Seq<
    launch::Term,
> {
    Seq::new(
        taps.len(),
        |i: int|
            launch::rms(
                Weight::Model(Slot::HiddenNorm),
                c.hidden as nat,
                launch::mm(env, Weight::Model(Slot::Fc), taps[i]),
            ),
    )
}

/// `x` at position `p`.
pub open spec fn placed(c: DflashCfg, norope: bool, heads: usize, x: launch::Term, p: i32) -> launch::Term {
    if norope {
        x
    } else {
        launch::bin(
            launch::Fun::Rope(c.head_dim as nat, c.head_dim as nat, heads as nat),
            x,
            launch::Term::Int(p as int),
        )
    }
}

/// A block row, normalized.
pub open spec fn block_row(c: DflashCfg, il: usize, x: launch::Term) -> launch::Term {
    launch::rms(lw(il, Slot::AttnNorm), c.hidden as nat, x)
}

/// The rows that keys and values come from: context features, then normalized block rows.
pub open spec fn sources(
    c: DflashCfg,
    il: usize,
    feats: Seq<launch::Term>,
    xs: Seq<launch::Term>,
) -> Seq<launch::Term> {
    feats + Seq::new(xs.len(), |i: int| block_row(c, il, xs[i]))
}

pub open spec fn query(
    env: launch::Env,
    c: DflashCfg,
    norope: bool,
    il: usize,
    x: launch::Term,
    p: i32,
) -> launch::Term {
    placed(
        c,
        norope,
        c.n_head,
        launch::rms(
            lw(il, Slot::QNorm),
            c.head_dim as nat,
            launch::mm(env, lw(il, Slot::Wq), block_row(c, il, x)),
        ),
        p,
    )
}

pub open spec fn keys(
    env: launch::Env,
    c: DflashCfg,
    norope: bool,
    il: usize,
    src: Seq<launch::Term>,
    pos: Seq<i32>,
) -> Seq<launch::Term> {
    Seq::new(
        src.len(),
        |i: int|
            placed(
                c,
                norope,
                c.n_kv,
                launch::rms(
                    lw(il, Slot::KNorm),
                    c.head_dim as nat,
                    launch::mm(env, lw(il, Slot::Wk), src[i]),
                ),
                pos[i],
            ),
    )
}

pub open spec fn values(env: launch::Env, il: usize, src: Seq<launch::Term>) -> Seq<launch::Term> {
    Seq::new(src.len(), |i: int| launch::mm(env, lw(il, Slot::Wv), src[i]))
}

/// Block row `i` after the attention of layer `il`: it sees all keys and values.
pub open spec fn attended_row(
    env: launch::Env,
    c: DflashCfg,
    o: DflashOptions,
    il: usize,
    feats: Seq<launch::Term>,
    xs: Seq<launch::Term>,
    pos: Seq<i32>,
    i: int,
) -> launch::Term {
    let src = sources(c, il, feats, xs);
    let a = launch::Term::Node(
        launch::Fun::AttendAll(c.head_dim as nat, c.n_head as nat, c.n_kv as nat, o.fused),
        seq![query(env, c, o.norope, il, xs[i], pos[feats.len() + i])] + keys(
            env,
            c,
            o.norope,
            il,
            src,
            pos,
        ) + values(env, il, src),
    );
    launch::sum(launch::mm(env, lw(il, Slot::Wo), a), xs[i])
}

/// What the feed-forward block adds to `x1`.
pub open spec fn fed(env: launch::Env, c: DflashCfg, il: usize, x1: launch::Term) -> launch::Term {
    let z = launch::rms(lw(il, Slot::FfnNorm), c.hidden as nat, x1);
    launch::mm(
        env,
        lw(il, Slot::FfnDown),
        launch::act(
            false,
            launch::mm(env, lw(il, Slot::FfnGate), z),
            launch::mm(env, lw(il, Slot::FfnUp), z),
        ),
    )
}

/// The block rows after `n` layers.
pub open spec fn block_rows(
    env: launch::Env,
    c: DflashCfg,
    o: DflashOptions,
    w: DflashInput,
    n: nat,
) -> Seq<launch::Term>
    decreases n,
{
    if n == 0 {
        w.noise
    } else {
        let xs = block_rows(env, c, o, w, (n - 1) as nat);
        let il = (n - 1) as usize;
        let f = features(env, c, w.taps);
        Seq::new(
            xs.len(),
            |i: int|
                launch::sum(
                    fed(env, c, il, attended_row(env, c, o, il, f, xs, w.pos, i)),
                    attended_row(env, c, o, il, f, xs, w.pos, i),
                ),
        )
    }
}

/// The state between layers: block rows, context features and positions.
pub open spec fn at_layer(
    s: launch::Store,
    feats: Seq<launch::Term>,
    pos: Seq<i32>,
    xs: Seq<launch::Term>,
) -> bool {
    &&& pos.len() == feats.len() + xs.len()
    &&& s[Buf::X] == xs
    &&& same_context(s, feats, pos)
}

pub open spec fn same_context(s: launch::Store, feats: Seq<launch::Term>, pos: Seq<i32>) -> bool {
    &&& s[Buf::CtxF] == feats
    &&& s[Buf::Pos] == pos.map_values(|p: i32| launch::Term::Int(p as int))
    &&& s[Buf::PosBlk] == pos.skip(feats.len() as int).map_values(
        |p: i32| launch::Term::Int(p as int),
    )
}

proof fn lemma_keeps_context(
    env: launch::Env,
    s: launch::Store,
    ops: Seq<Op>,
    feats: Seq<launch::Term>,
    pos: Seq<i32>,
)
    requires
        same_context(s, feats, pos),
        launch::spares(ops, Buf::CtxF),
        launch::spares(ops, Buf::Pos),
        launch::spares(ops, Buf::PosBlk),
    ensures
        same_context(launch::run(env, s, ops), feats, pos),
{
    launch::lemma_run_frame(env, s, ops, Buf::CtxF);
    launch::lemma_run_frame(env, s, ops, Buf::Pos);
    launch::lemma_run_frame(env, s, ops, Buf::PosBlk);
}

proof fn lemma_proj(
    env: launch::Env,
    s: launch::Store,
    c: DflashCfg,
    il: usize,
    ctx: usize,
    feats: Seq<launch::Term>,
    pos: Seq<i32>,
    xs: Seq<launch::Term>,
)
    requires
        at_layer(s, feats, pos, xs),
    ensures
        ({
            let e = launch::run(env, s, proj_ops(c, il, ctx));
            let xn = Seq::new(xs.len(), |i: int| block_row(c, il, xs[i]));
            &&& at_layer(e, feats, pos, xs)
            &&& e[Buf::Qf] == launch::rows1(
                |x: launch::Term| launch::mm(env, lw(il, Slot::Wq), x),
                xn,
            )
            &&& e[Buf::KCtx] == launch::rows1(
                |x: launch::Term| launch::mm(env, lw(il, Slot::Wk), x),
                feats,
            )
            &&& e[Buf::VCtx] == launch::rows1(
                |x: launch::Term| launch::mm(env, lw(il, Slot::Wv), x),
                feats,
            )
            &&& e[Buf::KBlk] == launch::rows1(
                |x: launch::Term| launch::mm(env, lw(il, Slot::Wk), x),
                xn,
            )
            &&& e[Buf::VBlk] == launch::rows1(
                |x: launch::Term| launch::mm(env, lw(il, Slot::Wv), x),
                xn,
            )
        }),
{
    let ops = proj_ops(c, il, ctx);
    let p = seq![ops[0], ops[1], ops[2], ops[3]];
    let q = seq![ops[4], ops[5]];
    assert(ops =~= p + q);
    launch::lemma_run_concat(env, s, p, q);
    launch::lemma_run4(env, s, ops[0], ops[1], ops[2], ops[3]);
    let s4 = launch::run(env, s, p);
    launch::lemma_run2(env, s4, ops[4], ops[5]);
    let xn = Seq::new(xs.len(), |i: int| block_row(c, il, xs[i]));
    let s1 = launch::step(env, s, ops[0]);
    let s2 = launch::step(env, s1, ops[1]);
    let s3 = launch::step(env, s2, ops[2]);
    let s5 = launch::step(env, s4, ops[4]);
    let e = launch::step(env, s5, ops[5]);
    lemma_keeps_context(env, s, ops, feats, pos);
    launch::lemma_run_frame(env, s, ops, Buf::X);
    assert(s1[Buf::Xn] == xn && s1[Buf::CtxF] == feats) by {
        reveal(launch::step);
        assert(s1[Buf::Xn] =~= xn);
    }
    assert(s4[Buf::Xn] == xn && s4[Buf::Qf] == launch::rows1(
        |x: launch::Term| launch::mm(env, lw(il, Slot::Wq), x),
        xn,
    ) && s4[Buf::KCtx] == launch::rows1(
        |x: launch::Term| launch::mm(env, lw(il, Slot::Wk), x),
        feats,
    ) && s4[Buf::VCtx] == launch::rows1(
        |x: launch::Term| launch::mm(env, lw(il, Slot::Wv), x),
        feats,
    )) by {
        reveal(launch::step);
    }
    assert(e[Buf::Qf] == s4[Buf::Qf] && e[Buf::KCtx] == s4[Buf::KCtx] && e[Buf::VCtx]
        == s4[Buf::VCtx]) by {
        reveal(launch::step);
    }
    assert(e[Buf::KBlk] == launch::rows1(
        |x: launch::Term| launch::mm(env, lw(il, Slot::Wk), x),
        xn,
    ) && e[Buf::VBlk] == launch::rows1(
        |x: launch::Term| launch::mm(env, lw(il, Slot::Wv), x),
        xn,
    )) by {
        reveal(launch::step);
    }
}

/// Normalized queries and keys, before they are placed.
pub open spec fn flat_keys(env: launch::Env, c: DflashCfg, il: usize, src: Seq<launch::Term>) -> Seq<
    launch::Term,
> {
    Seq::new(
        src.len(),
        |i: int|
            launch::rms(
                lw(il, Slot::KNorm),
                c.head_dim as nat,
                launch::mm(env, lw(il, Slot::Wk), src[i]),
            ),
    )
}

pub open spec fn flat_queries(
    env: launch::Env,
    c: DflashCfg,
    il: usize,
    xs: Seq<launch::Term>,
) -> Seq<launch::Term> {
    Seq::new(
        xs.len(),
        |i: int|
            launch::rms(
                lw(il, Slot::QNorm),
                c.head_dim as nat,
                launch::mm(env, lw(il, Slot::Wq), block_row(c, il, xs[i])),
            ),
    )
}

proof fn lemma_stack(
    env: launch::Env,
    s: launch::Store,
    c: DflashCfg,
    il: usize,
    ctx: usize,
    feats: Seq<launch::Term>,
    pos: Seq<i32>,
    xs: Seq<launch::Term>,
)
    requires
        at_layer(s, feats, pos, xs),
        ({
            let xn = Seq::new(xs.len(), |i: int| block_row(c, il, xs[i]));
            &&& s[Buf::Qf] == launch::rows1(
                |x: launch::Term| launch::mm(env, lw(il, Slot::Wq), x),
                xn,
            )
            &&& s[Buf::KCtx] == launch::rows1(
                |x: launch::Term| launch::mm(env, lw(il, Slot::Wk), x),
                feats,
            )
            &&& s[Buf::VCtx] == launch::rows1(
                |x: launch::Term| launch::mm(env, lw(il, Slot::Wv), x),
                feats,
            )
            &&& s[Buf::KBlk] == launch::rows1(
                |x: launch::Term| launch::mm(env, lw(il, Slot::Wk), x),
                xn,
            )
            &&& s[Buf::VBlk] == launch::rows1(
                |x: launch::Term| launch::mm(env, lw(il, Slot::Wv), x),
                xn,
            )
        }),
    ensures
        ({
            let e = launch::run(env, s, stack_ops(c, il, ctx));
            let src = sources(c, il, feats, xs);
            &&& at_layer(e, feats, pos, xs)
            &&& e[Buf::Q] == flat_queries(env, c, il, xs)
            &&& e[Buf::Kn] == flat_keys(env, c, il, src)
            &&& e[Buf::V] == values(env, il, src)
        }),
{
    let ops = stack_ops(c, il, ctx);
    launch::lemma_run4(env, s, ops[0], ops[1], ops[2], ops[3]);
    assert(ops =~= seq![ops[0], ops[1], ops[2], ops[3]]);
    let s1 = launch::step(env, s, ops[0]);
    let s2 = launch::step(env, s1, ops[1]);
    let s3 = launch::step(env, s2, ops[2]);
    let e = launch::step(env, s3, ops[3]);
    let src = sources(c, il, feats, xs);
    lemma_keeps_context(env, s, ops, feats, pos);
    launch::lemma_run_frame(env, s, ops, Buf::X);
    let k = Seq::new(src.len(), |i: int| launch::mm(env, lw(il, Slot::Wk), src[i]));
    assert(s1[Buf::K] == k) by {
        reveal(launch::step);
        assert(s1[Buf::K] =~= k);
    }
    assert(s2[Buf::V] == values(env, il, src) && s2[Buf::K] == k && s2[Buf::Qf] == s[Buf::Qf]) by {
        reveal(launch::step);
        assert(s2[Buf::V] =~= values(env, il, src));
    }
    assert(s3[Buf::Q] == flat_queries(env, c, il, xs) && s3[Buf::K] == k && s3[Buf::V]
        == s2[Buf::V]) by {
        reveal(launch::step);
        assert(s3[Buf::Q] =~= flat_queries(env, c, il, xs));
    }
    assert(e[Buf::Kn] == flat_keys(env, c, il, src) && e[Buf::Q] == s3[Buf::Q] && e[Buf::V]
        == s3[Buf::V]) by {
        reveal(launch::step);
        assert(e[Buf::Kn] =~= flat_keys(env, c, il, src));
    }
}

proof fn lemma_rope(
    env: launch::Env,
    s: launch::Store,
    c: DflashCfg,
    il: usize,
    ctx: usize,
    norope: bool,
    feats: Seq<launch::Term>,
    pos: Seq<i32>,
    xs: Seq<launch::Term>,
)
    requires
        at_layer(s, feats, pos, xs),
        s[Buf::Q] == flat_queries(env, c, il, xs),
        s[Buf::Kn] == flat_keys(env, c, il, sources(c, il, feats, xs)),
    ensures
        ({
            let e = launch::run(env, s, rope_ops(c, ctx, norope));
            let src = sources(c, il, feats, xs);
            &&& at_layer(e, feats, pos, xs)
            &&& e[Buf::Q] == Seq::new(
                xs.len(),
                |i: int| query(env, c, norope, il, xs[i], pos[feats.len() + i]),
            )
            &&& e[Buf::Kn] == keys(env, c, norope, il, src, pos)
            &&& e[Buf::V] == s[Buf::V]
        }),
{
    let ops = rope_ops(c, ctx, norope);
    let src = sources(c, il, feats, xs);
    let qs = Seq::new(xs.len(), |i: int| query(env, c, norope, il, xs[i], pos[feats.len() + i]));
    let e = launch::run(env, s, ops);
    if norope {
        assert(ops =~= Seq::<Op>::empty());
        assert(e[Buf::Q] =~= qs);
        assert(e[Buf::Kn] =~= keys(env, c, norope, il, src, pos));
    } else {
        launch::lemma_run2(env, s, ops[0], ops[1]);
        assert(ops =~= seq![ops[0], ops[1]]);
        lemma_keeps_context(env, s, ops, feats, pos);
        launch::lemma_run_frame(env, s, ops, Buf::X);
        launch::lemma_run_frame(env, s, ops, Buf::V);
        let s1 = launch::step(env, s, ops[0]);
        assert(s1[Buf::Q] == qs && s1[Buf::Kn] == s[Buf::Kn] && s1[Buf::Pos] == s[Buf::Pos]) by {
            reveal(launch::step);
            assert(s1[Buf::Q] =~= qs);
        }
        assert(e[Buf::Kn] == keys(env, c, norope, il, src, pos) && e[Buf::Q] == s1[Buf::Q]) by {
            reveal(launch::step);
            assert(e[Buf::Kn] =~= keys(env, c, norope, il, src, pos));
        }
    }
}

proof fn lemma_attn(
    env: launch::Env,
    s: launch::Store,
    c: DflashCfg,
    il: usize,
    ctx: usize,
    o: DflashOptions,
    feats: Seq<launch::Term>,
    pos: Seq<i32>,
    xs: Seq<launch::Term>,
)
    requires
        at_layer(s, feats, pos, xs),
        s[Buf::Q] == Seq::new(
            xs.len(),
            |i: int| query(env, c, o.norope, il, xs[i], pos[feats.len() + i]),
        ),
        s[Buf::Kn] == keys(env, c, o.norope, il, sources(c, il, feats, xs), pos),
        s[Buf::V] == values(env, il, sources(c, il, feats, xs)),
    ensures
        ({
            let e = launch::run(env, s, attn_ops(c, il, ctx, o.fused));
            &&& at_layer(e, feats, pos, xs)
            &&& e[Buf::X1] == Seq::new(
                xs.len(),
                |i: int| attended_row(env, c, o, il, feats, xs, pos, i),
            )
        }),
{
    let ops = attn_ops(c, il, ctx, o.fused);
    launch::lemma_run3(env, s, ops[0], ops[1], ops[2]);
    assert(ops =~= seq![ops[0], ops[1], ops[2]]);
    lemma_keeps_context(env, s, ops, feats, pos);
    launch::lemma_run_frame(env, s, ops, Buf::X);
    let s1 = launch::step(env, s, ops[0]);
    let s2 = launch::step(env, s1, ops[1]);
    let e = launch::step(env, s2, ops[2]);
    let src = sources(c, il, feats, xs);
    let ks = keys(env, c, o.norope, il, src, pos);
    let vs = values(env, il, src);
    let f = launch::Fun::AttendAll(c.head_dim as nat, c.n_head as nat, c.n_kv as nat, o.fused);
    let a = Seq::new(
        xs.len(),
        |i: int|
            launch::Term::Node(
                f,
                seq![query(env, c, o.norope, il, xs[i], pos[feats.len() + i])] + ks + vs,
            ),
    );
    assert(s1[Buf::Attn] == a && s1[Buf::X] == xs) by {
        reveal(launch::step);
        assert(s1[Buf::Attn] =~= a);
    }
    let m = Seq::new(xs.len(), |i: int| launch::mm(env, lw(il, Slot::Wo), a[i]));
    assert(s2[Buf::Mixed] == m && s2[Buf::X] == xs) by {
        reveal(launch::step);
        assert(s2[Buf::Mixed] =~= m);
    }
    let x1 = Seq::new(xs.len(), |i: int| attended_row(env, c, o, il, feats, xs, pos, i));
    assert(e[Buf::X1] == x1) by {
        reveal(launch::step);
        assert(e[Buf::X1] =~= x1);
    }
}

proof fn lemma_mlp(
    env: launch::Env,
    s: launch::Store,
    c: DflashCfg,
    il: usize,
    feats: Seq<launch::Term>,
    pos: Seq<i32>,
    x1: Seq<launch::Term>,
)
    requires
        same_context(s, feats, pos),
        s[Buf::X1] == x1,
    ensures
        ({
            let e = launch::run(env, s, gate_ops(c, il) + down_ops(c, il));
            &&& same_context(e, feats, pos)
            &&& e[Buf::X] == Seq::new(
                x1.len(),
                |i: int| launch::sum(fed(env, c, il, x1[i]), x1[i]),
            )
        }),
{
    let p = gate_ops(c, il);
    let q = down_ops(c, il);
    launch::lemma_run_concat(env, s, p, q);
    launch::lemma_run4(env, s, p[0], p[1], p[2], p[3]);
    assert(p =~= seq![p[0], p[1], p[2], p[3]]);
    let s4 = launch::run(env, s, p);
    launch::lemma_run2(env, s4, q[0], q[1]);
    assert(q =~= seq![q[0], q[1]]);
    lemma_keeps_context(env, s, p, feats, pos);
    lemma_keeps_context(env, s4, q, feats, pos);
    launch::lemma_run_frame(env, s, p, Buf::X1);
    let s1 = launch::step(env, s, p[0]);
    let s2 = launch::step(env, s1, p[1]);
    let s3 = launch::step(env, s2, p[2]);
    let s5 = launch::step(env, s4, q[0]);
    let e = launch::step(env, s5, q[1]);
    let z = Seq::new(x1.len(), |i: int| launch::rms(lw(il, Slot::FfnNorm), c.hidden as nat, x1[i]));
    let g = Seq::new(x1.len(), |i: int| launch::mm(env, lw(il, Slot::FfnGate), z[i]));
    let u = Seq::new(x1.len(), |i: int| launch::mm(env, lw(il, Slot::FfnUp), z[i]));
    let a = Seq::new(x1.len(), |i: int| launch::act(false, g[i], u[i]));
    let d = Seq::new(x1.len(), |i: int| fed(env, c, il, x1[i]));
    let out = Seq::new(x1.len(), |i: int| launch::sum(fed(env, c, il, x1[i]), x1[i]));
    assert(s1[Buf::Z] == z) by {
        reveal(launch::step);
        assert(s1[Buf::Z] =~= z);
    }
    assert(s2[Buf::FfnGate] == g && s2[Buf::Z] == z) by {
        reveal(launch::step);
        assert(s2[Buf::FfnGate] =~= g);
    }
    assert(s3[Buf::FfnUp] == u && s3[Buf::FfnGate] == g) by {
        reveal(launch::step);
        assert(s3[Buf::FfnUp] =~= u);
    }
    assert(s4[Buf::Act] == a) by {
        reveal(launch::step);
        assert(s4[Buf::Act] =~= a);
    }
    assert(s5[Buf::FfnOut] == d && s5[Buf::X1] == x1) by {
        reveal(launch::step);
        assert(s5[Buf::FfnOut] =~= d);
    }
    assert(e[Buf::X] == out) by {
        reveal(launch::step);
        assert(e[Buf::X] =~= out);
    }
}

proof fn lemma_layers(
    env: launch::Env,
    s: launch::Store,
    c: DflashCfg,
    ctx: usize,
    o: DflashOptions,
    w: DflashInput,
    n: nat,
)
    requires
        at_layer(s, features(env, c, w.taps), w.pos, w.noise),
    ensures
        block_rows(env, c, o, w, n).len() == w.noise.len(),
        at_layer(
            launch::run(env, s, layers_ops(c, ctx, o, n)),
            features(env, c, w.taps),
            w.pos,
            block_rows(env, c, o, w, n),
        ),
    decreases n,
{
    if n > 0 {
        lemma_layers(env, s, c, ctx, o, w, (n - 1) as nat);
        let f = features(env, c, w.taps);
        let xs = block_rows(env, c, o, w, (n - 1) as nat);
        let il = (n - 1) as usize;
        let p0 = layers_ops(c, ctx, o, (n - 1) as nat);
        let p1 = proj_ops(c, il, ctx);
        let p2 = stack_ops(c, il, ctx);
        let p3 = rope_ops(c, ctx, o.norope);
        let p4 = attn_ops(c, il, ctx, o.fused);
        let p5 = gate_ops(c, il) + down_ops(c, il);
        let all = p0 + (p1 + (p2 + (p3 + (p4 + p5))));
        assert(layers_ops(c, ctx, o, n) =~= all);
        let s0 = launch::run(env, s, p0);
        launch::lemma_run_concat(env, s, p0, p1 + (p2 + (p3 + (p4 + p5))));
        launch::lemma_run_concat(env, s0, p1, p2 + (p3 + (p4 + p5)));
        let s1 = launch::run(env, s0, p1);
        launch::lemma_run_concat(env, s1, p2, p3 + (p4 + p5));
        let s2 = launch::run(env, s1, p2);
        launch::lemma_run_concat(env, s2, p3, p4 + p5);
        let s3 = launch::run(env, s2, p3);
        launch::lemma_run_concat(env, s3, p4, p5);
        let s4 = launch::run(env, s3, p4);
        lemma_proj(env, s0, c, il, ctx, f, w.pos, xs);
        lemma_stack(env, s1, c, il, ctx, f, w.pos, xs);
        lemma_rope(env, s2, c, il, ctx, o.norope, f, w.pos, xs);
        lemma_attn(env, s3, c, il, ctx, o, f, w.pos, xs);
        lemma_mlp(env, s4, c, il, f, w.pos, s4[Buf::X1]);
        let e = launch::run(env, s4, p5);
        assert(e[Buf::X] =~= block_rows(env, c, o, w, n));
    }
}

proof fn lemma_positions(
    env: launch::Env,
    s: launch::Store,
    dst: Buf,
    pos: Seq<i32>,
    from: int,
    m: nat,
)
    requires
        0 <= from,
        from + m <= pos.len(),
        m <= s[dst].len() <= usize::MAX,
    ensures
        ({
            let e = launch::run(env, s, pos_ops(dst, pos, from, m));
            &&& e[dst].len() == s[dst].len()
            &&& forall|i: int|
                0 <= i < m ==> #[trigger] e[dst][i] == launch::Term::Int(pos[from + i] as int)
            &&& forall|b: Buf| b != dst ==> #[trigger] e[b] == s[b]
        }),
    decreases m,
{
    if m > 0 {
        lemma_positions(env, s, dst, pos, from, (m - 1) as nat);
        let before = pos_ops(dst, pos, from, (m - 1) as nat);
        let op = Op::PutPos { dst, row: (m - 1) as usize, value: pos[from + m - 1] };
        launch::lemma_run_push(env, s, before, op);
        reveal(launch::step);
    }
}

/// The pass computes the normalized block rows after all layers.
pub proof fn law_forward(
    env: launch::Env,
    s: launch::Store,
    d: DflashDraft,
    ctx: usize,
    o: DflashOptions,
    w: DflashInput,
)
    requires
        w.taps.len() == ctx,
        w.noise.len() == d.cfg.block_size,
        w.pos.len() == ctx + d.cfg.block_size <= usize::MAX,
        s[Buf::Cat] == w.taps,
        s[Buf::Noise] == w.noise,
    ensures
        launch::run(env, s, forward_ops(d, w.pos, ctx, o))[Buf::Hn] == launch::rows1(
            |x: launch::Term| launch::rms(Weight::Model(Slot::OutputNorm), d.cfg.hidden as nat, x),
            block_rows(env, d.cfg, o, w, d.layers@.len()),
        ),
{
    let c = d.cfg;
    let b = c.block_size;
    let st = start_ops(c, w.pos, ctx);
    let a = st.take(4);
    let a5 = st[4];
    let f = features(env, c, w.taps);
    let pb = pos_ops(Buf::PosBlk, w.pos, ctx as int, b as nat);
    let pa = pos_ops(Buf::Pos, w.pos, 0, (ctx + b) as nat);
    assert(st =~= a.push(a5) + pb + pa);
    assert(a =~= seq![st[0], st[1], st[2], st[3]]);
    launch::lemma_run4(env, s, st[0], st[1], st[2], st[3]);
    launch::lemma_run_push(env, s, a, a5);
    launch::lemma_run_concat(env, s, a.push(a5), pb);
    launch::lemma_run_concat(env, s, a.push(a5) + pb, pa);
    let s1 = launch::step(env, s, st[0]);
    let s2 = launch::step(env, s1, st[1]);
    let s3 = launch::step(env, s2, st[2]);
    let s4 = launch::step(env, s3, st[3]);
    let s5 = launch::step(env, s4, a5);
    assert(s1[Buf::FcOut] == launch::rows1(
        |x: launch::Term| launch::mm(env, Weight::Model(Slot::Fc), x),
        w.taps,
    ) && s1[Buf::Noise] == w.noise) by {
        reveal(launch::step);
    }
    assert(s2[Buf::CtxF] == f && s2[Buf::Noise] == w.noise) by {
        reveal(launch::step);
        assert(s2[Buf::CtxF] =~= f);
    }
    assert(s5[Buf::X] == w.noise && s5[Buf::CtxF] == f && s5[Buf::PosBlk].len() == b
        && s5[Buf::Pos].len() == ctx + b) by {
        reveal(launch::step);
    }
    let s6 = launch::run(env, s5, pb);
    let s7 = launch::run(env, s6, pa);
    lemma_positions(env, s5, Buf::PosBlk, w.pos, ctx as int, b as nat);
    assert(s6[Buf::Pos] == s5[Buf::Pos]);
    lemma_positions(env, s6, Buf::Pos, w.pos, 0, (ctx + b) as nat);
    assert(s6[Buf::X] == s5[Buf::X] && s7[Buf::X] == s6[Buf::X]);
    assert(s6[Buf::CtxF] == s5[Buf::CtxF] && s7[Buf::CtxF] == s6[Buf::CtxF]);
    assert(s7[Buf::PosBlk] == s6[Buf::PosBlk]);
    assert(s7[Buf::Pos] =~= w.pos.map_values(|p: i32| launch::Term::Int(p as int)));
    assert(s7[Buf::PosBlk] =~= w.pos.skip(f.len() as int).map_values(
        |p: i32| launch::Term::Int(p as int),
    ));
    let body = layers_ops(c, ctx, o, d.layers@.len());
    launch::lemma_run_concat(env, s, st, body);
    launch::lemma_run_push(env, s, st + body, tail_op(c));
    lemma_layers(env, s7, c, ctx, o, w, d.layers@.len());
    let s8 = launch::run(env, s7, body);
    let e = launch::step(env, s8, tail_op(c));
    assert(e[Buf::Hn] == launch::rows1(
        |x: launch::Term| launch::rms(Weight::Model(Slot::OutputNorm), c.hidden as nat, x),
        block_rows(env, c, o, w, d.layers@.len()),
    )) by {
        reveal(launch::step);
    }
}

} // verus!
