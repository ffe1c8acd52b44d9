//! The dense forward pass over a whole prompt.

use vstd::prelude::*;

use crate::config::{Ffn, ModelConfig};
use crate::decode_laws;
use crate::launch;
use crate::launch::{Buf, Op, Slot, Weight};

verus! {

/// One layer of the dense model: whether queries and keys are normalized, and the feed-forward
/// block.
#[derive(Clone, Copy, Debug, PartialEq, Eq, Structural)]
pub struct DenseLayer {
    pub q_norm: bool,
    pub k_norm: bool,
    pub ffn: Ffn,
}

/// The dense model.
pub struct DenseModel {
    pub cfg: ModelConfig,
    pub layers: Vec<DenseLayer>,
}

pub open spec fn lw(il: int, slot: Slot) -> Weight {
    Weight::Layer(il as usize, slot)
}

pub open spec fn q_buf(l: DenseLayer) -> Buf {
    if l.q_norm {
        Buf::Qn
    } else {
        Buf::Q
    }
}

pub open spec fn k_buf(l: DenseLayer) -> Buf {
    if l.k_norm {
        Buf::Kn
    } else {
        Buf::K
    }
}

/// Positions and embeddings of the first `m` tokens.
pub open spec fn token_ops(tokens: Seq<u32>, dim: usize, m: nat) -> Seq<Op>
    decreases m,
{
    if m == 0 {
        Seq::empty()
    } else {
        token_ops(tokens, dim, (m - 1) as nat) + seq![
            Op::SetPos { row: (m - 1) as usize, pos: (m - 1) as usize },
            Op::EmbedHost { row: (m - 1) as usize, token: tokens[m - 1], dim },
        ]
    }
}

/// Norm and projections of all rows.
pub open spec fn proj_ops(m: DenseModel, il: int, t: usize) -> Seq<Op> {
    seq![
        Op::RmsNorm {
            src: Buf::X,
            w: lw(il, Slot::AttnNorm),
            dst: Buf::H,
            dim: m.cfg.n_embd,
            rows: t,
        },
        Op::Matmul { w: lw(il, Slot::Wq), src: Buf::H, dst: Buf::Q, rows: t },
        Op::Matmul { w: lw(il, Slot::Wk), src: Buf::H, dst: Buf::K, rows: t },
        Op::Matmul { w: lw(il, Slot::Wv), src: Buf::H, dst: Buf::V, rows: t },
    ]
}

/// Query and key norms.
pub open spec fn qk_norm_ops(m: DenseModel, il: int, t: usize) -> Seq<Op> {
    let l = m.layers@[il];
    let c = m.cfg;
    (if l.q_norm {
        seq![
            Op::RmsNorm {
                src: Buf::Q,
                w: lw(il, Slot::QNorm),
                dst: Buf::Qn,
                dim: c.head_dim_k,
                rows: (c.n_head * t) as usize,
            },
        ]
    } else {
        Seq::empty()
    }) + (if l.k_norm {
        seq![
            Op::RmsNorm {
                src: Buf::K,
                w: lw(il, Slot::KNorm),
                dst: Buf::Kn,
                dim: c.head_dim_k,
                rows: (c.n_head_kv * t) as usize,
            },
        ]
    } else {
        Seq::empty()
    })
}

/// Rotary embedding, causal attention and output projection.
pub open spec fn attn_ops(m: DenseModel, il: int, t: usize) -> Seq<Op> {
    let l = m.layers@[il];
    let c = m.cfg;
    seq![
        Op::Rope {
            buf: q_buf(l),
            head_dim: c.head_dim_k,
            dims: c.rope_dim_count,
            heads: c.n_head,
            rows: t,
        },
        Op::Rope {
            buf: k_buf(l),
            head_dim: c.head_dim_k,
            dims: c.rope_dim_count,
            heads: c.n_head_kv,
            rows: t,
        },
        Op::SdpaCausal {
            q: q_buf(l),
            k: k_buf(l),
            v: Buf::V,
            dst: Buf::Attn,
            head_dim: c.head_dim_k,
            n_head: c.n_head,
            n_head_kv: c.n_head_kv,
            t,
        },
        Op::Matmul { w: lw(il, Slot::Wo), src: Buf::Attn, dst: Buf::Mixed, rows: t },
    ]
}

/// The feed-forward block.
pub open spec fn block_ops(m: DenseModel, il: int, t: usize) -> Seq<Op> {
    match m.layers@[il].ffn {
        Ffn::Dense { ffn_gate, ffn_up, ffn_down } => seq![
            Op::Matmul { w: lw(il, Slot::FfnGate), src: Buf::Z, dst: Buf::FfnGate, rows: t },
            Op::Matmul { w: lw(il, Slot::FfnUp), src: Buf::Z, dst: Buf::FfnUp, rows: t },
            Op::FfnAct {
                gate: Buf::FfnGate,
                up: Buf::FfnUp,
                dst: Buf::Act,
                n: (t * ffn_gate.out_f) as usize,
                m3: m.cfg.is_m3(),
            },
            Op::Matmul { w: lw(il, Slot::FfnDown), src: Buf::Act, dst: Buf::FfnOut, rows: t },
        ],
        Ffn::Moe => seq![
            Op::MoeFfn { layer: il as usize, src: Buf::Z, dst: Buf::FfnOut, rows: t },
        ],
    }
}

/// Residual, norm and feed-forward block.
pub open spec fn feed_ops(m: DenseModel, il: int, t: usize) -> Seq<Op> {
    let c = m.cfg;
    seq![
        Op::Add { a: Buf::X, b: Buf::Mixed, dst: Buf::X1, n: (t * c.n_embd) as usize },
        Op::RmsNorm {
            src: Buf::X1,
            w: lw(il, Slot::FfnNorm),
            dst: Buf::Z,
            dim: c.n_embd,
            rows: t,
        },
    ] + block_ops(m, il, t) + seq![
        Op::Add { a: Buf::X1, b: Buf::FfnOut, dst: Buf::X, n: (t * c.n_embd) as usize },
    ]
}

pub open spec fn layer_ops(m: DenseModel, il: int, t: usize) -> Seq<Op> {
    proj_ops(m, il, t) + qk_norm_ops(m, il, t) + attn_ops(m, il, t) + feed_ops(m, il, t)
}

/// The first `n` layers.
pub open spec fn layers_ops(m: DenseModel, t: usize, n: nat) -> Seq<Op>
    decreases n,
{
    if n == 0 {
        Seq::empty()
    } else {
        layers_ops(m, t, (n - 1) as nat) + layer_ops(m, n - 1, t)
    }
}

pub open spec fn start_ops(tokens: Seq<u32>, dim: usize) -> Seq<Op> {
    let t = tokens.len() as usize;
    seq![
        Op::Alloc { dst: Buf::Pos, rows: t, dim: 1 },
        Op::Alloc { dst: Buf::X, rows: t, dim },
    ] + token_ops(tokens, dim, tokens.len())
}

pub open spec fn head_ops(dim: usize, t: usize) -> Seq<Op> {
    seq![
        Op::RmsNorm {
            src: Buf::X,
            w: Weight::Model(Slot::OutputNorm),
            dst: Buf::Hn,
            dim,
            rows: t,
        },
        Op::Matmul { w: Weight::Model(Slot::Output), src: Buf::Hn, dst: Buf::Logits, rows: t },
    ]
}

/// The whole pass.
pub open spec fn forward_ops(m: DenseModel, tokens: Seq<u32>) -> Seq<Op> {
    start_ops(tokens, m.cfg.n_embd) + layers_ops(m, tokens.len() as usize, m.layers@.len())
        + head_ops(m.cfg.n_embd, tokens.len() as usize)
}

/// Buffer lengths for `t` rows fit.
pub open spec fn fits(m: DenseModel, t: int) -> bool {
    &&& t * m.cfg.n_embd <= usize::MAX
    &&& m.cfg.n_head * t <= usize::MAX
    &&& m.cfg.n_head_kv * t <= usize::MAX
    &&& forall|i: int|
        0 <= i < m.layers@.len() ==> (#[trigger] m.layers@[i].ffn matches Ffn::Dense {
            ffn_gate,
            ..
        } ==> t * ffn_gate.out_f <= usize::MAX)
}

fn push_attn(ops: &mut Vec<Op>, m: &DenseModel, il: usize, t: usize)
    requires
        il < m.layers@.len(),
        fits(*m, t as int),
    ensures
        final(ops)@ == old(ops)@ + (proj_ops(*m, il as int, t) + qk_norm_ops(*m, il as int, t)
            + attn_ops(*m, il as int, t)),
{
    let l = m.layers[il];
    let (hd, nh, nkv, dims) = (
        m.cfg.head_dim_k,
        m.cfg.n_head,
        m.cfg.n_head_kv,
        m.cfg.rope_dim_count,
    );
    ops.push(
        Op::RmsNorm {
            src: Buf::X,
            w: Weight::Layer(il, Slot::AttnNorm),
            dst: Buf::H,
            dim: m.cfg.n_embd,
            rows: t,
        },
    );
    ops.push(Op::Matmul { w: Weight::Layer(il, Slot::Wq), src: Buf::H, dst: Buf::Q, rows: t });
    ops.push(Op::Matmul { w: Weight::Layer(il, Slot::Wk), src: Buf::H, dst: Buf::K, rows: t });
    ops.push(Op::Matmul { w: Weight::Layer(il, Slot::Wv), src: Buf::H, dst: Buf::V, rows: t });
    assert(ops@ =~= old(ops)@ + proj_ops(*m, il as int, t));
    if l.q_norm {
        ops.push(
            Op::RmsNorm {
                src: Buf::Q,
                w: Weight::Layer(il, Slot::QNorm),
                dst: Buf::Qn,
                dim: hd,
                rows: nh * t,
            },
        );
    }
    if l.k_norm {
        ops.push(
            Op::RmsNorm {
                src: Buf::K,
                w: Weight::Layer(il, Slot::KNorm),
                dst: Buf::Kn,
                dim: hd,
                rows: nkv * t,
            },
        );
    }
    assert(ops@ =~= old(ops)@ + (proj_ops(*m, il as int, t) + qk_norm_ops(*m, il as int, t)));
    let q = if l.q_norm {
        Buf::Qn
    } else {
        Buf::Q
    };
    let k = if l.k_norm {
        Buf::Kn
    } else {
        Buf::K
    };
    ops.push(Op::Rope { buf: q, head_dim: hd, dims, heads: nh, rows: t });
    ops.push(Op::Rope { buf: k, head_dim: hd, dims, heads: nkv, rows: t });
    ops.push(
        Op::SdpaCausal {
            q,
            k,
            v: Buf::V,
            dst: Buf::Attn,
            head_dim: hd,
            n_head: nh,
            n_head_kv: nkv,
            t,
        },
    );
    ops.push(
        Op::Matmul { w: Weight::Layer(il, Slot::Wo), src: Buf::Attn, dst: Buf::Mixed, rows: t },
    );
    assert(ops@ =~= old(ops)@ + (proj_ops(*m, il as int, t) + qk_norm_ops(*m, il as int, t)
        + attn_ops(*m, il as int, t)));
}

fn push_feed(ops: &mut Vec<Op>, m: &DenseModel, il: usize, t: usize)
    requires
        il < m.layers@.len(),
        fits(*m, t as int),
    ensures
        final(ops)@ == old(ops)@ + feed_ops(*m, il as int, t),
{
    let dim = m.cfg.n_embd;
    let n: usize = t * dim;
    let m3 = m.cfg.m3_moe_layer_freq.is_some();
    ops.push(Op::Add { a: Buf::X, b: Buf::Mixed, dst: Buf::X1, n });
    ops.push(
        Op::RmsNorm {
            src: Buf::X1,
            w: Weight::Layer(il, Slot::FfnNorm),
            dst: Buf::Z,
            dim,
            rows: t,
        },
    );
    match m.layers[il].ffn {
        Ffn::Dense { ffn_gate, ffn_up: _, ffn_down: _ } => {
            assert(m.layers@[il as int].ffn is Dense);
            ops.push(
                Op::Matmul {
                    w: Weight::Layer(il, Slot::FfnGate),
                    src: Buf::Z,
                    dst: Buf::FfnGate,
                    rows: t,
                },
            );
            ops.push(
                Op::Matmul {
                    w: Weight::Layer(il, Slot::FfnUp),
                    src: Buf::Z,
                    dst: Buf::FfnUp,
                    rows: t,
                },
            );
            ops.push(
                Op::FfnAct {
                    gate: Buf::FfnGate,
                    up: Buf::FfnUp,
                    dst: Buf::Act,
                    n: t * ffn_gate.out_f,
                    m3,
                },
            );
            ops.push(
                Op::Matmul {
                    w: Weight::Layer(il, Slot::FfnDown),
                    src: Buf::Act,
                    dst: Buf::FfnOut,
                    rows: t,
                },
            );
        },
        Ffn::Moe => {
            ops.push(Op::MoeFfn { layer: il, src: Buf::Z, dst: Buf::FfnOut, rows: t });
        },
    }
    ops.push(Op::Add { a: Buf::X1, b: Buf::FfnOut, dst: Buf::X, n });
    assert(ops@ =~= old(ops)@ + feed_ops(*m, il as int, t));
}

impl DenseModel {
    /// Plans the pass over `tokens` at positions 0, 1, ...; row `i` of `Logits` belongs to token
    /// `i`.
    pub fn forward(&self, tokens: &[u32]) -> (ops: Vec<Op>)
        requires
            fits(*self, tokens@.len() as int),
        ensures
            ops@ == forward_ops(*self, tokens@),
    {
        let t = tokens.len();
        let dim = self.cfg.n_embd;
        let mut ops: Vec<Op> = Vec::new();
        ops.push(Op::Alloc { dst: Buf::Pos, rows: t, dim: 1 });
        ops.push(Op::Alloc { dst: Buf::X, rows: t, dim });
        let ghost p0 = ops@;
        let mut i: usize = 0;
        assert(ops@ =~= p0 + token_ops(tokens@, dim, 0));
        while i < t
            invariant
                i <= t,
                t == tokens@.len(),
                ops@ == p0 + token_ops(tokens@, dim, i as nat),
            decreases t - i,
        {
            ops.push(Op::SetPos { row: i, pos: i });
            ops.push(Op::EmbedHost { row: i, token: tokens[i], dim });
            assert(ops@ =~= p0 + token_ops(tokens@, dim, (i + 1) as nat));
            i += 1;
        }
        assert(ops@ =~= start_ops(tokens@, dim));
        let ghost p1 = ops@;
        let n = self.layers.len();
        let mut il: usize = 0;
        assert(ops@ =~= p1 + layers_ops(*self, t, 0));
        while il < n
            invariant
                il <= n,
                n == self.layers@.len(),
                fits(*self, t as int),
                ops@ == p1 + layers_ops(*self, t, il as nat),
            decreases n - il,
        {
            push_attn(&mut ops, self, il, t);
            push_feed(&mut ops, self, il, t);
            assert(ops@ =~= p1 + layers_ops(*self, t, (il + 1) as nat));
            il += 1;
        }
        ops.push(
            Op::RmsNorm {
                src: Buf::X,
                w: Weight::Model(Slot::OutputNorm),
                dst: Buf::Hn,
                dim,
                rows: t,
            },
        );
        ops.push(
            Op::Matmul {
                w: Weight::Model(Slot::Output),
                src: Buf::Hn,
                dst: Buf::Logits,
                rows: t,
            },
        );
        assert(ops@ =~= forward_ops(*self, tokens@));
        ops
    }
}

/// Where the last of `rows` rows of `width` elements begins and ends.
pub fn last_row(rows: usize, width: usize) -> (r: (usize, usize))
    requires
        rows >= 1,
        rows * width <= usize::MAX,
    ensures
        r.0 == (rows - 1) * width,
        r.1 == rows * width,
{
    assert((rows - 1) * width <= rows * width) by (nonlinear_arith)
        requires
            rows >= 1,
    ;
    ((rows - 1) * width, rows * width)
}

/// Where row `i` of `rows` equal rows of a buffer of `len` elements begins and ends.
pub fn row_of(len: usize, rows: usize, i: usize) -> (r: (usize, usize))
    requires
        i < rows,
    ensures
        r.0 == i * (len / rows),
        r.1 == (i + 1) * (len / rows),
        r.0 <= r.1 <= len,
{
    let width: usize = len / rows;
    assert(i * width <= (i + 1) * width <= len) by (nonlinear_arith)
        requires
            i < rows,
            width == len / rows,
    ;
    (i * width, (i + 1) * width)
}

/// The rotated query of row `x` at position `i`.
pub open spec fn query(
    env: launch::Env,
    m: DenseModel,
    il: int,
    x: launch::Term,
    i: int,
) -> launch::Term {
    let c = m.cfg;
    let h = launch::rms(lw(il, Slot::AttnNorm), c.n_embd as nat, x);
    let q = launch::mm(env, lw(il, Slot::Wq), h);
    launch::bin(
        launch::Fun::Rope(c.head_dim_k as nat, c.rope_dim_count as nat, c.n_head as nat),
        if m.layers@[il].q_norm {
            launch::rms(lw(il, Slot::QNorm), c.head_dim_k as nat, q)
        } else {
            q
        },
        launch::Term::Int(i),
    )
}

/// The rotated key of row `x` at position `i`.
pub open spec fn key(
    env: launch::Env,
    m: DenseModel,
    il: int,
    x: launch::Term,
    i: int,
) -> launch::Term {
    let c = m.cfg;
    let h = launch::rms(lw(il, Slot::AttnNorm), c.n_embd as nat, x);
    let k = launch::mm(env, lw(il, Slot::Wk), h);
    launch::bin(
        launch::Fun::Rope(c.head_dim_k as nat, c.rope_dim_count as nat, c.n_head_kv as nat),
        if m.layers@[il].k_norm {
            launch::rms(lw(il, Slot::KNorm), c.head_dim_k as nat, k)
        } else {
            k
        },
        launch::Term::Int(i),
    )
}

/// The value of row `x`.
pub open spec fn value(env: launch::Env, m: DenseModel, il: int, x: launch::Term) -> launch::Term {
    launch::mm(
        env,
        lw(il, Slot::Wv),
        launch::rms(lw(il, Slot::AttnNorm), m.cfg.n_embd as nat, x),
    )
}

/// Row `i` after the attention of layer `il`: it sees itself and the rows before it.
pub open spec fn attended_row(
    env: launch::Env,
    m: DenseModel,
    il: int,
    xs: Seq<launch::Term>,
    i: int,
) -> launch::Term {
    let c = m.cfg;
    launch::mm(
        env,
        lw(il, Slot::Wo),
        launch::Term::Node(
            launch::Fun::Causal(c.head_dim_k as nat, c.n_head as nat, c.n_head_kv as nat),
            seq![query(env, m, il, xs[i], i)] + Seq::new(
                (i + 1) as nat,
                |j: int| key(env, m, il, xs[j], j),
            ) + Seq::new((i + 1) as nat, |j: int| value(env, m, il, xs[j])),
        ),
    )
}

/// What the feed-forward block makes of the normalized row `z`.
pub open spec fn block_row(
    env: launch::Env,
    m: DenseModel,
    il: int,
    z: launch::Term,
) -> launch::Term {
    match m.layers@[il].ffn {
        Ffn::Dense { ffn_gate, ffn_up, ffn_down } => launch::mm(
            env,
            lw(il, Slot::FfnDown),
            launch::act(
                m.cfg.is_m3(),
                launch::mm(env, lw(il, Slot::FfnGate), z),
                launch::mm(env, lw(il, Slot::FfnUp), z),
            ),
        ),
        Ffn::Moe => launch::un(launch::Fun::Moe(il as nat), z),
    }
}

/// What the feed-forward block makes of the residual `x1`.
pub open spec fn fed(env: launch::Env, m: DenseModel, il: int, x1: launch::Term) -> launch::Term {
    block_row(env, m, il, launch::rms(lw(il, Slot::FfnNorm), m.cfg.n_embd as nat, x1))
}

/// The rows after layer `il`.
pub open spec fn next_rows(
    env: launch::Env,
    m: DenseModel,
    il: int,
    xs: Seq<launch::Term>,
) -> Seq<launch::Term> {
    Seq::new(
        xs.len(),
        |i: int|
            {
                let x1 = launch::sum(xs[i], attended_row(env, m, il, xs, i));
                launch::sum(x1, fed(env, m, il, x1))
            },
    )
}

/// The rows after the first `n` layers.
pub open spec fn hidden_rows(
    env: launch::Env,
    m: DenseModel,
    tokens: Seq<u32>,
    n: nat,
) -> Seq<launch::Term>
    decreases n,
{
    if n == 0 {
        Seq::new(tokens.len(), |i: int| decode_laws::embedded(tokens[i]))
    } else {
        next_rows(env, m, n - 1, hidden_rows(env, m, tokens, (n - 1) as nat))
    }
}

/// The logits of all rows.
pub open spec fn logit_rows(
    env: launch::Env,
    m: DenseModel,
    tokens: Seq<u32>,
) -> Seq<launch::Term> {
    let xs = hidden_rows(env, m, tokens, m.layers@.len());
    Seq::new(
        xs.len(),
        |i: int|
            launch::mm(
                env,
                Weight::Model(Slot::Output),
                launch::rms(Weight::Model(Slot::OutputNorm), m.cfg.n_embd as nat, xs[i]),
            ),
    )
}

proof fn lemma_hidden_len(env: launch::Env, m: DenseModel, tokens: Seq<u32>, n: nat)
    ensures
        hidden_rows(env, m, tokens, n).len() == tokens.len(),
    decreases n,
{
    if n > 0 {
        lemma_hidden_len(env, m, tokens, (n - 1) as nat);
    }
}

proof fn lemma_hidden_prefix(
    env: launch::Env,
    m: DenseModel,
    tokens: Seq<u32>,
    k: int,
    n: nat,
)
    requires
        0 <= k <= tokens.len(),
    ensures
        hidden_rows(env, m, tokens.take(k), n) == hidden_rows(env, m, tokens, n).take(k),
    decreases n,
{
    lemma_hidden_len(env, m, tokens, n);
    lemma_hidden_len(env, m, tokens.take(k), n);
    if n == 0 {
        assert(hidden_rows(env, m, tokens.take(k), 0) =~= hidden_rows(env, m, tokens, 0).take(k));
    } else {
        let il = n - 1;
        lemma_hidden_prefix(env, m, tokens, k, il as nat);
        lemma_hidden_len(env, m, tokens, il as nat);
        let xs = hidden_rows(env, m, tokens, il as nat);
        let ys = xs.take(k);
        assert forall|i: int| 0 <= i < k implies #[trigger] next_rows(env, m, il, ys)[i]
            == next_rows(env, m, il, xs)[i] by {
            assert(Seq::new((i + 1) as nat, |j: int| key(env, m, il, ys[j], j)) =~= Seq::new(
                (i + 1) as nat,
                |j: int| key(env, m, il, xs[j], j),
            ));
            assert(Seq::new((i + 1) as nat, |j: int| value(env, m, il, ys[j])) =~= Seq::new(
                (i + 1) as nat,
                |j: int| value(env, m, il, xs[j]),
            ));
        }
        assert(next_rows(env, m, il, ys) =~= next_rows(env, m, il, xs).take(k));
    }
}

/// The pass is causal: the logits of a prefix are the first rows of the logits of the whole, so
/// the row of a token never depends on later tokens.
pub proof fn law_forward_is_causal(
    env: launch::Env,
    m: DenseModel,
    tokens: Seq<u32>,
    k: int,
)
    requires
        0 <= k <= tokens.len(),
    ensures
        logit_rows(env, m, tokens.take(k)) == logit_rows(env, m, tokens).take(k),
{
    let n = m.layers@.len();
    lemma_hidden_prefix(env, m, tokens, k, n);
    lemma_hidden_len(env, m, tokens, n);
    assert(logit_rows(env, m, tokens.take(k)) =~= logit_rows(env, m, tokens).take(k));
}

proof fn lemma_proj(
    env: launch::Env,
    m: DenseModel,
    s: launch::Store,
    il: int,
    t: usize,
    xs: Seq<launch::Term>,
)
    requires
        s[Buf::X] == xs,
    ensures
        ({
            let e = launch::run(env, s, proj_ops(m, il, t));
            let h = |i: int| launch::rms(lw(il, Slot::AttnNorm), m.cfg.n_embd as nat, xs[i]);
            &&& e[Buf::Q] == Seq::new(
                xs.len(),
                |i: int| launch::mm(env, lw(il, Slot::Wq), h(i)),
            )
            &&& e[Buf::K] == Seq::new(
                xs.len(),
                |i: int| launch::mm(env, lw(il, Slot::Wk), h(i)),
            )
            &&& e[Buf::V] == Seq::new(xs.len(), |i: int| value(env, m, il, xs[i]))
            &&& e[Buf::X] == xs
            &&& e[Buf::Pos] == s[Buf::Pos]
        }),
{
    let ops = proj_ops(m, il, t);
    launch::lemma_run4(env, s, ops[0], ops[1], ops[2], ops[3]);
    assert(ops =~= seq![ops[0], ops[1], ops[2], ops[3]]);
    let e = launch::run(env, s, ops);
    let h = |i: int| launch::rms(lw(il, Slot::AttnNorm), m.cfg.n_embd as nat, xs[i]);
    launch::lemma_run_frame(env, s, ops, Buf::X);
    launch::lemma_run_frame(env, s, ops, Buf::Pos);
    let s1 = launch::step(env, s, ops[0]);
    reveal(launch::step);
    assert(s1[Buf::H] =~= Seq::new(xs.len(), h));
    assert(e[Buf::Q] =~= Seq::new(xs.len(), |i: int| launch::mm(env, lw(il, Slot::Wq), h(i))));
    assert(e[Buf::K] =~= Seq::new(xs.len(), |i: int| launch::mm(env, lw(il, Slot::Wk), h(i))));
    assert(e[Buf::V] =~= Seq::new(xs.len(), |i: int| value(env, m, il, xs[i])));
}

proof fn lemma_qk_norm(
    env: launch::Env,
    m: DenseModel,
    s: launch::Store,
    il: int,
    t: usize,
    q: Seq<launch::Term>,
    k: Seq<launch::Term>,
)
    requires
        s[Buf::Q] == q,
        s[Buf::K] == k,
    ensures
        ({
            let e = launch::run(env, s, qk_norm_ops(m, il, t));
            let l = m.layers@[il];
            let hd = m.cfg.head_dim_k as nat;
            &&& e[q_buf(l)] == (if l.q_norm {
                Seq::new(q.len(), |i: int| launch::rms(lw(il, Slot::QNorm), hd, q[i]))
            } else {
                q
            })
            &&& e[k_buf(l)] == (if l.k_norm {
                Seq::new(k.len(), |i: int| launch::rms(lw(il, Slot::KNorm), hd, k[i]))
            } else {
                k
            })
            &&& e[Buf::V] == s[Buf::V]
            &&& e[Buf::X] == s[Buf::X]
            &&& e[Buf::Pos] == s[Buf::Pos]
        }),
{
    let l = m.layers@[il];
    let ops = qk_norm_ops(m, il, t);
    let e = launch::run(env, s, ops);
    let hd = m.cfg.head_dim_k as nat;
    launch::lemma_run_frame(env, s, ops, Buf::X);
    launch::lemma_run_frame(env, s, ops, Buf::V);
    launch::lemma_run_frame(env, s, ops, Buf::Pos);
    reveal(launch::step);
    if l.q_norm && l.k_norm {
        launch::lemma_run2(env, s, ops[0], ops[1]);
        assert(ops =~= seq![ops[0], ops[1]]);
    } else if l.q_norm || l.k_norm {
        launch::lemma_run1(env, s, ops[0]);
        assert(ops =~= seq![ops[0]]);
    } else {
        assert(ops =~= Seq::<Op>::empty());
    }
    if l.q_norm {
        assert(e[Buf::Qn] =~= Seq::new(
            q.len(),
            |i: int| launch::rms(lw(il, Slot::QNorm), hd, q[i]),
        ));
    }
    if l.k_norm {
        assert(e[Buf::Kn] =~= Seq::new(
            k.len(),
            |i: int| launch::rms(lw(il, Slot::KNorm), hd, k[i]),
        ));
    }
}

proof fn lemma_attn(
    env: launch::Env,
    m: DenseModel,
    s: launch::Store,
    il: int,
    t: usize,
    xs: Seq<launch::Term>,
)
    requires
        s[Buf::X] == xs,
        s[Buf::Pos] == Seq::new(xs.len(), |i: int| launch::Term::Int(i)),
    ensures
        ({
            let e = launch::run(
                env,
                s,
                proj_ops(m, il, t) + qk_norm_ops(m, il, t) + attn_ops(m, il, t),
            );
            &&& e[Buf::Mixed] == Seq::new(xs.len(), |i: int| attended_row(env, m, il, xs, i))
            &&& e[Buf::X] == xs
            &&& e[Buf::Pos] == s[Buf::Pos]
        }),
{
    let a = proj_ops(m, il, t);
    let b = qk_norm_ops(m, il, t);
    let c = attn_ops(m, il, t);
    let l = m.layers@[il];
    let cfg = m.cfg;
    launch::lemma_run_concat(env, s, a, b);
    launch::lemma_run_concat(env, s, a + b, c);
    lemma_proj(env, m, s, il, t, xs);
    let s1 = launch::run(env, s, a);
    lemma_qk_norm(env, m, s1, il, t, s1[Buf::Q], s1[Buf::K]);
    let s2 = launch::run(env, s1, b);
    let e = launch::run(env, s2, c);
    launch::lemma_run4(env, s2, c[0], c[1], c[2], c[3]);
    assert(c =~= seq![c[0], c[1], c[2], c[3]]);
    launch::lemma_run_frame(env, s2, c, Buf::X);
    launch::lemma_run_frame(env, s2, c, Buf::Pos);
    let t1 = launch::step(env, s2, c[0]);
    let t2 = launch::step(env, t1, c[1]);
    let t3 = launch::step(env, t2, c[2]);
    let qs = Seq::new(xs.len(), |i: int| query(env, m, il, xs[i], i));
    let ks = Seq::new(xs.len(), |i: int| key(env, m, il, xs[i], i));
    let vs = Seq::new(xs.len(), |i: int| value(env, m, il, xs[i]));
    assert(t1[q_buf(l)] == qs && t1[k_buf(l)] == s2[k_buf(l)] && t1[Buf::V] == s2[Buf::V]
        && t1[Buf::Pos] == s2[Buf::Pos]) by {
        reveal(launch::step);
        assert(t1[q_buf(l)] =~= qs);
    }
    assert(t2[k_buf(l)] == ks && t2[q_buf(l)] == qs && t2[Buf::V] == vs) by {
        reveal(launch::step);
        assert(t2[k_buf(l)] =~= ks);
    }
    let cau = launch::Fun::Causal(
        cfg.head_dim_k as nat,
        cfg.n_head as nat,
        cfg.n_head_kv as nat,
    );
    let node = |i: int|
        launch::Term::Node(
            cau,
            seq![qs[i]] + Seq::new((i + 1) as nat, |j: int| key(env, m, il, xs[j], j)) + Seq::new(
                (i + 1) as nat,
                |j: int| value(env, m, il, xs[j]),
            ),
        );
    assert(t3[Buf::Attn] == Seq::new(xs.len(), node)) by {
        reveal(launch::step);
        assert forall|i: int| 0 <= i < xs.len() implies t3[Buf::Attn][i] == node(i) by {
            assert(ks.take(i + 1) =~= Seq::new((i + 1) as nat, |j: int| key(env, m, il, xs[j], j)));
            assert(vs.take(i + 1) =~= Seq::new((i + 1) as nat, |j: int| value(env, m, il, xs[j])));
        }
        assert(t3[Buf::Attn] =~= Seq::new(xs.len(), node));
    }
    assert(e[Buf::Mixed] == Seq::new(xs.len(), |i: int| attended_row(env, m, il, xs, i))) by {
        reveal(launch::step);
        assert(e[Buf::Mixed] =~= Seq::new(xs.len(), |i: int| attended_row(env, m, il, xs, i)));
    }
}

proof fn lemma_block(
    env: launch::Env,
    m: DenseModel,
    s: launch::Store,
    il: int,
    t: usize,
    z: Seq<launch::Term>,
)
    requires
        0 <= il <= usize::MAX,
        s[Buf::Z] == z,
    ensures
        launch::run(env, s, block_ops(m, il, t))[Buf::FfnOut] == Seq::new(
            z.len(),
            |i: int| block_row(env, m, il, z[i]),
        ),
        launch::run(env, s, block_ops(m, il, t))[Buf::X1] == s[Buf::X1],
        launch::run(env, s, block_ops(m, il, t))[Buf::Pos] == s[Buf::Pos],
{
    let b = block_ops(m, il, t);
    let e = launch::run(env, s, b);
    let f = Seq::new(z.len(), |i: int| block_row(env, m, il, z[i]));
    launch::lemma_run_frame(env, s, b, Buf::X1);
    launch::lemma_run_frame(env, s, b, Buf::Pos);
    match m.layers@[il].ffn {
        Ffn::Dense { ffn_gate, ffn_up, ffn_down } => {
            launch::lemma_run4(env, s, b[0], b[1], b[2], b[3]);
            assert(b =~= seq![b[0], b[1], b[2], b[3]]);
            let t1 = launch::step(env, s, b[0]);
            let t2 = launch::step(env, t1, b[1]);
            let t3 = launch::step(env, t2, b[2]);
            let fg = Seq::new(z.len(), |i: int| launch::mm(env, lw(il, Slot::FfnGate), z[i]));
            let fu = Seq::new(z.len(), |i: int| launch::mm(env, lw(il, Slot::FfnUp), z[i]));
            let fa = Seq::new(z.len(), |i: int| launch::act(m.cfg.is_m3(), fg[i], fu[i]));
            assert(t1[Buf::FfnGate] == fg && t1[Buf::Z] == z) by {
                reveal(launch::step);
                assert(t1[Buf::FfnGate] =~= fg);
            }
            assert(t2[Buf::FfnUp] == fu && t2[Buf::FfnGate] == fg) by {
                reveal(launch::step);
                assert(t2[Buf::FfnUp] =~= fu);
            }
            assert(t3[Buf::Act] == fa) by {
                reveal(launch::step);
                assert(t3[Buf::Act] =~= fa);
            }
            assert(e[Buf::FfnOut] == f) by {
                reveal(launch::step);
                assert(e[Buf::FfnOut] =~= f);
            }
        },
        Ffn::Moe => {
            launch::lemma_run1(env, s, b[0]);
            assert(b =~= seq![b[0]]);
            assert(e[Buf::FfnOut] == f) by {
                reveal(launch::step);
                assert(e[Buf::FfnOut] =~= f);
            }
        },
    }
}

proof fn lemma_feed(
    env: launch::Env,
    m: DenseModel,
    s: launch::Store,
    il: int,
    t: usize,
    xs: Seq<launch::Term>,
    ys: Seq<launch::Term>,
)
    requires
        0 <= il <= usize::MAX,
        s[Buf::X] == xs,
        s[Buf::Mixed] == ys,
        xs.len() == ys.len(),
    ensures
        ({
            let e = launch::run(env, s, feed_ops(m, il, t));
            &&& e[Buf::X] == Seq::new(
                xs.len(),
                |i: int|
                    launch::sum(
                        launch::sum(xs[i], ys[i]),
                        fed(env, m, il, launch::sum(xs[i], ys[i])),
                    ),
            )
            &&& e[Buf::Pos] == s[Buf::Pos]
        }),
{
    let ops = feed_ops(m, il, t);
    let n = ops.len() as int;
    let a = seq![ops[0], ops[1]];
    let b = block_ops(m, il, t);
    let c = seq![ops[n - 1]];
    assert(ops =~= a + b + c);
    launch::lemma_run_concat(env, s, a, b);
    launch::lemma_run_concat(env, s, a + b, c);
    launch::lemma_run2(env, s, ops[0], ops[1]);
    let s1 = launch::run(env, s, a);
    let s2 = launch::run(env, s1, b);
    let e = launch::run(env, s2, c);
    launch::lemma_run1(env, s2, ops[n - 1]);
    let x1 = Seq::new(xs.len(), |i: int| launch::sum(xs[i], ys[i]));
    let z = Seq::new(
        xs.len(),
        |i: int| launch::rms(lw(il, Slot::FfnNorm), m.cfg.n_embd as nat, x1[i]),
    );
    assert(s1[Buf::X1] == x1 && s1[Buf::Z] == z && s1[Buf::Pos] == s[Buf::Pos]) by {
        reveal(launch::step);
        assert(s1[Buf::X1] =~= x1);
        assert(s1[Buf::Z] =~= z);
    }
    lemma_block(env, m, s1, il, t, z);
    let out = Seq::new(
        xs.len(),
        |i: int|
            launch::sum(
                launch::sum(xs[i], ys[i]),
                fed(env, m, il, launch::sum(xs[i], ys[i])),
            ),
    );
    assert(e[Buf::X] == out && e[Buf::Pos] == s[Buf::Pos]) by {
        reveal(launch::step);
        assert(e[Buf::X] =~= out);
    }
}

proof fn lemma_layers(
    env: launch::Env,
    m: DenseModel,
    s: launch::Store,
    tokens: Seq<u32>,
    n: nat,
)
    requires
        n <= m.layers.len(),
        s[Buf::X] == hidden_rows(env, m, tokens, 0),
        s[Buf::Pos] == Seq::new(tokens.len(), |i: int| launch::Term::Int(i)),
    ensures
        ({
            let e = launch::run(env, s, layers_ops(m, tokens.len() as usize, n));
            &&& e[Buf::X] == hidden_rows(env, m, tokens, n)
            &&& e[Buf::Pos] == s[Buf::Pos]
        }),
    decreases n,
{
    if n > 0 {
        let il = n - 1;
        let t = tokens.len() as usize;
        lemma_layers(env, m, s, tokens, il as nat);
        lemma_hidden_len(env, m, tokens, il as nat);
        let before = layers_ops(m, t, il as nat);
        let a = proj_ops(m, il, t) + qk_norm_ops(m, il, t) + attn_ops(m, il, t);
        let f = feed_ops(m, il, t);
        launch::lemma_run_concat(env, s, before, a + f);
        let s0 = launch::run(env, s, before);
        launch::lemma_run_concat(env, s0, a, f);
        let xs = hidden_rows(env, m, tokens, il as nat);
        lemma_attn(env, m, s0, il, t, xs);
        let s1 = launch::run(env, s0, a);
        lemma_feed(env, m, s1, il, t, xs, s1[Buf::Mixed]);
        let e = launch::run(env, s1, f);
        assert(e[Buf::X] =~= next_rows(env, m, il, xs));
    }
}

proof fn lemma_tokens(
    env: launch::Env,
    s: launch::Store,
    tokens: Seq<u32>,
    dim: usize,
    k: nat,
)
    requires
        k <= tokens.len() <= usize::MAX,
        s[Buf::X].len() == tokens.len(),
        s[Buf::Pos].len() == tokens.len(),
    ensures
        ({
            let e = launch::run(env, s, token_ops(tokens, dim, k));
            &&& e[Buf::X].len() == tokens.len()
            &&& e[Buf::Pos].len() == tokens.len()
            &&& forall|i: int|
                0 <= i < k ==> #[trigger] e[Buf::X][i] == decode_laws::embedded(tokens[i])
            &&& forall|i: int| 0 <= i < k ==> #[trigger] e[Buf::Pos][i] == launch::Term::Int(i)
        }),
    decreases k,
{
    if k > 0 {
        lemma_tokens(env, s, tokens, dim, (k - 1) as nat);
        let before = token_ops(tokens, dim, (k - 1) as nat);
        let a = Op::SetPos { row: (k - 1) as usize, pos: (k - 1) as usize };
        let b = Op::EmbedHost { row: (k - 1) as usize, token: tokens[k - 1], dim };
        launch::lemma_run_concat(env, s, before, seq![a, b]);
        let s1 = launch::run(env, s, before);
        launch::lemma_run2(env, s1, a, b);
        reveal(launch::step);
    }
}

/// The plan computes the logits of every token's row.
pub proof fn law_forward(env: launch::Env, m: DenseModel, s: launch::Store, tokens: Seq<u32>)
    requires
        tokens.len() <= usize::MAX,
    ensures
        launch::run(env, s, forward_ops(m, tokens))[Buf::Logits] == logit_rows(env, m, tokens),
{
    let t = tokens.len() as usize;
    let dim = m.cfg.n_embd;
    let alloc = seq![
        Op::Alloc { dst: Buf::Pos, rows: t, dim: 1 },
        Op::Alloc { dst: Buf::X, rows: t, dim },
    ];
    let input = token_ops(tokens, dim, tokens.len());
    let start = start_ops(tokens, dim);
    let body = layers_ops(m, t, m.layers@.len());
    let tail = head_ops(dim, t);
    launch::lemma_run_concat(env, s, alloc, input);
    launch::lemma_run_concat(env, s, start, body);
    launch::lemma_run_concat(env, s, start + body, tail);
    launch::lemma_run2(env, s, alloc[0], alloc[1]);
    let s0 = launch::run(env, s, alloc);
    assert(s0[Buf::X].len() == t && s0[Buf::Pos].len() == t) by {
        reveal(launch::step);
    }
    lemma_tokens(env, s0, tokens, dim, tokens.len());
    let s1 = launch::run(env, s, start);
    assert(s1[Buf::X] =~= hidden_rows(env, m, tokens, 0));
    assert(s1[Buf::Pos] =~= Seq::new(tokens.len(), |i: int| launch::Term::Int(i)));
    lemma_layers(env, m, s1, tokens, m.layers@.len());
    let s2 = launch::run(env, s1, body);
    launch::lemma_run2(env, s2, tail[0], tail[1]);
    assert(tail =~= seq![tail[0], tail[1]]);
    let e = launch::run(env, s2, tail);
    assert(e[Buf::Logits] == logit_rows(env, m, tokens)) by {
        reveal(launch::step);
        assert(e[Buf::Logits] =~= logit_rows(env, m, tokens));
    }
}

} // verus!
