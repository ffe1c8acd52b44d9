//! Launch plans of full attention at one row.

use vstd::prelude::*;

use crate::config::{FullAttnLayer, LayerKernels, ModelConfig};
use crate::ffn::PlanError;
use crate::launch;
use crate::launch::{Buf, Op, Slot, Weight};

verus! {

/// The buffers of one row: the normalized input as floats and as q8_1, and the mixer's output.
#[derive(Clone, Copy, Debug, PartialEq, Eq, Structural)]
pub struct RowBufs {
    pub h: Buf,
    pub q: Buf,
    pub d: Buf,
    pub out: Buf,
}

impl RowBufs {
    /// The input buffers are distinct, and none is a buffer that the mixers use themselves.
    pub open spec fn wf(&self) -> bool {
        ||| *self == (RowBufs { h: Buf::H, q: Buf::Hq, d: Buf::Hd, out: Buf::Mixed })
        ||| *self == (RowBufs {
            h: Buf::XnRow,
            q: Buf::HqRow,
            d: Buf::HdRow,
            out: Buf::MixedRow,
        })
    }
}

/// One layer's KV cache as the host tracks it.
#[derive(Clone, Copy, Debug, PartialEq, Eq, Structural)]
pub struct KvMeta {
    /// Rows held.
    pub len: usize,
    /// Bytes per row.
    pub k_tok_bytes: usize,
    pub v_tok_bytes: usize,
    /// Bytes of the whole buffers.
    pub k_bytes: usize,
    pub v_bytes: usize,
}

impl KvMeta {
    /// Another row fits.
    pub open spec fn has_room(&self) -> bool {
        &&& self.len < usize::MAX
        &&& (self.len + 1) * self.k_tok_bytes <= self.k_bytes
        &&& (self.len + 1) * self.v_tok_bytes <= self.v_bytes
    }

    /// One row more.
    pub open spec fn grown(&self) -> KvMeta {
        KvMeta { len: (self.len + 1) as usize, ..*self }
    }
}

pub open spec fn lw(il: usize, slot: Slot) -> Weight {
    Weight::Layer(il, slot)
}

/// The three input projections read q8_1 rows.
pub open spec fn qkv_fast(fa: FullAttnLayer) -> bool {
    fa.wq.q8_1_fast && fa.wk.q8_1_fast && fa.wv.q8_1_fast
}

/// The input projections: the row is quantized once unless it came quantized, and one launch
/// does all three where a fused kernel serves them.
pub open spec fn qkv_ops(
    il: usize,
    fast: bool,
    pre: bool,
    fused3: bool,
    io: RowBufs,
    n_embd: usize,
) -> Seq<Op> {
    if fast {
        (if pre {
            Seq::empty()
        } else {
            seq![Op::Quantize { src: io.h, q: io.q, d: io.d, rows: 1, dim: n_embd }]
        }) + (if fused3 {
            seq![
                Op::Fused3 {
                    w1: lw(il, Slot::Wq),
                    w2: lw(il, Slot::Wk),
                    w3: lw(il, Slot::Wv),
                    q: io.q,
                    d: io.d,
                    dst1: Buf::Qf,
                    dst2: Buf::K,
                    dst3: Buf::V,
                },
            ]
        } else {
            seq![
                Op::MatmulPre {
                    w: lw(il, Slot::Wq),
                    q: io.q,
                    d: io.d,
                    src: io.h,
                    dst: Buf::Qf,
                    rows: 1,
                },
                Op::MatmulPre {
                    w: lw(il, Slot::Wk),
                    q: io.q,
                    d: io.d,
                    src: io.h,
                    dst: Buf::K,
                    rows: 1,
                },
                Op::MatmulPre {
                    w: lw(il, Slot::Wv),
                    q: io.q,
                    d: io.d,
                    src: io.h,
                    dst: Buf::V,
                    rows: 1,
                },
            ]
        })
    } else {
        seq![
            Op::Matmul { w: lw(il, Slot::Wq), src: io.h, dst: Buf::Qf, rows: 1 },
            Op::Matmul { w: lw(il, Slot::Wk), src: io.h, dst: Buf::K, rows: 1 },
            Op::Matmul { w: lw(il, Slot::Wv), src: io.h, dst: Buf::V, rows: 1 },
        ]
    }
}

/// Query and key norms and rotary embedding, after the output gate was split off.
pub open spec fn norm_rope_ops(
    il: usize,
    gated: bool,
    head_dim: usize,
    n_head: usize,
    n_head_kv: usize,
    dims: usize,
) -> Seq<Op> {
    (if gated {
        seq![
            Op::QGateSplit {
                src: Buf::Qf,
                q: Buf::Q,
                gate: Buf::Gate,
                head_dim,
                n_head,
                rows: 1,
            },
        ]
    } else {
        Seq::empty()
    }) + seq![
        Op::RmsNorm {
            src: if gated {
                Buf::Q
            } else {
                Buf::Qf
            },
            w: lw(il, Slot::QNorm),
            dst: Buf::Qn,
            dim: head_dim,
            rows: n_head,
        },
        Op::RmsNorm {
            src: Buf::K,
            w: lw(il, Slot::KNorm),
            dst: Buf::Kn,
            dim: head_dim,
            rows: n_head_kv,
        },
        Op::Rope { buf: Buf::Qn, head_dim, dims, heads: n_head, rows: 1 },
        Op::Rope { buf: Buf::Kn, head_dim, dims, heads: n_head_kv, rows: 1 },
    ]
}

/// Append and attend at rows that the host knows.
pub open spec fn attend_host_ops(seq: usize, il: usize, kv: KvMeta) -> Seq<Op> {
    seq![
        Op::AppendKv { seq, layer: il, k: Buf::Kn, v: Buf::V, at: kv.len },
        Op::FaDecode {
            seq,
            layer: il,
            q: Buf::Qn,
            dst: Buf::Attn,
            t_kv: (kv.len + 1) as usize,
            k_bytes: ((kv.len + 1) * kv.k_tok_bytes) as usize,
            v_bytes: ((kv.len + 1) * kv.v_tok_bytes) as usize,
        },
    ]
}

/// Append and attend at rows that the device counts. A captured launch keeps the grid of its
/// bucket and sees the whole buffers, so that it can be replayed for every length in the bucket.
pub open spec fn attend_counted_ops(
    seq: usize,
    il: usize,
    kv: KvMeta,
    bucket: Option<usize>,
) -> Seq<Op> {
    seq![
        Op::AppendKvCounted { seq, layer: il, k: Buf::Kn, v: Buf::V },
        Op::IncLen { seq, layer: il },
        match bucket {
            None => Op::FaDecodeCounted {
                seq,
                layer: il,
                q: Buf::Qn,
                dst: Buf::Attn,
                bucket: (kv.len + 1) as usize,
                k_bytes: ((kv.len + 1) * kv.k_tok_bytes) as usize,
                v_bytes: ((kv.len + 1) * kv.v_tok_bytes) as usize,
            },
            Some(b) => Op::FaDecodeCounted {
                seq,
                layer: il,
                q: Buf::Qn,
                dst: Buf::Attn,
                bucket: b,
                k_bytes: kv.k_bytes,
                v_bytes: kv.v_bytes,
            },
        },
    ]
}

/// The output gate and the output projection.
pub open spec fn attn_out_ops(il: usize, gated: bool, n: usize, out: Buf) -> Seq<Op> {
    if gated {
        seq![
            Op::Sigmoid { src: Buf::Gate, dst: Buf::GateSig, n },
            Op::Mul { a: Buf::Attn, b: Buf::GateSig, dst: Buf::AttnGated, n },
            Op::Matmul { w: lw(il, Slot::Wo), src: Buf::AttnGated, dst: out, rows: 1 },
        ]
    } else {
        seq![Op::Matmul { w: lw(il, Slot::Wo), src: Buf::Attn, dst: out, rows: 1 }]
    }
}

pub open spec fn prefetch_ops(seq: usize, il: usize, kv: KvMeta, prefetch: bool) -> Seq<Op> {
    if prefetch {
        seq![
            Op::Prefetch {
                seq,
                layer: il,
                k_bytes: ((kv.len + 1) * kv.k_tok_bytes) as usize,
                v_bytes: ((kv.len + 1) * kv.v_tok_bytes) as usize,
            },
        ]
    } else {
        Seq::empty()
    }
}

/// Projections, norms and rotary embedding of one row.
pub open spec fn attn_head_ops(
    cfg: ModelConfig,
    fa: FullAttnLayer,
    fused3: bool,
    il: usize,
    pre: bool,
    io: RowBufs,
) -> Seq<Op> {
    qkv_ops(il, qkv_fast(fa), pre, fused3, io, cfg.n_embd) + norm_rope_ops(
        il,
        cfg.attn_out_gate,
        cfg.head_dim_k,
        cfg.n_head,
        cfg.n_head_kv,
        cfg.rope_dim_count,
    )
}

/// Full attention with the cache length on the host.
pub open spec fn full_attn_ops(
    cfg: ModelConfig,
    fa: FullAttnLayer,
    fused3: bool,
    seq: usize,
    il: usize,
    kv: KvMeta,
    pre: bool,
    prefetch: bool,
    io: RowBufs,
) -> Seq<Op> {
    prefetch_ops(seq, il, kv, prefetch) + attn_head_ops(cfg, fa, fused3, il, pre, io)
        + attend_host_ops(seq, il, kv) + attn_out_ops(
        il,
        cfg.attn_out_gate,
        cfg.q_dim() as usize,
        io.out,
    )
}

/// Full attention with the cache length on the device.
pub open spec fn full_attn_counted_ops(
    cfg: ModelConfig,
    fa: FullAttnLayer,
    fused3: bool,
    seq: usize,
    il: usize,
    kv: KvMeta,
    pre: bool,
    bucket: Option<usize>,
    io: RowBufs,
) -> Seq<Op> {
    attn_head_ops(cfg, fa, fused3, il, pre, io) + attend_counted_ops(seq, il, kv, bucket)
        + attn_out_ops(il, cfg.attn_out_gate, cfg.q_dim() as usize, io.out)
}

/// Full attention with the cache length on the host, up to the point where the naive kernel would
/// read the cache: the row is in the cache.
pub open spec fn refused_attn_ops(
    cfg: ModelConfig,
    fa: FullAttnLayer,
    fused3: bool,
    seq: usize,
    il: usize,
    kv: KvMeta,
    pre: bool,
    prefetch: bool,
    io: RowBufs,
) -> Seq<Op> {
    prefetch_ops(seq, il, kv, prefetch) + attn_head_ops(cfg, fa, fused3, il, pre, io) + seq![
        Op::AppendKv { seq, layer: il, k: Buf::Kn, v: Buf::V, at: kv.len },
    ]
}

/// Full attention with the cache length on the device, up to the point where the naive kernel would
/// read the cache: the row is in the cache and counted.
pub open spec fn refused_counted_ops(
    cfg: ModelConfig,
    fa: FullAttnLayer,
    fused3: bool,
    seq: usize,
    il: usize,
    pre: bool,
    io: RowBufs,
) -> Seq<Op> {
    attn_head_ops(cfg, fa, fused3, il, pre, io) + seq![
        Op::AppendKvCounted { seq, layer: il, k: Buf::Kn, v: Buf::V },
        Op::IncLen { seq, layer: il },
    ]
}

fn push_head(
    ops: &mut Vec<Op>,
    cfg: &ModelConfig,
    fa: &FullAttnLayer,
    fused3: bool,
    il: usize,
    pre: bool,
    io: RowBufs,
)
    ensures
        final(ops)@ == old(ops)@ + attn_head_ops(*cfg, *fa, fused3, il, pre, io),
{
    let wq = Weight::Layer(il, Slot::Wq);
    let wk = Weight::Layer(il, Slot::Wk);
    let wv = Weight::Layer(il, Slot::Wv);
    let fast = fa.wq.q8_1_fast && fa.wk.q8_1_fast && fa.wv.q8_1_fast;
    if fast {
        if !pre {
            ops.push(Op::Quantize { src: io.h, q: io.q, d: io.d, rows: 1, dim: cfg.n_embd });
        }
        if fused3 {
            ops.push(
                Op::Fused3 {
                    w1: wq,
                    w2: wk,
                    w3: wv,
                    q: io.q,
                    d: io.d,
                    dst1: Buf::Qf,
                    dst2: Buf::K,
                    dst3: Buf::V,
                },
            );
        } else {
            ops.push(
                Op::MatmulPre { w: wq, q: io.q, d: io.d, src: io.h, dst: Buf::Qf, rows: 1 },
            );
            ops.push(Op::MatmulPre { w: wk, q: io.q, d: io.d, src: io.h, dst: Buf::K, rows: 1 });
            ops.push(Op::MatmulPre { w: wv, q: io.q, d: io.d, src: io.h, dst: Buf::V, rows: 1 });
        }
    } else {
        ops.push(Op::Matmul { w: wq, src: io.h, dst: Buf::Qf, rows: 1 });
        ops.push(Op::Matmul { w: wk, src: io.h, dst: Buf::K, rows: 1 });
        ops.push(Op::Matmul { w: wv, src: io.h, dst: Buf::V, rows: 1 });
    }
    let ghost qkv = qkv_ops(il, fast, pre, fused3, io, cfg.n_embd);
    assert(ops@ =~= old(ops)@ + qkv);
    let gated = cfg.attn_out_gate;
    let (hd, nh, nkv, dims) = (cfg.head_dim_k, cfg.n_head, cfg.n_head_kv, cfg.rope_dim_count);
    if gated {
        ops.push(
            Op::QGateSplit {
                src: Buf::Qf,
                q: Buf::Q,
                gate: Buf::Gate,
                head_dim: hd,
                n_head: nh,
                rows: 1,
            },
        );
    }
    let q_src = if gated {
        Buf::Q
    } else {
        Buf::Qf
    };
    ops.push(
        Op::RmsNorm {
            src: q_src,
            w: Weight::Layer(il, Slot::QNorm),
            dst: Buf::Qn,
            dim: hd,
            rows: nh,
        },
    );
    ops.push(
        Op::RmsNorm {
            src: Buf::K,
            w: Weight::Layer(il, Slot::KNorm),
            dst: Buf::Kn,
            dim: hd,
            rows: nkv,
        },
    );
    ops.push(Op::Rope { buf: Buf::Qn, head_dim: hd, dims, heads: nh, rows: 1 });
    ops.push(Op::Rope { buf: Buf::Kn, head_dim: hd, dims, heads: nkv, rows: 1 });
    assert(ops@ =~= old(ops)@ + (qkv + norm_rope_ops(il, gated, hd, nh, nkv, dims)));
}

fn push_to_cache(
    ops: &mut Vec<Op>,
    cfg: &ModelConfig,
    fa: &FullAttnLayer,
    fused3: bool,
    seq: usize,
    il: usize,
    kv: &KvMeta,
    pre: bool,
    prefetch: bool,
    io: RowBufs,
)
    requires
        kv.has_room(),
    ensures
        final(ops)@ == old(ops)@ + refused_attn_ops(
            *cfg,
            *fa,
            fused3,
            seq,
            il,
            *kv,
            pre,
            prefetch,
            io,
        ),
{
    let t_kv: usize = kv.len + 1;
    if prefetch {
        ops.push(
            Op::Prefetch {
                seq,
                layer: il,
                k_bytes: t_kv * kv.k_tok_bytes,
                v_bytes: t_kv * kv.v_tok_bytes,
            },
        );
    }
    assert(ops@ =~= old(ops)@ + prefetch_ops(seq, il, *kv, prefetch));
    push_head(ops, cfg, fa, fused3, il, pre, io);
    ops.push(Op::AppendKv { seq, layer: il, k: Buf::Kn, v: Buf::V, at: kv.len });
    assert(ops@ =~= old(ops)@ + refused_attn_ops(
        *cfg,
        *fa,
        fused3,
        seq,
        il,
        *kv,
        pre,
        prefetch,
        io,
    ));
}

fn push_attn_out(ops: &mut Vec<Op>, cfg: &ModelConfig, il: usize, out: Buf)
    requires
        cfg.q_dim() <= usize::MAX,
    ensures
        final(ops)@ == old(ops)@ + attn_out_ops(il, cfg.attn_out_gate, cfg.q_dim() as usize, out),
{
    let n: usize = cfg.n_head * cfg.head_dim_k;
    let wo = Weight::Layer(il, Slot::Wo);
    if cfg.attn_out_gate {
        ops.push(Op::Sigmoid { src: Buf::Gate, dst: Buf::GateSig, n });
        ops.push(Op::Mul { a: Buf::Attn, b: Buf::GateSig, dst: Buf::AttnGated, n });
        ops.push(Op::Matmul { w: wo, src: Buf::AttnGated, dst: out, rows: 1 });
    } else {
        ops.push(Op::Matmul { w: wo, src: Buf::Attn, dst: out, rows: 1 });
    }
    assert(ops@ =~= old(ops)@ + attn_out_ops(
        il,
        cfg.attn_out_gate,
        cfg.q_dim() as usize,
        out,
    ));
}

/// Plans full attention of one row of sequence `seq` at layer `il`, with the cache length on the
/// host, which it advances. With `pre` the row comes quantized; `naive` asks for the attention
/// that cannot read a quantized cache, and is refused once the row is in the cache.
pub fn full_attn_decode_pre(
    ops: &mut Vec<Op>,
    cfg: &ModelConfig,
    fa: &FullAttnLayer,
    kernels: &LayerKernels,
    seq: usize,
    il: usize,
    kv: &mut KvMeta,
    pre: bool,
    prefetch: bool,
    naive: bool,
    io: RowBufs,
) -> (r: Result<(), PlanError>)
    requires
        cfg.q_dim() <= usize::MAX,
        old(kv).has_room(),
    ensures
        r is Ok <==> !naive,
        r is Ok ==> final(ops)@ == old(ops)@ + full_attn_ops(
            *cfg,
            *fa,
            kernels.fused3_qkv,
            seq,
            il,
            *old(kv),
            pre,
            prefetch,
            io,
        ),
        r matches Err(e) ==> e == PlanError::NaiveAttention && final(ops)@ == old(ops)@
            + refused_attn_ops(
            *cfg,
            *fa,
            kernels.fused3_qkv,
            seq,
            il,
            *old(kv),
            pre,
            prefetch,
            io,
        ),
        *final(kv) == old(kv).grown(),
{
    let t_kv: usize = kv.len + 1;
    let k_bytes: usize = t_kv * kv.k_tok_bytes;
    let v_bytes: usize = t_kv * kv.v_tok_bytes;
    push_to_cache(ops, cfg, fa, kernels.fused3_qkv, seq, il, kv, pre, prefetch, io);
    let ghost to_cache = refused_attn_ops(
        *cfg,
        *fa,
        kernels.fused3_qkv,
        seq,
        il,
        *kv,
        pre,
        prefetch,
        io,
    );
    let ghost kv0 = *kv;
    kv.len = t_kv;
    if naive {
        return Err(PlanError::NaiveAttention);
    }
    let op = Op::FaDecode { seq, layer: il, q: Buf::Qn, dst: Buf::Attn, t_kv, k_bytes, v_bytes };
    ops.push(op);
    push_attn_out(ops, cfg, il, io.out);
    proof {
        let out = attn_out_ops(il, cfg.attn_out_gate, cfg.q_dim() as usize, io.out);
        let before = prefetch_ops(seq, il, kv0, prefetch) + attn_head_ops(
            *cfg,
            *fa,
            kernels.fused3_qkv,
            il,
            pre,
            io,
        );
        let append = Op::AppendKv { seq, layer: il, k: Buf::Kn, v: Buf::V, at: kv0.len };
        assert(seq![append].push(op) =~= attend_host_ops(seq, il, kv0));
        assert(ops@ =~= old(ops)@ + (to_cache.push(op) + out));
        assert((before + seq![append]).push(op) =~= before + seq![append].push(op));
    }
    Ok(())
}

/// Plans full attention of one row with the cache length on the device. Without a bucket the
/// host length advances too and sizes the grid; a captured plan keeps the grid of its bucket and
/// leaves the host length alone. `naive` is refused once the row is in the cache and counted.
pub fn full_attn_decode_dc_inner(
    ops: &mut Vec<Op>,
    cfg: &ModelConfig,
    fa: &FullAttnLayer,
    kernels: &LayerKernels,
    seq: usize,
    il: usize,
    kv: &mut KvMeta,
    pre: bool,
    bucket: Option<usize>,
    naive: bool,
    io: RowBufs,
) -> (r: Result<(), PlanError>)
    requires
        cfg.q_dim() <= usize::MAX,
        old(kv).has_room(),
    ensures
        r is Ok <==> !naive,
        r is Ok ==> final(ops)@ == old(ops)@ + full_attn_counted_ops(
            *cfg,
            *fa,
            kernels.fused3_qkv,
            seq,
            il,
            *old(kv),
            pre,
            bucket,
            io,
        ),
        r matches Err(e) ==> e == PlanError::NaiveAttention && final(ops)@ == old(ops)@
            + refused_counted_ops(*cfg, *fa, kernels.fused3_qkv, seq, il, pre, io),
        *final(kv) == (if bucket is None {
            old(kv).grown()
        } else {
            *old(kv)
        }),
{
    let ghost kv0 = *kv;
    push_head(ops, cfg, fa, kernels.fused3_qkv, il, pre, io);
    ops.push(Op::AppendKvCounted { seq, layer: il, k: Buf::Kn, v: Buf::V });
    ops.push(Op::IncLen { seq, layer: il });
    let (rows, k_bytes, v_bytes): (usize, usize, usize) = match bucket {
        None => {
            let t_kv: usize = kv.len + 1;
            kv.len = t_kv;
            (t_kv, t_kv * kv.k_tok_bytes, t_kv * kv.v_tok_bytes)
        },
        Some(b) => (b, kv.k_bytes, kv.v_bytes),
    };
    if naive {
        assert(ops@ =~= old(ops)@ + refused_counted_ops(
            *cfg,
            *fa,
            kernels.fused3_qkv,
            seq,
            il,
            pre,
            io,
        ));
        return Err(PlanError::NaiveAttention);
    }
    ops.push(
        Op::FaDecodeCounted {
            seq,
            layer: il,
            q: Buf::Qn,
            dst: Buf::Attn,
            bucket: rows,
            k_bytes,
            v_bytes,
        },
    );
    push_attn_out(ops, cfg, il, io.out);
    assert(ops@ =~= old(ops)@ + full_attn_counted_ops(
        *cfg,
        *fa,
        kernels.fused3_qkv,
        seq,
        il,
        kv0,
        pre,
        bucket,
        io,
    ));
    Ok(())
}

/// The rotated query of a normalized row `h` at position `pos`.
pub open spec fn query_term(
    env: launch::Env,
    cfg: ModelConfig,
    il: usize,
    h: launch::Term,
    pos: launch::Term,
) -> launch::Term {
    let qf = launch::mm(env, lw(il, Slot::Wq), h);
    let (hd, nh) = (cfg.head_dim_k as nat, cfg.n_head as nat);
    launch::bin(
        launch::Fun::Rope(hd, cfg.rope_dim_count as nat, nh),
        launch::rms(
            lw(il, Slot::QNorm),
            hd,
            if cfg.attn_out_gate {
                launch::un(launch::Fun::QueryPart(hd, nh), qf)
            } else {
                qf
            },
        ),
        pos,
    )
}

/// The rotated key.
pub open spec fn key_term(
    env: launch::Env,
    cfg: ModelConfig,
    il: usize,
    h: launch::Term,
    pos: launch::Term,
) -> launch::Term {
    let hd = cfg.head_dim_k as nat;
    launch::bin(
        launch::Fun::Rope(hd, cfg.rope_dim_count as nat, cfg.n_head_kv as nat),
        launch::rms(lw(il, Slot::KNorm), hd, launch::mm(env, lw(il, Slot::Wk), h)),
        pos,
    )
}

/// The value.
pub open spec fn value_term(env: launch::Env, il: usize, h: launch::Term) -> launch::Term {
    launch::mm(env, lw(il, Slot::Wv), h)
}

/// A cache with one row more.
pub open spec fn appended(cache: launch::Term, row: launch::Term, at: int) -> launch::Term {
    launch::Term::Node(launch::Fun::KvAppend, seq![cache, row, launch::Term::Int(at)])
}

/// The gated and projected attention result.
pub open spec fn attn_out_term(
    env: launch::Env,
    cfg: ModelConfig,
    il: usize,
    h: launch::Term,
    a: launch::Term,
) -> launch::Term {
    let qf = launch::mm(env, lw(il, Slot::Wq), h);
    launch::mm(
        env,
        lw(il, Slot::Wo),
        if cfg.attn_out_gate {
            launch::bin(
                launch::Fun::Mul,
                a,
                launch::un(
                    launch::Fun::Sigmoid,
                    launch::un(
                        launch::Fun::GatePart(cfg.head_dim_k as nat, cfg.n_head as nat),
                        qf,
                    ),
                ),
            )
        } else {
            a
        },
    )
}

/// What full attention computes of a normalized row `h` at position `pos`, over caches `kc` and
/// `vc` of `len` rows.
pub open spec fn full_attn_term(
    env: launch::Env,
    cfg: ModelConfig,
    il: usize,
    h: launch::Term,
    pos: launch::Term,
    kc: launch::Term,
    vc: launch::Term,
    len: int,
) -> launch::Term {
    attn_out_term(
        env,
        cfg,
        il,
        h,
        launch::attend(
            env,
            query_term(env, cfg, il, h, pos),
            appended(kc, key_term(env, cfg, il, h, pos), len),
            appended(vc, value_term(env, il, h), len),
            launch::Term::Int(len + 1),
            len + 1,
        ),
    )
}

/// The fast-path flags agree with the device.
pub open spec fn attn_flags(env: launch::Env, il: usize, fa: FullAttnLayer) -> bool {
    &&& (env.fast)(lw(il, Slot::Wq)) == fa.wq.q8_1_fast
    &&& (env.fast)(lw(il, Slot::Wk)) == fa.wk.q8_1_fast
    &&& (env.fast)(lw(il, Slot::Wv)) == fa.wv.q8_1_fast
}

/// The row buffers hold the normalized row `h`, as q8_1 when it comes quantized.
pub open spec fn feeds(s: launch::Store, io: RowBufs, pre: bool, h: launch::Term) -> bool {
    if pre {
        &&& s[io.q] == seq![launch::q8_quants(h)]
        &&& s[io.d] == seq![launch::q8_scales(h)]
    } else {
        s[io.h] == seq![h]
    }
}

/// Scratch that full attention overwrites.
pub open spec fn attn_scratch(io: RowBufs, b: Buf) -> bool {
    ||| b == io.q
    ||| b == io.d
    ||| b == io.out
    ||| b == Buf::Qf
    ||| b == Buf::Q
    ||| b == Buf::Qn
    ||| b == Buf::Gate
    ||| b == Buf::K
    ||| b == Buf::Kn
    ||| b == Buf::V
    ||| b == Buf::Attn
    ||| b == Buf::GateSig
    ||| b == Buf::AttnGated
}

proof fn lemma_qkv(
    env: launch::Env,
    s: launch::Store,
    il: usize,
    fa: FullAttnLayer,
    pre: bool,
    fused3: bool,
    io: RowBufs,
    n_embd: usize,
    h: launch::Term,
)
    requires
        io.wf(),
        attn_flags(env, il, fa),
        feeds(s, io, pre, h),
        pre ==> qkv_fast(fa),
    ensures
        ({
            let e = launch::run(env, s, qkv_ops(il, qkv_fast(fa), pre, fused3, io, n_embd));
            &&& e[Buf::Qf] == seq![launch::mm(env, lw(il, Slot::Wq), h)]
            &&& e[Buf::K] == seq![launch::mm(env, lw(il, Slot::Wk), h)]
            &&& e[Buf::V] == seq![launch::mm(env, lw(il, Slot::Wv), h)]
        }),
        forall|b: Buf|
            !attn_scratch(io, b) ==> #[trigger] launch::run(
                env,
                s,
                qkv_ops(il, qkv_fast(fa), pre, fused3, io, n_embd),
            )[b] == s[b],
{
    let fast = qkv_fast(fa);
    let ops = qkv_ops(il, fast, pre, fused3, io, n_embd);
    assert forall|b: Buf| !attn_scratch(io, b) implies #[trigger] launch::run(env, s, ops)[b]
        == s[b] by {
        launch::lemma_run_frame(env, s, ops, b);
    }
    reveal(launch::step);
    if fast {
        let q0 = seq![Op::Quantize { src: io.h, q: io.q, d: io.d, rows: 1, dim: n_embd }];
        let s1 = if pre {
            s
        } else {
            launch::run(env, s, q0)
        };
        if !pre {
            launch::lemma_run1(env, s, q0[0]);
        }
        assert(s1[io.q] == seq![launch::q8_quants(h)]);
        assert(s1[io.d] == seq![launch::q8_scales(h)]);
        let rest = ops.skip(
            if pre {
                0
            } else {
                1
            },
        );
        if pre {
            assert(rest =~= ops);
        } else {
            assert(ops =~= q0 + rest);
            launch::lemma_run_concat(env, s, q0, rest);
        }
        if fused3 {
            launch::lemma_run1(env, s1, rest[0]);
            assert(rest =~= seq![rest[0]]);
        } else {
            launch::lemma_run3(env, s1, rest[0], rest[1], rest[2]);
            assert(rest =~= seq![rest[0], rest[1], rest[2]]);
            let a = launch::step(env, s1, rest[0]);
            let b = launch::step(env, a, rest[1]);
            let c = launch::step(env, b, rest[2]);
            assert(a[Buf::Qf] =~= seq![launch::mm(env, lw(il, Slot::Wq), h)]);
            assert(b[Buf::K] =~= seq![launch::mm(env, lw(il, Slot::Wk), h)]);
            assert(c[Buf::V] =~= seq![launch::mm(env, lw(il, Slot::Wv), h)]);
        }
    } else {
        launch::lemma_run3(env, s, ops[0], ops[1], ops[2]);
        assert(ops =~= seq![ops[0], ops[1], ops[2]]);
        let a = launch::step(env, s, ops[0]);
        let b = launch::step(env, a, ops[1]);
        let c = launch::step(env, b, ops[2]);
        assert(a[Buf::Qf] =~= seq![launch::mm(env, lw(il, Slot::Wq), h)]);
        assert(b[Buf::K] =~= seq![launch::mm(env, lw(il, Slot::Wk), h)]);
        assert(c[Buf::V] =~= seq![launch::mm(env, lw(il, Slot::Wv), h)]);
    }
}

proof fn lemma_norm_rope(
    env: launch::Env,
    s: launch::Store,
    cfg: ModelConfig,
    il: usize,
    io: RowBufs,
    h: launch::Term,
    pos: launch::Term,
)
    requires
        io.wf(),
        s[Buf::Qf] == seq![launch::mm(env, lw(il, Slot::Wq), h)],
        s[Buf::K] == seq![launch::mm(env, lw(il, Slot::Wk), h)],
        s[Buf::Pos] == seq![pos],
    ensures
        ({
            let e = launch::run(
                env,
                s,
                norm_rope_ops(
                    il,
                    cfg.attn_out_gate,
                    cfg.head_dim_k,
                    cfg.n_head,
                    cfg.n_head_kv,
                    cfg.rope_dim_count,
                ),
            );
            &&& e[Buf::Qn] == seq![query_term(env, cfg, il, h, pos)]
            &&& e[Buf::Kn] == seq![key_term(env, cfg, il, h, pos)]
            &&& e[Buf::V] == s[Buf::V]
            &&& cfg.attn_out_gate ==> e[Buf::Gate] == seq![
                launch::un(
                    launch::Fun::GatePart(cfg.head_dim_k as nat, cfg.n_head as nat),
                    launch::mm(env, lw(il, Slot::Wq), h),
                ),
            ]
            &&& forall|b: Buf| !attn_scratch(io, b) ==> #[trigger] e[b] == s[b]
        }),
{
    let gated = cfg.attn_out_gate;
    let (hd, nh, nkv, dims) = (cfg.head_dim_k, cfg.n_head, cfg.n_head_kv, cfg.rope_dim_count);
    let ops = norm_rope_ops(il, gated, hd, nh, nkv, dims);
    let e = launch::run(env, s, ops);
    assert forall|b: Buf| !attn_scratch(io, b) implies #[trigger] e[b] == s[b] by {
        launch::lemma_run_frame(env, s, ops, b);
    }
    launch::lemma_run_frame(env, s, ops, Buf::V);
    let split = if gated {
        seq![ops[0]]
    } else {
        Seq::<Op>::empty()
    };
    let rest = ops.skip(split.len() as int);
    assert(ops =~= split + rest);
    launch::lemma_run_concat(env, s, split, rest);
    let s1 = launch::run(env, s, split);
    launch::lemma_run4(env, s1, rest[0], rest[1], rest[2], rest[3]);
    assert(rest =~= seq![rest[0], rest[1], rest[2], rest[3]]);
    let qf = launch::mm(env, lw(il, Slot::Wq), h);
    reveal(launch::step);
    let q0 = if gated {
        launch::un(launch::Fun::QueryPart(hd as nat, nh as nat), qf)
    } else {
        qf
    };
    let q_src = if gated {
        Buf::Q
    } else {
        Buf::Qf
    };
    if gated {
        launch::lemma_run1(env, s, ops[0]);
        assert(s1[Buf::Gate] =~= seq![
            launch::un(launch::Fun::GatePart(hd as nat, nh as nat), qf),
        ]);
    }
    assert(s1[q_src] =~= seq![q0]);
    let a = launch::step(env, s1, rest[0]);
    let b = launch::step(env, a, rest[1]);
    let c = launch::step(env, b, rest[2]);
    let d = launch::step(env, c, rest[3]);
    assert(a[Buf::Qn] =~= seq![launch::rms(lw(il, Slot::QNorm), hd as nat, q0)]);
    assert(b[Buf::Kn] =~= seq![
        launch::rms(
            lw(il, Slot::KNorm),
            hd as nat,
            launch::mm(env, lw(il, Slot::Wk), h),
        ),
    ]);
    assert(b[Buf::Pos] == seq![pos]);
    assert(c[Buf::Qn] =~= seq![query_term(env, cfg, il, h, pos)]);
    assert(d[Buf::Kn] =~= seq![key_term(env, cfg, il, h, pos)]);
}

proof fn lemma_head(
    env: launch::Env,
    s: launch::Store,
    cfg: ModelConfig,
    fa: FullAttnLayer,
    fused3: bool,
    il: usize,
    pre: bool,
    io: RowBufs,
    h: launch::Term,
    pos: launch::Term,
)
    requires
        io.wf(),
        attn_flags(env, il, fa),
        feeds(s, io, pre, h),
        pre ==> qkv_fast(fa),
        s[Buf::Pos] == seq![pos],
    ensures
        ({
            let e = launch::run(env, s, attn_head_ops(cfg, fa, fused3, il, pre, io));
            &&& e[Buf::Qn] == seq![query_term(env, cfg, il, h, pos)]
            &&& e[Buf::Kn] == seq![key_term(env, cfg, il, h, pos)]
            &&& e[Buf::V] == seq![value_term(env, il, h)]
            &&& cfg.attn_out_gate ==> e[Buf::Gate] == seq![
                launch::un(
                    launch::Fun::GatePart(cfg.head_dim_k as nat, cfg.n_head as nat),
                    launch::mm(env, lw(il, Slot::Wq), h),
                ),
            ]
            &&& forall|b: Buf| !attn_scratch(io, b) ==> #[trigger] e[b] == s[b]
        }),
{
    let qkv = qkv_ops(il, qkv_fast(fa), pre, fused3, io, cfg.n_embd);
    let nr = norm_rope_ops(
        il,
        cfg.attn_out_gate,
        cfg.head_dim_k,
        cfg.n_head,
        cfg.n_head_kv,
        cfg.rope_dim_count,
    );
    let s1 = launch::run(env, s, qkv);
    lemma_qkv(env, s, il, fa, pre, fused3, io, cfg.n_embd, h);
    assert(s1[Buf::Pos] == s[Buf::Pos]);
    lemma_norm_rope(env, s1, cfg, il, io, h, pos);
    launch::lemma_run_concat(env, s, qkv, nr);
    let e = launch::run(env, s1, nr);
    assert forall|b: Buf| !attn_scratch(io, b) implies #[trigger] e[b] == s[b] by {
        assert(s1[b] == s[b]);
    }
}

proof fn lemma_attn_out(
    env: launch::Env,
    s: launch::Store,
    cfg: ModelConfig,
    il: usize,
    n: usize,
    io: RowBufs,
    h: launch::Term,
    a: launch::Term,
)
    requires
        io.wf(),
        s[Buf::Attn] == seq![a],
        cfg.attn_out_gate ==> s[Buf::Gate] == seq![
            launch::un(
                launch::Fun::GatePart(cfg.head_dim_k as nat, cfg.n_head as nat),
                launch::mm(env, lw(il, Slot::Wq), h),
            ),
        ],
    ensures
        ({
            let e = launch::run(env, s, attn_out_ops(il, cfg.attn_out_gate, n, io.out));
            &&& e[io.out] == seq![attn_out_term(env, cfg, il, h, a)]
            &&& forall|b: Buf| !attn_scratch(io, b) ==> #[trigger] e[b] == s[b]
        }),
{
    let ops = attn_out_ops(il, cfg.attn_out_gate, n, io.out);
    let e = launch::run(env, s, ops);
    assert forall|b: Buf| !attn_scratch(io, b) implies #[trigger] e[b] == s[b] by {
        launch::lemma_run_frame(env, s, ops, b);
    }
    reveal(launch::step);
    if cfg.attn_out_gate {
        let g = launch::un(
            launch::Fun::GatePart(cfg.head_dim_k as nat, cfg.n_head as nat),
            launch::mm(env, lw(il, Slot::Wq), h),
        );
        launch::lemma_run3(env, s, ops[0], ops[1], ops[2]);
        assert(ops =~= seq![ops[0], ops[1], ops[2]]);
        let s1 = launch::step(env, s, ops[0]);
        let s2 = launch::step(env, s1, ops[1]);
        assert(s1[Buf::GateSig] =~= seq![launch::un(launch::Fun::Sigmoid, g)]);
        assert(s2[Buf::AttnGated] =~= seq![
            launch::bin(launch::Fun::Mul, a, launch::un(launch::Fun::Sigmoid, g)),
        ]);
        assert(e[io.out] =~= seq![attn_out_term(env, cfg, il, h, a)]);
    } else {
        launch::lemma_run1(env, s, ops[0]);
        assert(ops =~= seq![ops[0]]);
        assert(e[io.out] =~= seq![attn_out_term(env, cfg, il, h, a)]);
    }
}

/// Everything but the attention scratch and the layer's own caches is as before.
pub open spec fn attn_frame(
    s: launch::Store,
    e: launch::Store,
    io: RowBufs,
    seq: usize,
    il: usize,
) -> bool {
    forall|b: Buf|
        !attn_scratch(io, b) && b != (Buf::KCache { seq, layer: il }) && b != (Buf::VCache {
            seq,
            layer: il,
        }) && b != (Buf::Len { seq, layer: il }) ==> #[trigger] e[b] == s[b]
}

/// With the cache length on the host, and whichever kernels serve it, the plan computes full
/// attention, appends key and value, and touches nothing else.
pub proof fn law_full_attn_plan(
    env: launch::Env,
    s: launch::Store,
    cfg: ModelConfig,
    fa: FullAttnLayer,
    fused3: bool,
    seq: usize,
    il: usize,
    kv: KvMeta,
    pre: bool,
    prefetch: bool,
    io: RowBufs,
    h: launch::Term,
    pos: launch::Term,
    kc: launch::Term,
    vc: launch::Term,
)
    requires
        io.wf(),
        attn_flags(env, il, fa),
        feeds(s, io, pre, h),
        pre ==> qkv_fast(fa),
        kv.has_room(),
        s[Buf::Pos] == seq![pos],
        s[Buf::KCache { seq, layer: il }] == seq![kc],
        s[Buf::VCache { seq, layer: il }] == seq![vc],
    ensures
        ({
            let e = launch::run(
                env,
                s,
                full_attn_ops(cfg, fa, fused3, seq, il, kv, pre, prefetch, io),
            );
            let len = kv.len as int;
            &&& e[io.out] == seq![full_attn_term(env, cfg, il, h, pos, kc, vc, len)]
            &&& e[Buf::KCache { seq, layer: il }] == seq![
                appended(kc, key_term(env, cfg, il, h, pos), len),
            ]
            &&& e[Buf::VCache { seq, layer: il }] == seq![
                appended(vc, value_term(env, il, h), len),
            ]
            &&& e[Buf::Len { seq, layer: il }] == s[Buf::Len { seq, layer: il }]
            &&& attn_frame(s, e, io, seq, il)
        }),
{
    let pf = prefetch_ops(seq, il, kv, prefetch);
    let head = attn_head_ops(cfg, fa, fused3, il, pre, io);
    let mid = attend_host_ops(seq, il, kv);
    let out = attn_out_ops(il, cfg.attn_out_gate, cfg.q_dim() as usize, io.out);
    let s0 = launch::run(env, s, pf);
    assert(s0 == s) by {
        if prefetch {
            launch::lemma_run1(env, s, pf[0]);
            assert(pf =~= seq![pf[0]]);
            reveal(launch::step);
        }
    }
    lemma_head(env, s, cfg, fa, fused3, il, pre, io, h, pos);
    let s1 = launch::run(env, s, head);
    let s2 = launch::run(env, s1, mid);
    let len = kv.len as int;
    let k1 = appended(kc, key_term(env, cfg, il, h, pos), len);
    let v1 = appended(vc, value_term(env, il, h), len);
    let a = launch::attend(
        env,
        query_term(env, cfg, il, h, pos),
        k1,
        v1,
        launch::Term::Int(len + 1),
        len + 1,
    );
    launch::lemma_run2(env, s1, mid[0], mid[1]);
    assert(mid =~= seq![mid[0], mid[1]]);
    assert(s2[Buf::Attn] == seq![a] && s2[Buf::KCache { seq, layer: il }] == seq![k1]
        && s2[Buf::VCache { seq, layer: il }] == seq![v1] && s2[Buf::Gate] == s1[Buf::Gate]) by {
        reveal(launch::step);
    }
    assert forall|b: Buf|
        !attn_scratch(io, b) && b != (Buf::KCache { seq, layer: il }) && b != (Buf::VCache {
            seq,
            layer: il,
        }) implies #[trigger] s2[b] == s[b] by {
        launch::lemma_run_frame(env, s1, mid, b);
        assert(s1[b] == s[b]);
    }
    lemma_attn_out(env, s2, cfg, il, cfg.q_dim() as usize, io, h, a);
    launch::lemma_run_concat(env, s, pf, head);
    launch::lemma_run_concat(env, s, pf + head, mid);
    launch::lemma_run_concat(env, s, pf + head + mid, out);
    let e = launch::run(env, s2, out);
    assert forall|b: Buf|
        !attn_scratch(io, b) && b != (Buf::KCache { seq, layer: il }) && b != (Buf::VCache {
            seq,
            layer: il,
        }) implies #[trigger] e[b] == s[b] by {
        assert(s2[b] == s[b]);
    }
    assert(e[Buf::KCache { seq, layer: il }] == s2[Buf::KCache { seq, layer: il }]);
    assert(e[Buf::VCache { seq, layer: il }] == s2[Buf::VCache { seq, layer: il }]);
}

/// With the length on the device, the plan computes the same and advances the counter, provided
/// that the counter holds the length and that the grid's geometry is that of the new length.
pub proof fn law_full_attn_counted_plan(
    env: launch::Env,
    s: launch::Store,
    cfg: ModelConfig,
    fa: FullAttnLayer,
    fused3: bool,
    seq: usize,
    il: usize,
    kv: KvMeta,
    pre: bool,
    bucket: Option<usize>,
    io: RowBufs,
    h: launch::Term,
    pos: launch::Term,
    kc: launch::Term,
    vc: launch::Term,
    len: int,
)
    requires
        io.wf(),
        attn_flags(env, il, fa),
        feeds(s, io, pre, h),
        pre ==> qkv_fast(fa),
        s[Buf::Pos] == seq![pos],
        s[Buf::KCache { seq, layer: il }] == seq![kc],
        s[Buf::VCache { seq, layer: il }] == seq![vc],
        s[Buf::Len { seq, layer: il }] == seq![launch::Term::Int(len)],
        bucket is None ==> kv.has_room() && len == kv.len,
        bucket matches Some(b) ==> (env.geometry)(b as int) == (env.geometry)(len + 1),
    ensures
        ({
            let e = launch::run(
                env,
                s,
                full_attn_counted_ops(cfg, fa, fused3, seq, il, kv, pre, bucket, io),
            );
            &&& e[io.out] == seq![full_attn_term(env, cfg, il, h, pos, kc, vc, len)]
            &&& e[Buf::KCache { seq, layer: il }] == seq![
                appended(kc, key_term(env, cfg, il, h, pos), len),
            ]
            &&& e[Buf::VCache { seq, layer: il }] == seq![
                appended(vc, value_term(env, il, h), len),
            ]
            &&& e[Buf::Len { seq, layer: il }] == seq![launch::Term::Int(len + 1)]
            &&& attn_frame(s, e, io, seq, il)
        }),
{
    let head = attn_head_ops(cfg, fa, fused3, il, pre, io);
    let mid = attend_counted_ops(seq, il, kv, bucket);
    let out = attn_out_ops(il, cfg.attn_out_gate, cfg.q_dim() as usize, io.out);
    lemma_head(env, s, cfg, fa, fused3, il, pre, io, h, pos);
    let s1 = launch::run(env, s, head);
    let s2 = launch::run(env, s1, mid);
    let k1 = appended(kc, key_term(env, cfg, il, h, pos), len);
    let v1 = appended(vc, value_term(env, il, h), len);
    let a = launch::attend(
        env,
        query_term(env, cfg, il, h, pos),
        k1,
        v1,
        launch::Term::Int(len + 1),
        len + 1,
    );
    assert(s1[Buf::Len { seq, layer: il }] == s[Buf::Len { seq, layer: il }]);
    assert(s1[Buf::KCache { seq, layer: il }] == s[Buf::KCache { seq, layer: il }]);
    assert(s1[Buf::VCache { seq, layer: il }] == s[Buf::VCache { seq, layer: il }]);
    launch::lemma_run3(env, s1, mid[0], mid[1], mid[2]);
    assert(mid =~= seq![mid[0], mid[1], mid[2]]);
    assert(s2[Buf::Attn] == seq![a] && s2[Buf::KCache { seq, layer: il }] == seq![k1]
        && s2[Buf::VCache { seq, layer: il }] == seq![v1] && s2[Buf::Gate] == s1[Buf::Gate]
        && s2[Buf::Len { seq, layer: il }] == seq![launch::Term::Int(len + 1)]) by {
        reveal(launch::step);
    }
    assert forall|b: Buf|
        !attn_scratch(io, b) && b != (Buf::KCache { seq, layer: il }) && b != (Buf::VCache {
            seq,
            layer: il,
        }) && b != (Buf::Len { seq, layer: il }) implies #[trigger] s2[b] == s[b] by {
        launch::lemma_run_frame(env, s1, mid, b);
        assert(s1[b] == s[b]);
    }
    lemma_attn_out(env, s2, cfg, il, cfg.q_dim() as usize, io, h, a);
    launch::lemma_run_concat(env, s, head, mid);
    launch::lemma_run_concat(env, s, head + mid, out);
    let e = launch::run(env, s2, out);
    assert forall|b: Buf|
        !attn_scratch(io, b) && b != (Buf::KCache { seq, layer: il }) && b != (Buf::VCache {
            seq,
            layer: il,
        }) && b != (Buf::Len { seq, layer: il }) implies #[trigger] e[b] == s[b] by {
        assert(s2[b] == s[b]);
    }
    assert(e[Buf::KCache { seq, layer: il }] == s2[Buf::KCache { seq, layer: il }]);
    assert(e[Buf::VCache { seq, layer: il }] == s2[Buf::VCache { seq, layer: il }]);
    assert(e[Buf::Len { seq, layer: il }] == s2[Buf::Len { seq, layer: il }]);
}

} // verus!
