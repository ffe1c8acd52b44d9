//! Launch plans: what the host asks of the device, as data.
//!
//! A plan is a sequence of kernel launches over named buffers. `run` gives plans a symbolic
//! meaning: every buffer holds one term per row, and every launch maps rows to rows. A fused
//! launch means the composition of the launches that it replaces. Terms say which functions are
//! applied to which rows, not how a kernel rounds on the way: two plans that leave the same terms
//! compute the same numbers up to rounding.

use vstd::prelude::*;

verus! {

/// A weight tensor's place in the model.
#[derive(Clone, Copy, Debug, PartialEq, Eq, Structural)]
pub enum Slot {
    AttnNorm,
    PostAttnNorm,
    Wq,
    Wk,
    Wv,
    Wo,
    QNorm,
    KNorm,
    Wqkv,
    WqkvGate,
    SsmBeta,
    SsmAlpha,
    SsmA,
    SsmDt,
    SsmConv1d,
    SsmNorm,
    SsmOut,
    FfnGate,
    FfnUp,
    FfnDown,
    FfnNorm,
    FfnPostNorm,
    OutputNorm,
    Output,
    Fc,
    HiddenNorm,
    PreProj,
    PostProj,
}

/// A weight tensor: of one layer, or of the whole model.
#[derive(Clone, Copy, Debug, PartialEq, Eq, Structural)]
pub enum Weight {
    Layer(usize, Slot),
    Model(Slot),
}

/// A device buffer. Caches and recurrent states belong to a sequence and a layer; everything
/// else is scratch.
#[derive(Clone, Copy, Debug, PartialEq, Eq, Structural)]
pub enum Buf {
    Token,
    Pos,
    X,
    X1,
    Xn,
    H,
    Hq,
    Hd,
    Qf,
    Q,
    Qn,
    Gate,
    K,
    Kn,
    V,
    Attn,
    GateSig,
    AttnGated,
    Mixed,
    Z,
    Zq,
    Zd,
    FfnGate,
    FfnUp,
    Act,
    ActQ,
    ActD,
    FfnOut,
    Hn,
    HSeed,
    Logits,
    QkvMixed,
    ZGate,
    BetaRaw,
    Alpha,
    ConvOut,
    QL2,
    KL2,
    VGdn,
    Beta,
    GLog,
    O,
    Gn,
    Gq,
    Gd,
    XnRow,
    HqRow,
    HdRow,
    QRow,
    KRow,
    VRow,
    AttnRow,
    MixedRow,
    /// Inputs of a draft model, joined.
    Cat,
    /// The recurrent hidden state of a draft model.
    G,
    GNorm,
    EmbNorm,
    Res,
    /// Features of the context rows.
    CtxF,
    FcOut,
    KCtx,
    VCtx,
    KBlk,
    VBlk,
    PosBlk,
    Noise,
    Aux(usize),
    KCache { seq: usize, layer: usize },
    VCache { seq: usize, layer: usize },
    Len { seq: usize, layer: usize },
    Conv { seq: usize, layer: usize },
    Ssm { seq: usize, layer: usize },
    SsmAlt { seq: usize, layer: usize },
}

/// One launch.
#[derive(Clone, Copy, Debug, PartialEq, Eq, Structural)]
pub enum Op {
    /// A buffer of `rows` rows of `dim` elements, with no contents yet.
    Alloc { dst: Buf, rows: usize, dim: usize },
    /// Writes the rotary position of one row.
    SetPos { row: usize, pos: usize },
    /// Writes entry `row` of a list of positions.
    PutPos { dst: Buf, row: usize, value: i32 },
    /// Writes the embedding of a token that the host knows into row `row` of `X`.
    EmbedHost { row: usize, token: u32, dim: usize },
    /// Writes the embedding of the token in the device counter into `X`.
    EmbedDevice { dim: usize },
    /// RMS norm of segments of `dim` elements, `rows` segments in all.
    RmsNorm { src: Buf, w: Weight, dst: Buf, dim: usize, rows: usize },
    /// RMS norm, emitted as q8_1.
    RmsNormQ8 { src: Buf, w: Weight, q: Buf, d: Buf, dim: usize, rows: usize },
    /// Residual sum and its RMS norm.
    AddRmsNorm { a: Buf, b: Buf, w: Weight, sum: Buf, dst: Buf, dim: usize, rows: usize },
    /// Residual sum and its RMS norm, the norm emitted as q8_1.
    AddRmsNormQ8 { a: Buf, b: Buf, w: Weight, sum: Buf, q: Buf, d: Buf, dim: usize, rows: usize },
    /// q8_1 quantization.
    Quantize { src: Buf, q: Buf, d: Buf, rows: usize, dim: usize },
    /// Projection of float rows.
    Matmul { w: Weight, src: Buf, dst: Buf, rows: usize },
    /// Projection of q8_1 rows; `src` holds the float rows for weights off the fast path.
    MatmulPre { w: Weight, q: Buf, d: Buf, src: Buf, dst: Buf, rows: usize },
    /// Projection of one q8_1 row without the weight's macro scale.
    MatmulRaw { w: Weight, q: Buf, d: Buf, dst: Buf },
    /// Two `MatmulRaw` of the same row in one launch.
    MatmulRawDual { w1: Weight, w2: Weight, q: Buf, d: Buf, dst1: Buf, dst2: Buf },
    /// Applies a weight's macro scale in place.
    ApplyScale { w: Weight, buf: Buf, n: usize },
    /// Two q8_1 projections of the same row in one launch.
    Fused2 { w1: Weight, w2: Weight, q: Buf, d: Buf, dst1: Buf, dst2: Buf },
    /// Two projections of the same float row, which the launch quantizes itself.
    Fused2Float { w1: Weight, w2: Weight, src: Buf, dst1: Buf, dst2: Buf },
    /// Three q8_1 projections of the same row in one launch.
    Fused3 {
        w1: Weight,
        w2: Weight,
        w3: Weight,
        q: Buf,
        d: Buf,
        dst1: Buf,
        dst2: Buf,
        dst3: Buf,
    },
    /// Gated activation of the model's family: clamped for M3, plain SiLU otherwise.
    FfnAct { gate: Buf, up: Buf, dst: Buf, n: usize, m3: bool },
    /// SiLU-gated activation of two unscaled projections.
    SiluMulScaled { gate: Buf, up: Buf, wg: Weight, wu: Weight, dst: Buf, n: usize },
    /// The same, emitted as q8_1.
    SiluMulScaledQ8 { gate: Buf, up: Buf, wg: Weight, wu: Weight, q: Buf, d: Buf, n: usize },
    /// GELU-gated activation.
    GeluMul { gate: Buf, up: Buf, dst: Buf, n: usize },
    /// Routed mixture of experts.
    MoeFfn { layer: usize, src: Buf, dst: Buf, rows: usize },
    /// Splits a fused query and output gate.
    QGateSplit { src: Buf, q: Buf, gate: Buf, head_dim: usize, n_head: usize, rows: usize },
    /// Rotary embedding in place, each row at its position.
    Rope { buf: Buf, head_dim: usize, dims: usize, heads: usize, rows: usize },
    /// Appends one row to a KV cache at a row that the host knows.
    AppendKv { seq: usize, layer: usize, k: Buf, v: Buf, at: usize },
    /// Appends row `row` of `k` and `v` to a KV cache at a row that the host knows.
    AppendKvRow { seq: usize, layer: usize, k: Buf, v: Buf, row: usize, at: usize },
    /// Appends one row to a KV cache at the row that the device counter holds.
    AppendKvCounted { seq: usize, layer: usize, k: Buf, v: Buf },
    /// Advances a layer's device row counter.
    IncLen { seq: usize, layer: usize },
    /// Advances the device position counter.
    IncPos,
    /// Attention of one query row over the first `t_kv` cache rows, `k_bytes` and `v_bytes` long.
    FaDecode {
        seq: usize,
        layer: usize,
        q: Buf,
        dst: Buf,
        t_kv: usize,
        k_bytes: usize,
        v_bytes: usize,
    },
    /// Attention over as many cache rows as the device counter holds, with the grid of
    /// `bucket` rows.
    FaDecodeCounted {
        seq: usize,
        layer: usize,
        q: Buf,
        dst: Buf,
        bucket: usize,
        k_bytes: usize,
        v_bytes: usize,
    },
    /// Causal attention among the rows themselves.
    SdpaCausal { q: Buf, k: Buf, v: Buf, dst: Buf, head_dim: usize, n_head: usize, n_head_kv: usize, t: usize },
    Sigmoid { src: Buf, dst: Buf, n: usize },
    Mul { a: Buf, b: Buf, dst: Buf, n: usize },
    Add { a: Buf, b: Buf, dst: Buf, n: usize },
    /// Depthwise convolution with the ring state, which it rolls.
    ConvStep { seq: usize, layer: usize, src: Buf, dst: Buf, conv_dim: usize, d_conv: usize },
    /// Repack, L2 norms and gates for the recurrent scan.
    GdnPrep { layer: usize, d_state: usize, num_v: usize, num_k: usize, key_dim: usize },
    /// The recurrent scan: reads the state, writes the spare state and the output.
    GdnScan { seq: usize, layer: usize, num_v: usize },
    /// Exchanges state and spare state.
    SwapState { seq: usize, layer: usize },
    /// Copies the spare state back into the state.
    CopyState { seq: usize, layer: usize, n: usize },
    GatedRmsNorm { layer: usize, src: Buf, z: Buf, dst: Buf, dim: usize, rows: usize },
    /// Gated norm of the segments of one row, emitted as q8_1.
    GatedRmsNormQ8 { layer: usize, src: Buf, z: Buf, q: Buf, d: Buf, dim: usize, rows: usize },
    /// A copy of a whole buffer.
    Clone { src: Buf, dst: Buf },
    /// Copies row `row` of `src` into `dst`.
    TakeRow { src: Buf, row: usize, dst: Buf, dim: usize },
    /// Copies the row `src` into row `row` of `dst`.
    PutRow { src: Buf, dst: Buf, row: usize, dim: usize },
    /// A row of `parts` parts of `n` elements each, with no contents yet.
    AllocParts { dst: Buf, parts: usize, n: usize },
    /// Copies a row of `n` elements into part `part` of `dst`.
    CopyPart { src: Buf, dst: Buf, part: usize, n: usize },
    /// The rows of `a`, `n_a` elements in all, then the rows of `b`, `n_b` elements.
    StackRows { a: Buf, b: Buf, dst: Buf, n_a: usize, n_b: usize },
    /// Rotary embedding in place, each row at its entry of `positions`.
    RopeAt { buf: Buf, positions: Buf, head_dim: usize, dims: usize, heads: usize, rows: usize },
    /// Rotary embedding of one row with per-frequency factors.
    RopeFactors { buf: Buf, head_dim: usize, heads: usize },
    /// Attention of every row over all keys; `fused` picks the tiled kernel, whose sums differ.
    SdpaAll { q: Buf, k: Buf, v: Buf, dst: Buf, head_dim: usize, n_head: usize, n_head_kv: usize, t: usize, t_kv: usize, fused: bool },
    /// Attention of one query row over `t_kv` cache rows from row `from` on.
    FaRange { layer: usize, q: Buf, dst: Buf, head_dim: usize, n_head: usize, n_head_kv: usize, from: usize, t_kv: usize, windowed: bool },
    /// Attention over as many cache rows as the device counter holds, with the grid of `bucket`
    /// rows.
    FaBucket { layer: usize, q: Buf, dst: Buf, head_dim: usize, n_head: usize, n_head_kv: usize, bucket: usize, windowed: bool },
    /// Attention over the last `win` of the cache rows that the device counter holds.
    FaWindow { layer: usize, q: Buf, dst: Buf, head_dim: usize, n_head: usize, n_head_kv: usize, win: usize },
    /// Multiplies a row by the square root of its length.
    ScaleSqrt { buf: Buf, n: usize },
    /// The sum of two rows, times the output scale of a layer.
    AddScaled { a: Buf, b: Buf, dst: Buf, layer: usize, n: usize },
    /// Index of the largest element, into the token counter.
    Argmax { src: Buf, n: usize },
    /// Warms a KV cache into the L2 cache.
    Prefetch { seq: usize, layer: usize, k_bytes: usize, v_bytes: usize },
}

/// A function that some kernel computes on rows.
pub ghost enum Fun {
    Embed,
    Rms(Weight, nat),
    Q8Quants,
    Q8Scales,
    MmRaw(Weight),
    Scaled(Weight),
    MmFloat(Weight),
    SiluMul,
    ClampedSwiglu,
    GeluMul,
    Moe(nat),
    QueryPart(nat, nat),
    GatePart(nat, nat),
    Rope(nat, nat, nat),
    KvAppend,
    CacheRow,
    CacheRows,
    Attend,
    Causal(nat, nat, nat),
    Sigmoid,
    Mul,
    Add,
    ConvOut(Weight),
    ConvRoll,
    GdnQ(nat, nat, nat),
    GdnK(nat, nat, nat),
    GdnV(nat, nat, nat),
    GdnBeta,
    GdnDecay(nat),
    ScanState,
    ScanOut,
    GatedRms(Weight, nat),
    Argmax,
    Concat,
    RopeFactors(nat, nat),
    AttendAll(nat, nat, nat, bool),
    AttendRows(nat, nat, nat),
    ScaleSqrt,
    AddScaled(nat),
}

/// The symbolic contents of one row.
pub ghost enum Term {
    /// Whatever was there.
    Unknown,
    Int(int),
    Node(Fun, Seq<Term>),
}

/// What the meaning of a plan depends on besides the plan.
pub ghost struct Env {
    /// Weights whose projection reads q8_1 rows.
    pub fast: spec_fn(Weight) -> bool,
    /// Weights whose macro scale is one, so that applying it changes nothing.
    pub unit: spec_fn(Weight) -> bool,
    /// The split geometry that the attention kernel takes for a number of cache rows.
    pub geometry: spec_fn(int) -> int,
}

/// The contents of all buffers.
pub type Store = Map<Buf, Seq<Term>>;

pub open spec fn un(f: Fun, a: Term) -> Term {
    Term::Node(f, seq![a])
}

pub open spec fn bin(f: Fun, a: Term, b: Term) -> Term {
    Term::Node(f, seq![a, b])
}

/// `f` on every row.
pub open spec fn rows1(f: spec_fn(Term) -> Term, a: Seq<Term>) -> Seq<Term> {
    Seq::new(a.len(), |i: int| f(a[i]))
}

/// `f` on every pair of rows.
pub open spec fn rows2(f: spec_fn(Term, Term) -> Term, a: Seq<Term>, b: Seq<Term>) -> Seq<Term> {
    Seq::new(a.len(), |i: int| f(a[i], b[i]))
}

pub open spec fn q8_quants(x: Term) -> Term {
    un(Fun::Q8Quants, x)
}

pub open spec fn q8_scales(x: Term) -> Term {
    un(Fun::Q8Scales, x)
}

/// A q8_1 projection without the macro scale.
pub open spec fn mm_raw(w: Weight, q: Term, d: Term) -> Term {
    bin(Fun::MmRaw(w), q, d)
}

/// A q8_1 projection.
pub open spec fn mm_q8(env: Env, w: Weight, q: Term, d: Term) -> Term {
    scaled(env, w, mm_raw(w, q, d))
}

/// The projection of a float row: weights on the fast path quantize it first.
pub open spec fn mm(env: Env, w: Weight, x: Term) -> Term {
    if (env.fast)(w) {
        mm_q8(env, w, q8_quants(x), q8_scales(x))
    } else {
        un(Fun::MmFloat(w), x)
    }
}

pub open spec fn rms(w: Weight, dim: nat, x: Term) -> Term {
    un(Fun::Rms(w, dim), x)
}

pub open spec fn sum(a: Term, b: Term) -> Term {
    bin(Fun::Add, a, b)
}

/// The gated activation of the model's family.
pub open spec fn act(m3: bool, gate: Term, up: Term) -> Term {
    if m3 {
        bin(Fun::ClampedSwiglu, gate, up)
    } else {
        bin(Fun::SiluMul, gate, up)
    }
}

/// A projection with the weight's macro scale applied.
pub open spec fn scaled(env: Env, w: Weight, x: Term) -> Term {
    if (env.unit)(w) {
        x
    } else {
        un(Fun::Scaled(w), x)
    }
}

/// The only row of a one-row buffer.
pub open spec fn one(s: Store, b: Buf) -> Term {
    s[b][0]
}

pub open spec fn put(s: Store, b: Buf, t: Term) -> Store {
    s.insert(b, seq![t])
}

/// The effect of one launch.
#[verifier::opaque]
pub open spec fn step(env: Env, s: Store, op: Op) -> Store {
    match op {
        Op::Alloc { dst, rows, dim } => s.insert(
            dst,
            Seq::new(rows as nat, |i: int| Term::Unknown),
        ),
        Op::SetPos { row, pos } => s.insert(
            Buf::Pos,
            s[Buf::Pos].update(row as int, Term::Int(pos as int)),
        ),
        Op::PutPos { dst, row, value } => s.insert(
            dst,
            s[dst].update(row as int, Term::Int(value as int)),
        ),
        Op::EmbedHost { row, token, dim } => s.insert(
            Buf::X,
            s[Buf::X].update(row as int, un(Fun::Embed, Term::Int(token as int))),
        ),
        Op::EmbedDevice { dim } => put(s, Buf::X, un(Fun::Embed, one(s, Buf::Token))),
        Op::RmsNorm { src, w, dst, dim, rows } => s.insert(
            dst,
            rows1(|x: Term| rms(w, dim as nat, x), s[src]),
        ),
        Op::RmsNormQ8 { src, w, q, d, dim, rows } => s.insert(
            q,
            rows1(|x: Term| q8_quants(rms(w, dim as nat, x)), s[src]),
        ).insert(d, rows1(|x: Term| q8_scales(rms(w, dim as nat, x)), s[src])),
        Op::AddRmsNorm { a, b, w, sum: res, dst, dim, rows } => s.insert(
            res,
            rows2(|x: Term, y: Term| sum(x, y), s[a], s[b]),
        ).insert(dst, rows2(|x: Term, y: Term| rms(w, dim as nat, sum(x, y)), s[a], s[b])),
        Op::AddRmsNormQ8 { a, b, w, sum: res, q, d, dim, rows } => s.insert(
            res,
            rows2(|x: Term, y: Term| sum(x, y), s[a], s[b]),
        ).insert(
            q,
            rows2(|x: Term, y: Term| q8_quants(rms(w, dim as nat, sum(x, y))), s[a], s[b]),
        ).insert(
            d,
            rows2(|x: Term, y: Term| q8_scales(rms(w, dim as nat, sum(x, y))), s[a], s[b]),
        ),
        Op::Quantize { src, q, d, rows, dim } => s.insert(
            q,
            rows1(|x: Term| q8_quants(x), s[src]),
        ).insert(d, rows1(|x: Term| q8_scales(x), s[src])),
        Op::Matmul { w, src, dst, rows } => s.insert(dst, rows1(|x: Term| mm(env, w, x), s[src])),
        Op::MatmulPre { w, q, d, src, dst, rows } => s.insert(
            dst,
            if (env.fast)(w) {
                rows2(|x: Term, y: Term| mm_q8(env, w, x, y), s[q], s[d])
            } else {
                rows1(|x: Term| mm(env, w, x), s[src])
            },
        ),
        Op::MatmulRaw { w, q, d, dst } => put(s, dst, mm_raw(w, one(s, q), one(s, d))),
        Op::MatmulRawDual { w1, w2, q, d, dst1, dst2 } => put(
            put(s, dst1, mm_raw(w1, one(s, q), one(s, d))),
            dst2,
            mm_raw(w2, one(s, q), one(s, d)),
        ),
        Op::ApplyScale { w, buf, n } => put(s, buf, scaled(env, w, one(s, buf))),
        Op::Fused2 { w1, w2, q, d, dst1, dst2 } => put(
            put(s, dst1, mm_q8(env, w1, one(s, q), one(s, d))),
            dst2,
            mm_q8(env, w2, one(s, q), one(s, d)),
        ),
        Op::Fused2Float { w1, w2, src, dst1, dst2 } => put(
            put(s, dst1, mm_q8(env, w1, q8_quants(one(s, src)), q8_scales(one(s, src)))),
            dst2,
            mm_q8(env, w2, q8_quants(one(s, src)), q8_scales(one(s, src))),
        ),
        Op::Fused3 { w1, w2, w3, q, d, dst1, dst2, dst3 } => put(
            put(
                put(s, dst1, mm_q8(env, w1, one(s, q), one(s, d))),
                dst2,
                mm_q8(env, w2, one(s, q), one(s, d)),
            ),
            dst3,
            mm_q8(env, w3, one(s, q), one(s, d)),
        ),
        Op::FfnAct { gate, up, dst, n, m3 } => s.insert(
            dst,
            rows2(|x: Term, y: Term| act(m3, x, y), s[gate], s[up]),
        ),
        Op::SiluMulScaled { gate, up, wg, wu, dst, n } => put(
            s,
            dst,
            act(false, scaled(env, wg, one(s, gate)), scaled(env, wu, one(s, up))),
        ),
        Op::SiluMulScaledQ8 { gate, up, wg, wu, q, d, n } => {
            let a = act(false, scaled(env, wg, one(s, gate)), scaled(env, wu, one(s, up)));
            put(put(s, q, q8_quants(a)), d, q8_scales(a))
        },
        Op::GeluMul { gate, up, dst, n } => s.insert(
            dst,
            rows2(|x: Term, y: Term| bin(Fun::GeluMul, x, y), s[gate], s[up]),
        ),
        Op::MoeFfn { layer, src, dst, rows } => s.insert(
            dst,
            rows1(|x: Term| un(Fun::Moe(layer as nat), x), s[src]),
        ),
        Op::QGateSplit { src, q, gate, head_dim, n_head, rows } => s.insert(
            q,
            rows1(|x: Term| un(Fun::QueryPart(head_dim as nat, n_head as nat), x), s[src]),
        ).insert(
            gate,
            rows1(|x: Term| un(Fun::GatePart(head_dim as nat, n_head as nat), x), s[src]),
        ),
        Op::Rope { buf, head_dim, dims, heads, rows } => s.insert(
            buf,
            rows2(
                |x: Term, p: Term| bin(Fun::Rope(head_dim as nat, dims as nat, heads as nat), x, p),
                s[buf],
                s[Buf::Pos],
            ),
        ),
        Op::AppendKv { seq, layer, k, v, at } => append_kv(
            s,
            seq,
            layer,
            one(s, k),
            one(s, v),
            Term::Int(at as int),
        ),
        Op::AppendKvRow { seq, layer, k, v, row, at } => append_kv(
            s,
            seq,
            layer,
            s[k][row as int],
            s[v][row as int],
            Term::Int(at as int),
        ),
        Op::AppendKvCounted { seq, layer, k, v } => append_kv(
            s,
            seq,
            layer,
            one(s, k),
            one(s, v),
            one(s, Buf::Len { seq, layer }),
        ),
        Op::IncLen { seq, layer } => put(
            s,
            Buf::Len { seq, layer },
            next_int(one(s, Buf::Len { seq, layer })),
        ),
        Op::IncPos => put(s, Buf::Pos, next_int(one(s, Buf::Pos))),
        Op::FaDecode { seq, layer, q, dst, t_kv, k_bytes, v_bytes } => put(
            s,
            dst,
            attend(
                env,
                one(s, q),
                one(s, Buf::KCache { seq, layer }),
                one(s, Buf::VCache { seq, layer }),
                Term::Int(t_kv as int),
                t_kv as int,
            ),
        ),
        Op::FaDecodeCounted { seq, layer, q, dst, bucket, k_bytes, v_bytes } => put(
            s,
            dst,
            attend(
                env,
                one(s, q),
                one(s, Buf::KCache { seq, layer }),
                one(s, Buf::VCache { seq, layer }),
                one(s, Buf::Len { seq, layer }),
                bucket as int,
            ),
        ),
        Op::SdpaCausal { q, k, v, dst, head_dim, n_head, n_head_kv, t } => s.insert(
            dst,
            Seq::new(
                s[q].len(),
                |i: int|
                    Term::Node(
                        Fun::Causal(head_dim as nat, n_head as nat, n_head_kv as nat),
                        seq![s[q][i]] + s[k].take(i + 1) + s[v].take(i + 1),
                    ),
            ),
        ),
        Op::Sigmoid { src, dst, n } => s.insert(dst, rows1(|x: Term| un(Fun::Sigmoid, x), s[src])),
        Op::Mul { a, b, dst, n } => s.insert(
            dst,
            rows2(|x: Term, y: Term| bin(Fun::Mul, x, y), s[a], s[b]),
        ),
        Op::Add { a, b, dst, n } => s.insert(
            dst,
            rows2(|x: Term, y: Term| sum(x, y), s[a], s[b]),
        ),
        Op::ConvStep { seq, layer, src, dst, conv_dim, d_conv } => {
            let st = one(s, Buf::Conv { seq, layer });
            let w = Weight::Layer(layer, Slot::SsmConv1d);
            put(
                put(s, dst, bin(Fun::ConvOut(w), st, one(s, src))),
                Buf::Conv { seq, layer },
                bin(Fun::ConvRoll, st, one(s, src)),
            )
        },
        Op::GdnPrep { layer, d_state, num_v, num_k, key_dim } => {
            let c = one(s, Buf::ConvOut);
            let shape = (d_state as nat, num_v as nat, num_k as nat);
            put(
                put(
                    put(
                        put(
                            put(s, Buf::QL2, un(Fun::GdnQ(shape.0, shape.1, shape.2), c)),
                            Buf::KL2,
                            un(Fun::GdnK(shape.0, shape.1, shape.2), c),
                        ),
                        Buf::VGdn,
                        un(Fun::GdnV(shape.0, shape.1, shape.2), c),
                    ),
                    Buf::Beta,
                    un(Fun::GdnBeta, one(s, Buf::BetaRaw)),
                ),
                Buf::GLog,
                un(Fun::GdnDecay(layer as nat), one(s, Buf::Alpha)),
            )
        },
        Op::GdnScan { seq, layer, num_v } => {
            let args = scan_args(s, seq, layer);
            put(
                put(s, Buf::SsmAlt { seq, layer }, Term::Node(Fun::ScanState, args)),
                Buf::O,
                Term::Node(Fun::ScanOut, args),
            )
        },
        Op::SwapState { seq, layer } => put(
            put(s, Buf::Ssm { seq, layer }, one(s, Buf::SsmAlt { seq, layer })),
            Buf::SsmAlt { seq, layer },
            one(s, Buf::Ssm { seq, layer }),
        ),
        Op::CopyState { seq, layer, n } => put(
            s,
            Buf::Ssm { seq, layer },
            one(s, Buf::SsmAlt { seq, layer }),
        ),
        Op::GatedRmsNorm { layer, src, z, dst, dim, rows } => put(
            s,
            dst,
            gated_rms(layer, dim as nat, one(s, src), one(s, z)),
        ),
        Op::GatedRmsNormQ8 { layer, src, z, q, d, dim, rows } => {
            let t = gated_rms(layer, dim as nat, one(s, src), one(s, z));
            put(put(s, q, q8_quants(t)), d, q8_scales(t))
        },
        Op::Clone { src, dst } => s.insert(dst, s[src]),
        Op::TakeRow { src, row, dst, dim } => put(s, dst, s[src][row as int]),
        Op::PutRow { src, dst, row, dim } => s.insert(
            dst,
            s[dst].update(row as int, one(s, src)),
        ),
        Op::AllocParts { dst, parts, n } => put(
            s,
            dst,
            Term::Node(Fun::Concat, Seq::new(parts as nat, |i: int| Term::Unknown)),
        ),
        Op::CopyPart { src, dst, part, n } => put(
            s,
            dst,
            set_part(one(s, dst), part as int, one(s, src)),
        ),
        Op::StackRows { a, b, dst, n_a, n_b } => s.insert(dst, s[a] + s[b]),
        Op::RopeAt { buf, positions, head_dim, dims, heads, rows } => s.insert(
            buf,
            rows2(
                |x: Term, p: Term| bin(Fun::Rope(head_dim as nat, dims as nat, heads as nat), x, p),
                s[buf],
                s[positions],
            ),
        ),
        Op::RopeFactors { buf, head_dim, heads } => put(
            s,
            buf,
            bin(
                Fun::RopeFactors(head_dim as nat, heads as nat),
                one(s, buf),
                one(s, Buf::Pos),
            ),
        ),
        Op::SdpaAll { q, k, v, dst, head_dim, n_head, n_head_kv, t, t_kv, fused } => s.insert(
            dst,
            rows1(
                |x: Term|
                    Term::Node(
                        Fun::AttendAll(head_dim as nat, n_head as nat, n_head_kv as nat, fused),
                        seq![x] + s[k] + s[v],
                    ),
                s[q],
            ),
        ),
        Op::FaRange { layer, q, dst, head_dim, n_head, n_head_kv, from, t_kv, windowed } => put(
            s,
            dst,
            attend_rows(
                s,
                layer,
                (head_dim as nat, n_head as nat, n_head_kv as nat),
                one(s, q),
                from as int,
                Term::Int(from + t_kv),
            ),
        ),
        Op::FaBucket { layer, q, dst, head_dim, n_head, n_head_kv, bucket, windowed } => put(
            s,
            dst,
            attend_rows(
                s,
                layer,
                (head_dim as nat, n_head as nat, n_head_kv as nat),
                one(s, q),
                0,
                one(s, Buf::Len { seq: 0, layer }),
            ),
        ),
        Op::FaWindow { layer, q, dst, head_dim, n_head, n_head_kv, win } => put(
            s,
            dst,
            attend_rows(
                s,
                layer,
                (head_dim as nat, n_head as nat, n_head_kv as nat),
                one(s, q),
                match one(s, Buf::Len { seq: 0, layer }) {
                    Term::Int(len) => len - win,
                    _ => 0,
                },
                one(s, Buf::Len { seq: 0, layer }),
            ),
        ),
        Op::ScaleSqrt { buf, n } => put(s, buf, un(Fun::ScaleSqrt, one(s, buf))),
        Op::AddScaled { a, b, dst, layer, n } => put(
            s,
            dst,
            bin(Fun::AddScaled(layer as nat), one(s, a), one(s, b)),
        ),
        Op::Argmax { src, n } => put(s, Buf::Token, un(Fun::Argmax, one(s, src))),
        Op::Prefetch { seq, layer, k_bytes, v_bytes } => s,
    }
}

/// A joined row with one part replaced.
pub open spec fn set_part(t: Term, part: int, x: Term) -> Term {
    match t {
        Term::Node(f, ps) => Term::Node(f, ps.update(part, x)),
        _ => Term::Unknown,
    }
}

/// Attention over the cache rows of sequence 0 from row `from` up to row `to`.
pub open spec fn attend_rows(
    s: Store,
    layer: usize,
    shape: (nat, nat, nat),
    q: Term,
    from: int,
    to: Term,
) -> Term {
    Term::Node(
        Fun::AttendRows(shape.0, shape.1, shape.2),
        seq![
            q,
            one(s, Buf::KCache { seq: 0, layer }),
            one(s, Buf::VCache { seq: 0, layer }),
            Term::Int(from),
            to,
        ],
    )
}

/// The integer after `t`.
pub open spec fn next_int(t: Term) -> Term {
    match t {
        Term::Int(n) => Term::Int(n + 1),
        _ => Term::Unknown,
    }
}

/// The caches with one more row.
pub open spec fn append_kv(
    s: Store,
    seq: usize,
    layer: usize,
    k: Term,
    v: Term,
    at: Term,
) -> Store {
    let kc = Buf::KCache { seq, layer };
    let vc = Buf::VCache { seq, layer };
    put(
        put(s, kc, Term::Node(Fun::KvAppend, seq![one(s, kc), k, at])),
        vc,
        Term::Node(Fun::KvAppend, seq![one(s, vc), v, at]),
    )
}

/// Row `i` of a cache: what was appended there last.
pub open spec fn cache_row(c: Term, i: int) -> Term
    decreases c,
{
    match c {
        Term::Node(Fun::KvAppend, args) => if args.len() == 3 && args[2] == Term::Int(i) {
            args[1]
        } else if args.len() == 3 && args[2] is Int {
            cache_row(args[0], i)
        } else {
            bin(Fun::CacheRow, c, Term::Int(i))
        },
        _ => bin(Fun::CacheRow, c, Term::Int(i)),
    }
}

/// The first `t` rows of a cache.
pub open spec fn first_rows(c: Term, t: Term) -> Term {
    match t {
        Term::Int(n) => Term::Node(
            Fun::CacheRows,
            Seq::new(
                if n < 0 {
                    0nat
                } else {
                    n as nat
                },
                |i: int| cache_row(c, i),
            ),
        ),
        _ => c,
    }
}

/// The first `n` rows of two caches are the same.
pub open spec fn same_rows(a: Term, b: Term, n: int) -> bool {
    forall|i: int| 0 <= i < n ==> #[trigger] cache_row(a, i) == cache_row(b, i)
}

/// Attention of `q` over the first `t` rows of a cache, with the split geometry for `bucket`
/// rows. Rows beyond are not read.
pub open spec fn attend(env: Env, q: Term, k: Term, v: Term, t: Term, bucket: int) -> Term {
    Term::Node(
        Fun::Attend,
        seq![q, first_rows(k, t), first_rows(v, t), t, Term::Int((env.geometry)(bucket))],
    )
}

/// Appending the same row behind the same rows gives the same rows.
pub proof fn lemma_append_same(a: Term, b: Term, row: Term, n: int)
    requires
        same_rows(a, b, n),
    ensures
        ({
            let a1 = Term::Node(Fun::KvAppend, seq![a, row, Term::Int(n)]);
            let b1 = Term::Node(Fun::KvAppend, seq![b, row, Term::Int(n)]);
            &&& same_rows(a1, b1, n + 1)
            &&& first_rows(a1, Term::Int(n + 1)) == first_rows(b1, Term::Int(n + 1))
        }),
{
    let a1 = Term::Node(Fun::KvAppend, seq![a, row, Term::Int(n)]);
    let b1 = Term::Node(Fun::KvAppend, seq![b, row, Term::Int(n)]);
    assert forall|i: int| 0 <= i < n + 1 implies #[trigger] cache_row(a1, i) == cache_row(
        b1,
        i,
    ) by {
        if i != n {
            assert(cache_row(a1, i) == cache_row(a, i));
            assert(cache_row(b1, i) == cache_row(b, i));
        }
    }
    let m = if n + 1 < 0 {
        0nat
    } else {
        (n + 1) as nat
    };
    assert(Seq::new(m, |i: int| cache_row(a1, i)) =~= Seq::new(m, |i: int| cache_row(b1, i)));
}

/// Appending a row leaves the rows before it.
pub proof fn lemma_append_keeps(c: Term, row: Term, at: int, n: int)
    requires
        n <= at,
    ensures
        same_rows(c, Term::Node(Fun::KvAppend, seq![c, row, Term::Int(at)]), n),
{
    let c1 = Term::Node(Fun::KvAppend, seq![c, row, Term::Int(at)]);
    assert forall|i: int| 0 <= i < n implies #[trigger] cache_row(c, i) == cache_row(c1, i) by {
        assert(cache_row(c1, i) == cache_row(c, i));
    }
}

pub open spec fn gated_rms(layer: usize, dim: nat, x: Term, z: Term) -> Term {
    bin(Fun::GatedRms(Weight::Layer(layer, Slot::SsmNorm), dim), x, z)
}

/// What the recurrent scan reads.
pub open spec fn scan_args(s: Store, seq: usize, layer: usize) -> Seq<Term> {
    seq![
        one(s, Buf::QL2),
        one(s, Buf::KL2),
        one(s, Buf::VGdn),
        one(s, Buf::GLog),
        one(s, Buf::Beta),
        one(s, Buf::Ssm { seq, layer }),
    ]
}

/// The effect of a plan.
pub open spec fn run(env: Env, s: Store, ops: Seq<Op>) -> Store
    decreases ops.len(),
{
    if ops.len() == 0 {
        s
    } else {
        step(env, run(env, s, ops.drop_last()), ops.last())
    }
}

/// A plan with one more launch.
pub proof fn lemma_run_push(env: Env, s: Store, ops: Seq<Op>, op: Op)
    ensures
        run(env, s, ops.push(op)) == step(env, run(env, s, ops), op),
{
    assert(ops.push(op).drop_last() =~= ops);
}

/// Plans compose.
pub proof fn lemma_run_concat(env: Env, s: Store, a: Seq<Op>, b: Seq<Op>)
    ensures
        run(env, s, a + b) == run(env, run(env, s, a), b),
    decreases b.len(),
{
    if b.len() == 0 {
        assert(a + b =~= a);
    } else {
        lemma_run_concat(env, s, a, b.drop_last());
        assert((a + b).drop_last() =~= a + b.drop_last());
        assert((a + b).last() == b.last());
    }
}

pub proof fn lemma_run1(env: Env, s: Store, a: Op)
    ensures
        run(env, s, seq![a]) == step(env, s, a),
{
    lemma_run_push(env, s, Seq::empty(), a);
    assert(Seq::empty().push(a) =~= seq![a]);
}

pub proof fn lemma_run2(env: Env, s: Store, a: Op, b: Op)
    ensures
        run(env, s, seq![a, b]) == step(env, step(env, s, a), b),
{
    lemma_run1(env, s, a);
    lemma_run_push(env, s, seq![a], b);
    assert(seq![a].push(b) =~= seq![a, b]);
}

pub proof fn lemma_run3(env: Env, s: Store, a: Op, b: Op, c: Op)
    ensures
        run(env, s, seq![a, b, c]) == step(env, step(env, step(env, s, a), b), c),
{
    lemma_run2(env, s, a, b);
    lemma_run_push(env, s, seq![a, b], c);
    assert(seq![a, b].push(c) =~= seq![a, b, c]);
}

pub proof fn lemma_run4(env: Env, s: Store, a: Op, b: Op, c: Op, d: Op)
    ensures
        run(env, s, seq![a, b, c, d]) == step(
            env,
            step(env, step(env, step(env, s, a), b), c),
            d,
        ),
{
    lemma_run3(env, s, a, b, c);
    lemma_run_push(env, s, seq![a, b, c], d);
    assert(seq![a, b, c].push(d) =~= seq![a, b, c, d]);
}

/// Whether a launch writes `b`.
pub open spec fn writes(op: Op, b: Buf) -> bool {
    match op {
        Op::Alloc { dst, .. } => b == dst,
        Op::SetPos { .. } => b == Buf::Pos,
        Op::PutPos { dst, .. } => b == dst,
        Op::EmbedHost { .. } => b == Buf::X,
        Op::EmbedDevice { .. } => b == Buf::X,
        Op::RmsNorm { dst, .. } => b == dst,
        Op::RmsNormQ8 { q, d, .. } => b == q || b == d,
        Op::AddRmsNorm { sum: res, dst, .. } => b == res || b == dst,
        Op::AddRmsNormQ8 { sum: res, q, d, .. } => b == res || b == q || b == d,
        Op::Quantize { q, d, .. } => b == q || b == d,
        Op::Matmul { dst, .. } => b == dst,
        Op::MatmulPre { dst, .. } => b == dst,
        Op::MatmulRaw { dst, .. } => b == dst,
        Op::MatmulRawDual { dst1, dst2, .. } => b == dst1 || b == dst2,
        Op::ApplyScale { buf, .. } => b == buf,
        Op::Fused2 { dst1, dst2, .. } => b == dst1 || b == dst2,
        Op::Fused2Float { dst1, dst2, .. } => b == dst1 || b == dst2,
        Op::Fused3 { dst1, dst2, dst3, .. } => b == dst1 || b == dst2 || b == dst3,
        Op::FfnAct { dst, .. } => b == dst,
        Op::SiluMulScaled { dst, .. } => b == dst,
        Op::SiluMulScaledQ8 { q, d, .. } => b == q || b == d,
        Op::GeluMul { dst, .. } => b == dst,
        Op::MoeFfn { dst, .. } => b == dst,
        Op::QGateSplit { q, gate, .. } => b == q || b == gate,
        Op::Rope { buf, .. } => b == buf,
        Op::AppendKv { seq, layer, .. } => b == (Buf::KCache { seq, layer }) || b == (Buf::VCache {
            seq,
            layer,
        }),
        Op::AppendKvRow { seq, layer, .. } => b == (Buf::KCache { seq, layer }) || b == (
        Buf::VCache { seq, layer }),
        Op::AppendKvCounted { seq, layer, .. } => b == (Buf::KCache { seq, layer }) || b == (
        Buf::VCache { seq, layer }),
        Op::IncLen { seq, layer } => b == (Buf::Len { seq, layer }),
        Op::IncPos => b == Buf::Pos,
        Op::FaDecode { dst, .. } => b == dst,
        Op::FaDecodeCounted { dst, .. } => b == dst,
        Op::SdpaCausal { dst, .. } => b == dst,
        Op::Sigmoid { dst, .. } => b == dst,
        Op::Mul { dst, .. } => b == dst,
        Op::Add { dst, .. } => b == dst,
        Op::ConvStep { seq, layer, dst, .. } => b == dst || b == (Buf::Conv { seq, layer }),
        Op::GdnPrep { .. } => b == Buf::QL2 || b == Buf::KL2 || b == Buf::VGdn || b == Buf::Beta
            || b == Buf::GLog,
        Op::GdnScan { seq, layer, .. } => b == (Buf::SsmAlt { seq, layer }) || b == Buf::O,
        Op::SwapState { seq, layer } => b == (Buf::Ssm { seq, layer }) || b == (Buf::SsmAlt {
            seq,
            layer,
        }),
        Op::CopyState { seq, layer, .. } => b == (Buf::Ssm { seq, layer }),
        Op::GatedRmsNorm { dst, .. } => b == dst,
        Op::GatedRmsNormQ8 { q, d, .. } => b == q || b == d,
        Op::Clone { dst, .. } => b == dst,
        Op::TakeRow { dst, .. } => b == dst,
        Op::PutRow { dst, .. } => b == dst,
        Op::AllocParts { dst, .. } => b == dst,
        Op::CopyPart { dst, .. } => b == dst,
        Op::StackRows { dst, .. } => b == dst,
        Op::RopeAt { buf, .. } => b == buf,
        Op::RopeFactors { buf, .. } => b == buf,
        Op::SdpaAll { dst, .. } => b == dst,
        Op::FaRange { dst, .. } => b == dst,
        Op::FaBucket { dst, .. } => b == dst,
        Op::FaWindow { dst, .. } => b == dst,
        Op::ScaleSqrt { buf, .. } => b == buf,
        Op::AddScaled { dst, .. } => b == dst,
        Op::Argmax { .. } => b == Buf::Token,
        Op::Prefetch { .. } => false,
    }
}

/// No launch of the plan writes `b`.
pub open spec fn spares(ops: Seq<Op>, b: Buf) -> bool {
    forall|i: int| 0 <= i < ops.len() ==> !writes(#[trigger] ops[i], b)
}

pub proof fn lemma_spares_concat(x: Seq<Op>, y: Seq<Op>, b: Buf)
    requires
        spares(x, b),
        spares(y, b),
    ensures
        spares(x + y, b),
{
    assert forall|i: int| 0 <= i < (x + y).len() implies !writes(#[trigger] (x + y)[i], b) by {
        if i < x.len() {
            assert((x + y)[i] == x[i]);
        } else {
            assert((x + y)[i] == y[i - x.len()]);
        }
    }
}

/// A plan leaves alone what none of its launches writes.
pub proof fn lemma_run_frame(env: Env, s: Store, ops: Seq<Op>, b: Buf)
    requires
        spares(ops, b),
    ensures
        run(env, s, ops)[b] == s[b],
    decreases ops.len(),
{
    if ops.len() > 0 {
        lemma_run_frame(env, s, ops.drop_last(), b);
        assert(!writes(ops[ops.len() - 1], b));
        reveal(step);
    }
}

} // verus!
