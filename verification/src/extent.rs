//! How far launches reach: the sizes of buffers under a plan.
//!
//! `launch::run` says what a plan leaves in the rows of its buffers, as if every launch went over
//! all of them. Whether it does is a matter of its counts. Here a buffer has rows of a width, and
//! rows have parts, such as the heads of a query. A launch fits when its counts are those of the
//! buffers it reads and of its weight: it processes every element that is there, and none that is
//! not. What it defines has the size that its counts give. A plan flows from sizes to sizes as long
//! as every launch fits.

use vstd::prelude::*;

use crate::attention::KvMeta;
use crate::launch::{Buf, Op, Slot, Weight};

verus! {

/// The size of a buffer: rows, elements of a row, and elements of a part of a row.
pub ghost struct Extent {
    pub rows: nat,
    pub width: nat,
    pub part: nat,
}

/// The sizes of all buffers.
pub type Extents = Map<Buf, Extent>;

/// The sizes of a model's tensors and of its caches.
pub ghost struct Shapes {
    /// Elements of an embedding.
    pub embed: nat,
    /// Elements of a vector, such as the weight of a norm.
    pub vector: spec_fn(Weight) -> nat,
    /// Elements of a row that a projection reads.
    pub inp: spec_fn(Weight) -> nat,
    /// Elements of a row that a projection gives.
    pub out: spec_fn(Weight) -> nat,
    /// Elements of a part of that row.
    pub part: spec_fn(Weight) -> nat,
    /// Weights whose projection reads q8_1 rows.
    pub fast: spec_fn(Weight) -> bool,
    /// The KV cache of a sequence at a layer, as the host tracks it before the plan.
    pub kv: spec_fn(usize, usize) -> KvMeta,
    /// Elements of a query row, and of a cache row, at a layer.
    pub query: spec_fn(usize) -> nat,
    pub cache: spec_fn(usize) -> nat,
    /// Rotated elements of a head of some width.
    pub rope: spec_fn(nat) -> nat,
    /// How many of the last cache rows are seen at a layer; none where all are.
    pub window: spec_fn(usize) -> Option<nat>,
    /// Layers whose cache is kept in the windowed format.
    pub narrow: spec_fn(usize) -> bool,
    /// Cache rows that the grid of a counted launch serves.
    pub grid: nat,
}

/// Cache rows that are seen of `len`.
pub open spec fn seen(window: Option<nat>, len: nat) -> nat {
    match window {
        Some(w) => if w < len {
            w
        } else {
            len
        },
        None => len,
    }
}

/// All elements of a buffer.
pub open spec fn elems(x: Extent) -> nat {
    x.rows * x.width
}

/// Rows without parts.
pub open spec fn whole(rows: nat, width: nat) -> Extent {
    Extent { rows, width, part: width }
}

/// One row without parts.
pub open spec fn row(width: nat) -> Extent {
    whole(1, width)
}

/// Rows of parts.
pub open spec fn parted(rows: nat, width: nat, part: nat) -> Extent {
    Extent { rows, width, part }
}

/// As many rows, each as wide.
pub open spec fn alike(a: Extent, b: Extent) -> bool {
    a.rows == b.rows && a.width == b.width
}

/// A norm of `n` segments of `dim` elements goes over every part of every row.
pub open spec fn norm_fits(m: Shapes, x: Extent, w: Weight, dim: nat, n: nat) -> bool {
    dim == (m.vector)(w) && dim == x.part && n * dim == elems(x)
}

/// `rows` rows that the projection `w` reads.
pub open spec fn reads(m: Shapes, x: Extent, w: Weight, rows: nat) -> bool {
    x.rows == rows && x.width == (m.inp)(w)
}

/// What the projection `w` gives of `rows` rows.
pub open spec fn projected(m: Shapes, w: Weight, rows: nat) -> Extent {
    parted(rows, (m.out)(w), (m.part)(w))
}

/// Elements of `n` parts.
pub open spec fn parts_len(parts: int, n: int) -> int {
    parts * n
}

/// Heads of `head_dim` elements, `heads` to a row.
pub open spec fn heads_fit(x: Extent, head_dim: nat, heads: nat, rows: nat) -> bool {
    x.rows == rows && x.part == head_dim && heads * head_dim == x.width
}

/// A view of `t` rows of both caches, within them.
pub open spec fn view_fits(kv: KvMeta, t: nat, k_bytes: nat, v_bytes: nat) -> bool {
    &&& k_bytes == t * kv.k_tok_bytes
    &&& v_bytes == t * kv.v_tok_bytes
    &&& k_bytes <= kv.k_bytes
    &&& v_bytes <= kv.v_bytes
}

/// The counts of a launch are those of what it reads.
pub open spec fn fits(m: Shapes, e: Extents, op: Op) -> bool {
    match op {
        Op::Alloc { .. } => true,
        Op::SetPos { row, .. } => row < e[Buf::Pos].rows,
        Op::PutPos { dst, row, .. } => row < e[dst].rows,
        Op::EmbedHost { row, dim, .. } => row < e[Buf::X].rows && dim == m.embed
            && e[Buf::X].width == dim,
        Op::EmbedDevice { dim } => dim == m.embed,
        Op::RmsNorm { src, w, dim, rows, .. } => norm_fits(m, e[src], w, dim as nat, rows as nat),
        Op::RmsNormQ8 { src, w, dim, rows, .. } => norm_fits(
            m,
            e[src],
            w,
            dim as nat,
            rows as nat,
        ),
        Op::AddRmsNorm { a, b, w, dim, rows, .. } => alike(e[a], e[b]) && norm_fits(
            m,
            e[a],
            w,
            dim as nat,
            rows as nat,
        ),
        Op::AddRmsNormQ8 { a, b, w, dim, rows, .. } => alike(e[a], e[b]) && norm_fits(
            m,
            e[a],
            w,
            dim as nat,
            rows as nat,
        ),
        Op::Quantize { src, rows, dim, .. } => e[src].rows == rows && e[src].width == dim,
        Op::Matmul { w, src, rows, .. } => reads(m, e[src], w, rows as nat),
        Op::MatmulPre { w, q, d, src, rows, .. } => {
            &&& reads(m, e[q], w, rows as nat)
            &&& reads(m, e[d], w, rows as nat)
            &&& !(m.fast)(w) ==> reads(m, e[src], w, rows as nat)
        },
        Op::MatmulRaw { w, q, d, .. } => reads(m, e[q], w, 1) && reads(m, e[d], w, 1),
        Op::MatmulRawDual { w1, w2, q, d, .. } => {
            &&& reads(m, e[q], w1, 1)
            &&& reads(m, e[d], w1, 1)
            &&& reads(m, e[q], w2, 1)
        },
        Op::ApplyScale { w, buf, n } => e[buf].width == (m.out)(w) && n == elems(e[buf]),
        Op::Fused2 { w1, w2, q, d, .. } => {
            &&& reads(m, e[q], w1, 1)
            &&& reads(m, e[d], w1, 1)
            &&& reads(m, e[q], w2, 1)
        },
        Op::Fused2Float { w1, w2, src, .. } => reads(m, e[src], w1, 1) && reads(m, e[src], w2, 1),
        Op::Fused3 { w1, w2, w3, q, d, .. } => {
            &&& reads(m, e[q], w1, 1)
            &&& reads(m, e[d], w1, 1)
            &&& reads(m, e[q], w2, 1)
            &&& reads(m, e[q], w3, 1)
        },
        Op::FfnAct { gate, up, n, .. } => alike(e[gate], e[up]) && n == elems(e[gate]),
        Op::SiluMulScaled { gate, up, n, .. } => alike(e[gate], e[up]) && e[gate].rows == 1 && n
            == elems(e[gate]),
        Op::SiluMulScaledQ8 { gate, up, n, .. } => alike(e[gate], e[up]) && e[gate].rows == 1 && n
            == elems(e[gate]),
        Op::GeluMul { gate, up, n, .. } => alike(e[gate], e[up]) && n == elems(e[gate]),
        Op::MoeFfn { src, rows, .. } => e[src].rows == rows && e[src].width == m.embed,
        Op::QGateSplit { src, head_dim, n_head, rows, .. } => heads_fit(
            e[src],
            2 * head_dim as nat,
            n_head as nat,
            rows as nat,
        ),
        Op::Rope { buf, head_dim, dims, heads, rows } => {
            &&& heads_fit(e[buf], head_dim as nat, heads as nat, rows as nat)
            &&& e[Buf::Pos].rows == rows
            &&& dims == (m.rope)(head_dim as nat)
        },
        Op::AppendKv { layer, k, v, .. } => {
            &&& e[k].rows == 1 && e[k].width == (m.cache)(layer)
            &&& e[v].rows == 1 && e[v].width == (m.cache)(layer)
        },
        Op::AppendKvRow { layer, k, v, row, .. } => {
            &&& row < e[k].rows && e[k].width == (m.cache)(layer)
            &&& row < e[v].rows && e[v].width == (m.cache)(layer)
        },
        Op::AppendKvCounted { layer, k, v, .. } => {
            &&& e[k].rows == 1 && e[k].width == (m.cache)(layer)
            &&& e[v].rows == 1 && e[v].width == (m.cache)(layer)
        },
        Op::IncLen { .. } => true,
        Op::IncPos => e[Buf::Pos].rows == 1,
        Op::FaDecode { seq, layer, q, t_kv, k_bytes, v_bytes, .. } => {
            &&& e[q].rows == 1 && e[q].width == (m.query)(layer)
            &&& view_fits((m.kv)(seq, layer), t_kv as nat, k_bytes as nat, v_bytes as nat)
            &&& t_kv == (m.kv)(seq, layer).len + 1
        },
        Op::FaDecodeCounted { seq, layer, q, bucket, k_bytes, v_bytes, .. } => {
            let kv = (m.kv)(seq, layer);
            &&& e[q].rows == 1 && e[q].width == (m.query)(layer)
            &&& view_fits(kv, bucket as nat, k_bytes as nat, v_bytes as nat) || (k_bytes
                == kv.k_bytes && v_bytes == kv.v_bytes)
        },
        Op::SdpaCausal { q, k, v, head_dim, n_head, n_head_kv, t, .. } => {
            &&& heads_fit(e[q], head_dim as nat, n_head as nat, t as nat)
            &&& heads_fit(e[k], head_dim as nat, n_head_kv as nat, t as nat)
            &&& heads_fit(e[v], head_dim as nat, n_head_kv as nat, t as nat)
        },
        Op::Sigmoid { src, n, .. } => n == elems(e[src]),
        Op::Mul { a, b, n, .. } => alike(e[a], e[b]) && n == elems(e[a]),
        Op::Add { a, b, n, .. } => alike(e[a], e[b]) && n == elems(e[a]),
        Op::ConvStep { layer, src, conv_dim, d_conv, .. } => {
            let w = Weight::Layer(layer, Slot::SsmConv1d);
            &&& e[src].rows == 1 && e[src].width == conv_dim
            &&& (m.out)(w) == conv_dim
            &&& (m.inp)(w) == d_conv
        },
        Op::GdnPrep { layer, d_state, num_v, num_k, key_dim } => {
            &&& key_dim == num_k * d_state
            &&& alike(e[Buf::ConvOut], row((2 * key_dim + num_v * d_state) as nat))
            &&& alike(e[Buf::BetaRaw], row(num_v as nat))
            &&& alike(e[Buf::Alpha], row(num_v as nat))
            &&& (m.vector)(Weight::Layer(layer, Slot::SsmDt)) == num_v
            &&& (m.vector)(Weight::Layer(layer, Slot::SsmA)) == num_v
        },
        Op::GdnScan { num_v, .. } => {
            &&& e[Buf::QL2].part == e[Buf::VGdn].part && e[Buf::KL2].part == e[Buf::VGdn].part
            &&& heads_fit(e[Buf::VGdn], e[Buf::VGdn].part, num_v as nat, 1)
            &&& alike(e[Buf::Beta], row(num_v as nat))
            &&& alike(e[Buf::GLog], row(num_v as nat))
        },
        Op::SwapState { .. } => true,
        Op::CopyState { seq, layer, n } => n == elems(e[Buf::SsmAlt { seq, layer }]),
        Op::GatedRmsNorm { layer, src, z, dim, rows, .. } => alike(e[src], e[z]) && norm_fits(
            m,
            e[src],
            Weight::Layer(layer, Slot::SsmNorm),
            dim as nat,
            rows as nat,
        ),
        Op::GatedRmsNormQ8 { layer, src, z, dim, rows, .. } => alike(e[src], e[z]) && norm_fits(
            m,
            e[src],
            Weight::Layer(layer, Slot::SsmNorm),
            dim as nat,
            rows as nat,
        ),
        Op::Clone { .. } => true,
        Op::TakeRow { src, row, dim, .. } => row < e[src].rows && dim == e[src].width,
        Op::PutRow { src, dst, row, dim } => {
            &&& alike(e[src], whole(1, dim as nat))
            &&& row < e[dst].rows
            &&& dim == e[dst].width
        },
        Op::AllocParts { .. } => true,
        Op::CopyPart { src, dst, part, n } => {
            &&& alike(e[src], whole(1, n as nat))
            &&& e[dst].part == n
            &&& parts_len(part + 1, n as int) <= e[dst].width
        },
        Op::StackRows { a, b, n_a, n_b, .. } => {
            &&& e[a].width == e[b].width && e[a].part == e[b].part
            &&& n_a == elems(e[a])
            &&& n_b == elems(e[b])
        },
        Op::RopeAt { buf, positions, head_dim, dims, heads, rows } => {
            &&& heads_fit(e[buf], head_dim as nat, heads as nat, rows as nat)
            &&& e[positions].rows == rows
            &&& dims == (m.rope)(head_dim as nat)
        },
        Op::RopeFactors { buf, head_dim, heads } => heads_fit(
            e[buf],
            head_dim as nat,
            heads as nat,
            1,
        ) && e[Buf::Pos].rows == 1,
        Op::SdpaAll { q, k, v, head_dim, n_head, n_head_kv, t, t_kv, .. } => {
            &&& heads_fit(e[q], head_dim as nat, n_head as nat, t as nat)
            &&& heads_fit(e[k], head_dim as nat, n_head_kv as nat, t_kv as nat)
            &&& heads_fit(e[v], head_dim as nat, n_head_kv as nat, t_kv as nat)
        },
        Op::FaRange { layer, q, head_dim, n_head, n_head_kv, from, t_kv, windowed, .. } => {
            let len = (m.kv)(0, layer).len;
            &&& heads_fit(e[q], head_dim as nat, n_head as nat, 1)
            &&& n_head_kv * head_dim == (m.cache)(layer)
            &&& from + t_kv == len
            &&& t_kv == seen((m.window)(layer), len as nat)
            &&& windowed == (m.narrow)(layer)
        },
        Op::FaBucket { layer, q, head_dim, n_head, n_head_kv, bucket, windowed, .. } => {
            let len = (m.kv)(0, layer).len;
            &&& heads_fit(e[q], head_dim as nat, n_head as nat, 1)
            &&& n_head_kv * head_dim == (m.cache)(layer)
            &&& bucket == m.grid
            &&& seen((m.window)(layer), len as nat) == len
            &&& windowed == (m.narrow)(layer)
        },
        Op::FaWindow { layer, q, head_dim, n_head, n_head_kv, win, .. } => {
            &&& heads_fit(e[q], head_dim as nat, n_head as nat, 1)
            &&& n_head_kv * head_dim == (m.cache)(layer)
            &&& (m.window)(layer) == Some(win as nat)
        },
        Op::ScaleSqrt { buf, n } => alike(e[buf], row(n as nat)),
        Op::AddScaled { a, b, n, .. } => alike(e[a], row(n as nat)) && alike(
            e[b],
            row(n as nat),
        ),
        Op::Argmax { src, n } => alike(e[src], row(n as nat)),
        Op::Prefetch { seq, layer, k_bytes, v_bytes } => view_fits(
            (m.kv)(seq, layer),
            ((m.kv)(seq, layer).len + 1) as nat,
            k_bytes as nat,
            v_bytes as nat,
        ),
    }
}

/// The sizes after a launch that fits.
pub open spec fn after(m: Shapes, e: Extents, op: Op) -> Extents {
    match op {
        Op::Alloc { dst, rows, dim } => e.insert(dst, whole(rows as nat, dim as nat)),
        Op::SetPos { .. } => e,
        Op::PutPos { .. } => e,
        Op::EmbedHost { .. } => e,
        Op::EmbedDevice { dim } => e.insert(Buf::X, row(dim as nat)),
        Op::RmsNorm { src, dst, .. } => e.insert(dst, e[src]),
        Op::RmsNormQ8 { src, q, d, .. } => e.insert(q, e[src]).insert(d, e[src]),
        Op::AddRmsNorm { a, sum, dst, .. } => e.insert(sum, e[a]).insert(dst, e[a]),
        Op::AddRmsNormQ8 { a, sum, q, d, .. } => e.insert(sum, e[a]).insert(q, e[a]).insert(
            d,
            e[a],
        ),
        Op::Quantize { q, d, rows, dim, .. } => e.insert(
            q,
            whole(rows as nat, dim as nat),
        ).insert(d, whole(rows as nat, dim as nat)),
        Op::Matmul { w, dst, rows, .. } => e.insert(dst, projected(m, w, rows as nat)),
        Op::MatmulPre { w, dst, rows, .. } => e.insert(dst, projected(m, w, rows as nat)),
        Op::MatmulRaw { w, dst, .. } => e.insert(dst, projected(m, w, 1)),
        Op::MatmulRawDual { w1, w2, dst1, dst2, .. } => e.insert(
            dst1,
            projected(m, w1, 1),
        ).insert(dst2, projected(m, w2, 1)),
        Op::ApplyScale { .. } => e,
        Op::Fused2 { w1, w2, dst1, dst2, .. } => e.insert(dst1, projected(m, w1, 1)).insert(
            dst2,
            projected(m, w2, 1),
        ),
        Op::Fused2Float { w1, w2, dst1, dst2, .. } => e.insert(dst1, projected(m, w1, 1)).insert(
            dst2,
            projected(m, w2, 1),
        ),
        Op::Fused3 { w1, w2, w3, dst1, dst2, dst3, .. } => e.insert(
            dst1,
            projected(m, w1, 1),
        ).insert(dst2, projected(m, w2, 1)).insert(dst3, projected(m, w3, 1)),
        Op::FfnAct { gate, dst, .. } => e.insert(dst, e[gate]),
        Op::SiluMulScaled { gate, dst, .. } => e.insert(dst, e[gate]),
        Op::SiluMulScaledQ8 { gate, q, d, .. } => e.insert(q, e[gate]).insert(d, e[gate]),
        Op::GeluMul { gate, dst, .. } => e.insert(dst, e[gate]),
        Op::MoeFfn { src, dst, .. } => e.insert(dst, e[src]),
        Op::QGateSplit { q, gate, head_dim, n_head, rows, .. } => {
            let half = parted(rows as nat, (head_dim * n_head) as nat, head_dim as nat);
            e.insert(q, half).insert(gate, half)
        },
        Op::Rope { .. } => e,
        Op::AppendKv { .. } => e,
        Op::AppendKvRow { .. } => e,
        Op::AppendKvCounted { .. } => e,
        Op::IncLen { .. } => e,
        Op::IncPos => e,
        Op::FaDecode { q, dst, .. } => e.insert(dst, e[q]),
        Op::FaDecodeCounted { q, dst, .. } => e.insert(dst, e[q]),
        Op::SdpaCausal { q, dst, .. } => e.insert(dst, e[q]),
        Op::Sigmoid { src, dst, .. } => e.insert(dst, e[src]),
        Op::Mul { a, dst, .. } => e.insert(dst, e[a]),
        Op::Add { a, dst, .. } => e.insert(dst, e[a]),
        Op::ConvStep { dst, conv_dim, .. } => e.insert(dst, row(conv_dim as nat)),
        Op::GdnPrep { d_state, num_v, .. } => {
            let heads = parted(1, (num_v * d_state) as nat, d_state as nat);
            let gates = row(num_v as nat);
            e.insert(Buf::QL2, heads).insert(Buf::KL2, heads).insert(Buf::VGdn, heads).insert(
                Buf::Beta,
                gates,
            ).insert(Buf::GLog, gates)
        },
        Op::GdnScan { seq, layer, num_v } => {
            let d = e[Buf::VGdn].part;
            e.insert(Buf::SsmAlt { seq, layer }, row((d * d * num_v) as nat)).insert(
                Buf::O,
                e[Buf::VGdn],
            )
        },
        Op::SwapState { seq, layer } => e.insert(
            Buf::Ssm { seq, layer },
            e[Buf::SsmAlt { seq, layer }],
        ).insert(Buf::SsmAlt { seq, layer }, e[Buf::Ssm { seq, layer }]),
        Op::CopyState { seq, layer, .. } => e.insert(
            Buf::Ssm { seq, layer },
            e[Buf::SsmAlt { seq, layer }],
        ),
        Op::GatedRmsNorm { src, dst, .. } => e.insert(dst, e[src]),
        Op::GatedRmsNormQ8 { src, q, d, .. } => e.insert(q, e[src]).insert(d, e[src]),
        Op::Clone { src, dst } => e.insert(dst, e[src]),
        Op::TakeRow { src, dst, dim, .. } => e.insert(
            dst,
            parted(1, dim as nat, e[src].part),
        ),
        Op::PutRow { .. } => e,
        Op::AllocParts { dst, parts, n } => e.insert(
            dst,
            parted(1, parts_len(parts as int, n as int) as nat, n as nat),
        ),
        Op::CopyPart { .. } => e,
        Op::StackRows { a, b, dst, .. } => e.insert(
            dst,
            parted(e[a].rows + e[b].rows, e[a].width, e[a].part),
        ),
        Op::RopeAt { .. } => e,
        Op::RopeFactors { .. } => e,
        Op::SdpaAll { q, dst, .. } => e.insert(dst, e[q]),
        Op::FaRange { q, dst, .. } => e.insert(dst, e[q]),
        Op::FaBucket { q, dst, .. } => e.insert(dst, e[q]),
        Op::FaWindow { q, dst, .. } => e.insert(dst, e[q]),
        Op::ScaleSqrt { .. } => e,
        Op::AddScaled { a, dst, .. } => e.insert(dst, e[a]),
        Op::Argmax { .. } => e,
        Op::Prefetch { .. } => e,
    }
}

/// The sizes after one launch more.
pub open spec fn next(m: Shapes, e: Option<Extents>, op: Op) -> Option<Extents> {
    match e {
        Some(e1) => if fits(m, e1, op) {
            Some(after(m, e1, op))
        } else {
            None
        },
        None => None,
    }
}

/// The sizes after the first `n` launches of a plan, if every one of them fits.
pub open spec fn flow_to(m: Shapes, e: Extents, ops: Seq<Op>, n: nat) -> Option<Extents>
    decreases n,
{
    if n == 0 {
        Some(e)
    } else {
        next(m, flow_to(m, e, ops, (n - 1) as nat), ops[n - 1])
    }
}

/// The sizes after a plan, if every launch fits.
pub open spec fn flow(m: Shapes, e: Extents, ops: Seq<Op>) -> Option<Extents> {
    flow_to(m, e, ops, ops.len())
}

/// A plan in two pieces; the elements of one row.
pub proof fn lemma_flow(m: Shapes)
    ensures
        forall|x: Extent| x.rows == 1 ==> #[trigger] elems(x) == x.width,
        forall|k: int, n: int| k == 1 ==> #[trigger] parts_len(k, n) == n,
        forall|k: int, n: int| k == 2 ==> #[trigger] parts_len(k, n) == 2 * n,
        forall|e: Extents, a: Seq<Op>, b: Seq<Op>|
            #![trigger flow(m, e, a + b)]
            flow(m, e, a + b) == (match flow(m, e, a) {
                Some(e1) => flow(m, e1, b),
                None => None,
            }),
{
    assert forall|x: Extent| x.rows == 1 implies #[trigger] elems(x) == x.width by {
        assert(1 * x.width == x.width);
    }
    assert forall|e: Extents, a: Seq<Op>, b: Seq<Op>|
        #![trigger flow(m, e, a + b)]
        flow(m, e, a + b) == (match flow(m, e, a) {
            Some(e1) => flow(m, e1, b),
            None => None,
        }) by {
        lemma_flow_concat(m, e, a, b, b.len());
    }
}

proof fn lemma_flow_prefix(m: Shapes, e: Extents, a: Seq<Op>, b: Seq<Op>, n: nat)
    requires
        n <= a.len(),
    ensures
        flow_to(m, e, a + b, n) == flow_to(m, e, a, n),
    decreases n,
{
    if n > 0 {
        lemma_flow_prefix(m, e, a, b, (n - 1) as nat);
    }
}

proof fn lemma_flow_concat(m: Shapes, e: Extents, a: Seq<Op>, b: Seq<Op>, n: nat)
    requires
        n <= b.len(),
    ensures
        flow_to(m, e, a + b, a.len() + n) == (match flow(m, e, a) {
            Some(e1) => flow_to(m, e1, b, n),
            None => None,
        }),
    decreases n,
{
    if n == 0 {
        lemma_flow_prefix(m, e, a, b, a.len());
    } else {
        lemma_flow_concat(m, e, a, b, (n - 1) as nat);
        assert((a + b)[a.len() + n - 1] == b[n - 1]);
    }
}

pub proof fn lemma_flow0(m: Shapes, e: Extents)
    ensures
        flow(m, e, Seq::empty()) == Some(e),
{
}

pub proof fn lemma_flow1(m: Shapes, e: Extents, a: Op)
    ensures
        flow(m, e, seq![a]) == next(m, Some(e), a),
{
    reveal_with_fuel(flow_to, 2);
}

pub proof fn lemma_flow2(m: Shapes, e: Extents, a: Op, b: Op)
    ensures
        flow(m, e, seq![a, b]) == next(m, next(m, Some(e), a), b),
{
    reveal_with_fuel(flow_to, 3);
}

pub proof fn lemma_flow3(m: Shapes, e: Extents, a: Op, b: Op, c: Op)
    ensures
        flow(m, e, seq![a, b, c]) == next(m, next(m, next(m, Some(e), a), b), c),
{
    reveal_with_fuel(flow_to, 4);
}

pub proof fn lemma_flow4(m: Shapes, e: Extents, a: Op, b: Op, c: Op, d: Op)
    ensures
        flow(m, e, seq![a, b, c, d]) == next(m, next(m, next(m, next(m, Some(e), a), b), c), d),
{
    reveal_with_fuel(flow_to, 5);
}

pub proof fn lemma_flow5(m: Shapes, x: Extents, a: Op, b: Op, c: Op, d: Op, e: Op)
    ensures
        flow(m, x, seq![a, b, c, d, e]) == next(
            m,
            next(m, next(m, next(m, next(m, Some(x), a), b), c), d),
            e,
        ),
{
    reveal_with_fuel(flow_to, 6);
}

/// Every launch of a plan that flows fits the sizes that the launches before it leave.
pub proof fn law_every_launch_fits(m: Shapes, e: Extents, ops: Seq<Op>, i: int)
    requires
        flow(m, e, ops) is Some,
        0 <= i < ops.len(),
    ensures
        flow_to(m, e, ops, i as nat) is Some,
        fits(m, flow_to(m, e, ops, i as nat)->0, ops[i]),
{
    lemma_flows_before(m, e, ops, (i + 1) as nat, ops.len());
}

proof fn lemma_flows_before(m: Shapes, e: Extents, ops: Seq<Op>, i: nat, n: nat)
    requires
        i <= n,
        flow_to(m, e, ops, n) is Some,
    ensures
        flow_to(m, e, ops, i) is Some,
    decreases n,
{
    if i < n {
        lemma_flows_before(m, e, ops, i, (n - 1) as nat);
    }
}

} // verus!
