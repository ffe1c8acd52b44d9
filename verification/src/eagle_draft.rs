//! The separate draft model of speculative decoding: an encoder over hidden states of the target
//! model, and one transformer layer with its own vocabulary.
//!
//! Encoding joins the hidden states of the auxiliary target layers and projects them to the
//! recurrent state `g`. One draft step computes, from the previous token's embedding `e` and `g`:
//!
//! - `cat = [norm(e) ; norm(g)]`
//! - `x1 = attention(cat) + g`
//! - `g' = ffn(norm(x1)) + x1`
//! - draft logits `= head(norm(g'))`

use vstd::prelude::*;

use crate::attention;
use crate::attention::KvMeta;
use crate::config::GpuTensor;
use crate::decode_laws;
use crate::decode_plan;
use crate::launch;
use crate::launch::{Buf, Op, Slot, Weight};

verus! {

/// The draft model: its weights, and the map from its vocabulary to the target's.
pub struct Eagle3Draft {
    pub fc: GpuTensor,
    pub input_layernorm: GpuTensor,
    pub hidden_norm: GpuTensor,
    pub q_proj: GpuTensor,
    pub k_proj: GpuTensor,
    pub v_proj: GpuTensor,
    pub o_proj: GpuTensor,
    pub post_attention_layernorm: GpuTensor,
    pub gate_proj: GpuTensor,
    pub up_proj: GpuTensor,
    pub down_proj: GpuTensor,
    pub norm: GpuTensor,
    pub lm_head: GpuTensor,
    /// Per draft token, what to add to its id to get the target's id.
    pub d2t: Vec<i64>,
    pub n_embd: usize,
    pub n_head: usize,
    pub n_head_kv: usize,
    pub head_dim: usize,
    pub n_ff: usize,
    pub draft_vocab: usize,
    pub rope_dim_count: usize,
    /// Target layers whose outputs the encoder reads.
    pub aux_layers: Vec<usize>,
}

/// A checkpoint whose tensors do not fit its configuration.
#[derive(Clone, Copy, Debug, PartialEq, Eq, Structural)]
pub enum ShapeError {
    D2tLen,
    FcIn,
    FcOut,
    QIn,
    QOut,
    LmHeadOut,
}

impl Eagle3Draft {
    /// Buffer lengths fit.
    pub open spec fn fits(&self) -> bool {
        &&& 3 * self.n_embd <= usize::MAX
        &&& self.n_head * self.head_dim <= usize::MAX
        &&& self.n_head_kv * self.head_dim <= usize::MAX
        &&& self.aux_layers@.len() * self.n_embd <= usize::MAX
    }

    /// The first shape that is wrong.
    pub open spec fn shape_error(&self) -> Option<ShapeError> {
        if self.d2t@.len() != self.draft_vocab {
            Some(ShapeError::D2tLen)
        } else if self.fc.in_f != 3 * self.n_embd {
            Some(ShapeError::FcIn)
        } else if self.fc.out_f != self.n_embd {
            Some(ShapeError::FcOut)
        } else if self.q_proj.in_f != 2 * self.n_embd {
            Some(ShapeError::QIn)
        } else if self.q_proj.out_f != self.n_head * self.head_dim {
            Some(ShapeError::QOut)
        } else if self.lm_head.out_f != self.draft_vocab {
            Some(ShapeError::LmHeadOut)
        } else {
            None
        }
    }

    /// Checks the tensor shapes against the configuration.
    pub fn check_shapes(&self) -> (r: Result<(), ShapeError>)
        requires
            3 * self.n_embd <= usize::MAX,
            self.n_head * self.head_dim <= usize::MAX,
        ensures
            r is Ok <==> self.shape_error() is None,
            r matches Err(e) ==> self.shape_error() == Some(e),
    {
        if self.d2t.len() != self.draft_vocab {
            Err(ShapeError::D2tLen)
        } else if self.fc.in_f != 3 * self.n_embd {
            Err(ShapeError::FcIn)
        } else if self.fc.out_f != self.n_embd {
            Err(ShapeError::FcOut)
        } else if self.q_proj.in_f != 2 * self.n_embd {
            Err(ShapeError::QIn)
        } else if self.q_proj.out_f != self.n_head * self.head_dim {
            Err(ShapeError::QOut)
        } else if self.lm_head.out_f != self.draft_vocab {
            Err(ShapeError::LmHeadOut)
        } else {
            Ok(())
        }
    }

    /// The target's id of a draft token: the map holds differences, and the sum is cut to 32
    /// bits.
    pub fn d2t_map(&self, draft_id: u32) -> (r: u32)
        requires
            draft_id < self.d2t@.len(),
            i64::MIN <= draft_id + self.d2t@[draft_id as int] <= i64::MAX,
        ensures
            r == (draft_id + self.d2t@[draft_id as int]) as u32,
            0 <= draft_id + self.d2t@[draft_id as int] <= u32::MAX ==> r == draft_id
                + self.d2t@[draft_id as int],
    {
        let target: i64 = draft_id as i64 + self.d2t[draft_id as usize];
        #[verifier::truncate]
        (target as u32)
    }
}

/// The draft layer's KV cache, emptied every round.
pub struct Eagle3Scratch {
    pub kv: KvMeta,
}

impl Eagle3Scratch {
    /// A cache of `cap` rows: 34 bytes for 32 key elements, 24 bytes for 32 value elements.
    pub fn new(n_head_kv: usize, head_dim: usize, cap: usize) -> (r: Eagle3Scratch)
        requires
            head_dim % 32 == 0,
            cap * (head_dim * n_head_kv / 32 * 34) <= usize::MAX,
            head_dim * n_head_kv <= usize::MAX,
            head_dim * n_head_kv / 32 * 34 <= usize::MAX,
        ensures
            r.kv.len == 0,
            r.kv.k_tok_bytes == head_dim * n_head_kv / 32 * 34,
            r.kv.v_tok_bytes == head_dim * n_head_kv / 32 * 24,
            r.kv.k_bytes == cap * r.kv.k_tok_bytes,
            r.kv.v_bytes == cap * r.kv.v_tok_bytes,
    {
        let kv_dim: usize = head_dim * n_head_kv;
        let k_tok_bytes: usize = kv_dim / 32 * 34;
        let v_tok_bytes: usize = kv_dim / 32 * 24;
        assert(cap * v_tok_bytes <= cap * k_tok_bytes) by (nonlinear_arith)
            requires
                v_tok_bytes <= k_tok_bytes,
        ;
        Eagle3Scratch {
            kv: KvMeta {
                len: 0,
                k_tok_bytes,
                v_tok_bytes,
                k_bytes: cap * k_tok_bytes,
                v_bytes: cap * v_tok_bytes,
            },
        }
    }

    /// Empties the cache.
    pub fn reset(&mut self)
        ensures
            final(self).kv == (KvMeta { len: 0, ..old(self).kv }),
    {
        self.kv.len = 0;
    }
}

/// Copies of the first `m` auxiliary states into the joined input.
pub open spec fn join_ops(n: usize, m: nat) -> Seq<Op>
    decreases m,
{
    if m == 0 {
        Seq::empty()
    } else {
        join_ops(n, (m - 1) as nat).push(
            Op::CopyPart {
                src: Buf::Aux((m - 1) as usize),
                dst: Buf::Cat,
                part: (m - 1) as usize,
                n,
            },
        )
    }
}

/// The encoder.
pub open spec fn encode_ops(n: usize, parts: nat) -> Seq<Op> {
    seq![Op::AllocParts { dst: Buf::Cat, parts: parts as usize, n }] + join_ops(n, parts) + seq![
        Op::Matmul { w: Weight::Model(Slot::Fc), src: Buf::Cat, dst: Buf::G, rows: 1 },
    ]
}

/// Inputs of a draft step: position, embedding, norms, and the joined row.
pub open spec fn draft_in_ops(n: usize, pos: usize, token: u32) -> Seq<Op> {
    decode_plan::host_input_ops(pos, token, n) + seq![
        Op::RmsNorm {
            src: Buf::X,
            w: Weight::Layer(0, Slot::AttnNorm),
            dst: Buf::EmbNorm,
            dim: n,
            rows: 1,
        },
        Op::Clone { src: Buf::G, dst: Buf::Res },
        Op::RmsNorm {
            src: Buf::G,
            w: Weight::Layer(0, Slot::HiddenNorm),
            dst: Buf::GNorm,
            dim: n,
            rows: 1,
        },
    ] + cat_ops(n)
}

/// Joins the two normalized inputs.
pub open spec fn cat_ops(n: usize) -> Seq<Op> {
    seq![
        Op::AllocParts { dst: Buf::Cat, parts: 2, n },
        Op::CopyPart { src: Buf::EmbNorm, dst: Buf::Cat, part: 0, n },
        Op::CopyPart { src: Buf::GNorm, dst: Buf::Cat, part: 1, n },
    ]
}

/// Attention of a draft step.
pub open spec fn draft_attn_ops(d: Eagle3Draft, kv: KvMeta) -> Seq<Op> {
    let (hd, nh, nkv, dims) = (d.head_dim, d.n_head, d.n_head_kv, d.rope_dim_count);
    seq![
        Op::Matmul { w: Weight::Layer(0, Slot::Wq), src: Buf::Cat, dst: Buf::Q, rows: 1 },
        Op::Matmul { w: Weight::Layer(0, Slot::Wk), src: Buf::Cat, dst: Buf::K, rows: 1 },
        Op::Matmul { w: Weight::Layer(0, Slot::Wv), src: Buf::Cat, dst: Buf::V, rows: 1 },
        Op::Rope { buf: Buf::Q, head_dim: hd, dims, heads: nh, rows: 1 },
    ] + seq![
        Op::Rope { buf: Buf::K, head_dim: hd, dims, heads: nkv, rows: 1 },
        Op::AppendKv { seq: 0, layer: 0, k: Buf::K, v: Buf::V, at: kv.len },
        Op::FaDecode {
            seq: 0,
            layer: 0,
            q: Buf::Q,
            dst: Buf::Attn,
            t_kv: (kv.len + 1) as usize,
            k_bytes: ((kv.len + 1) * kv.k_tok_bytes) as usize,
            v_bytes: ((kv.len + 1) * kv.v_tok_bytes) as usize,
        },
        Op::Matmul { w: Weight::Layer(0, Slot::Wo), src: Buf::Attn, dst: Buf::Mixed, rows: 1 },
    ]
}

/// Residuals, feed-forward block and head of a draft step.
pub open spec fn draft_out_ops(n: usize, n_ff: usize) -> Seq<Op> {
    seq![
        Op::Add { a: Buf::Mixed, b: Buf::Res, dst: Buf::X1, n },
        Op::RmsNorm {
            src: Buf::X1,
            w: Weight::Layer(0, Slot::PostAttnNorm),
            dst: Buf::Z,
            dim: n,
            rows: 1,
        },
        Op::Matmul { w: Weight::Layer(0, Slot::FfnGate), src: Buf::Z, dst: Buf::FfnGate, rows: 1 },
        Op::Matmul { w: Weight::Layer(0, Slot::FfnUp), src: Buf::Z, dst: Buf::FfnUp, rows: 1 },
    ] + seq![
        Op::FfnAct { gate: Buf::FfnGate, up: Buf::FfnUp, dst: Buf::Act, n: n_ff, m3: false },
        Op::Matmul { w: Weight::Layer(0, Slot::FfnDown), src: Buf::Act, dst: Buf::FfnOut, rows: 1 },
        Op::Add { a: Buf::FfnOut, b: Buf::X1, dst: Buf::G, n },
    ] + seq![
        Op::RmsNorm {
            src: Buf::G,
            w: Weight::Model(Slot::OutputNorm),
            dst: Buf::Hn,
            dim: n,
            rows: 1,
        },
        Op::Matmul { w: Weight::Model(Slot::Output), src: Buf::Hn, dst: Buf::Logits, rows: 1 },
    ]
}

/// One draft step.
pub open spec fn draft_ops(d: Eagle3Draft, kv: KvMeta, pos: usize, token: u32) -> Seq<Op> {
    draft_in_ops(d.n_embd, pos, token) + draft_attn_ops(d, kv) + draft_out_ops(d.n_embd, d.n_ff)
}

impl Eagle3Draft {
    /// Plans the encoder over the hidden states `Aux(0)`, `Aux(1)`, ..., one per auxiliary layer;
    /// the recurrent state lands in `G`.
    pub fn encode(&self) -> (ops: Vec<Op>)
        ensures
            ops@ == encode_ops(self.n_embd, self.aux_layers@.len()),
    {
        let n = self.n_embd;
        let parts = self.aux_layers.len();
        let mut ops: Vec<Op> = Vec::new();
        ops.push(Op::AllocParts { dst: Buf::Cat, parts, n });
        let ghost p0 = ops@;
        let mut i: usize = 0;
        assert(ops@ =~= p0 + join_ops(n, 0));
        while i < parts
            invariant
                i <= parts,
                ops@ == p0 + join_ops(n, i as nat),
            decreases parts - i,
        {
            ops.push(Op::CopyPart { src: Buf::Aux(i), dst: Buf::Cat, part: i, n });
            assert(ops@ =~= p0 + join_ops(n, (i + 1) as nat));
            i += 1;
        }
        ops.push(Op::Matmul { w: Weight::Model(Slot::Fc), src: Buf::Cat, dst: Buf::G, rows: 1 });
        assert(ops@ =~= encode_ops(n, parts as nat));
        ops
    }

    fn push_attn(&self, ops: &mut Vec<Op>, kv: &mut KvMeta)
        requires
            old(kv).has_room(),
        ensures
            final(ops)@ == old(ops)@ + draft_attn_ops(*self, *old(kv)),
            *final(kv) == old(kv).grown(),
    {
        let (hd, nh, nkv, dims) = (
            self.head_dim,
            self.n_head,
            self.n_head_kv,
            self.rope_dim_count,
        );
        let t_kv: usize = kv.len + 1;
        ops.push(
            Op::Matmul { w: Weight::Layer(0, Slot::Wq), src: Buf::Cat, dst: Buf::Q, rows: 1 },
        );
        ops.push(
            Op::Matmul { w: Weight::Layer(0, Slot::Wk), src: Buf::Cat, dst: Buf::K, rows: 1 },
        );
        ops.push(
            Op::Matmul { w: Weight::Layer(0, Slot::Wv), src: Buf::Cat, dst: Buf::V, rows: 1 },
        );
        ops.push(Op::Rope { buf: Buf::Q, head_dim: hd, dims, heads: nh, rows: 1 });
        ops.push(Op::Rope { buf: Buf::K, head_dim: hd, dims, heads: nkv, rows: 1 });
        ops.push(Op::AppendKv { seq: 0, layer: 0, k: Buf::K, v: Buf::V, at: kv.len });
        ops.push(
            Op::FaDecode {
                seq: 0,
                layer: 0,
                q: Buf::Q,
                dst: Buf::Attn,
                t_kv,
                k_bytes: t_kv * kv.k_tok_bytes,
                v_bytes: t_kv * kv.v_tok_bytes,
            },
        );
        ops.push(
            Op::Matmul { w: Weight::Layer(0, Slot::Wo), src: Buf::Attn, dst: Buf::Mixed, rows: 1 },
        );
        assert(ops@ =~= old(ops)@ + draft_attn_ops(*self, *old(kv)));
        kv.len = t_kv;
    }

    /// Plans one draft step after the target token `prev_tok` at position `pos`, from the
    /// recurrent state in `G`, which it replaces. Draft logits land in `Logits`.
    pub fn draft_token(&self, scratch: &mut Eagle3Scratch, prev_tok: u32, pos: usize) -> (ops: Vec<
        Op,
    >)
        requires
            old(scratch).kv.has_room(),
        ensures
            ops@ == draft_ops(*self, old(scratch).kv, pos, prev_tok),
            final(scratch).kv == old(scratch).kv.grown(),
    {
        let n = self.n_embd;
        let n_ff = self.n_ff;
        let mut ops: Vec<Op> = Vec::new();
        ops.push(Op::Alloc { dst: Buf::Pos, rows: 1, dim: 1 });
        ops.push(Op::SetPos { row: 0, pos });
        ops.push(Op::Alloc { dst: Buf::X, rows: 1, dim: n });
        ops.push(Op::EmbedHost { row: 0, token: prev_tok, dim: n });
        ops.push(
            Op::RmsNorm {
                src: Buf::X,
                w: Weight::Layer(0, Slot::AttnNorm),
                dst: Buf::EmbNorm,
                dim: n,
                rows: 1,
            },
        );
        ops.push(Op::Clone { src: Buf::G, dst: Buf::Res });
        ops.push(
            Op::RmsNorm {
                src: Buf::G,
                w: Weight::Layer(0, Slot::HiddenNorm),
                dst: Buf::GNorm,
                dim: n,
                rows: 1,
            },
        );
        ops.push(Op::AllocParts { dst: Buf::Cat, parts: 2, n });
        ops.push(Op::CopyPart { src: Buf::EmbNorm, dst: Buf::Cat, part: 0, n });
        ops.push(Op::CopyPart { src: Buf::GNorm, dst: Buf::Cat, part: 1, n });
        assert(ops@ =~= draft_in_ops(n, pos, prev_tok));
        self.push_attn(&mut ops, &mut scratch.kv);
        let ghost p1 = ops@;
        ops.push(Op::Add { a: Buf::Mixed, b: Buf::Res, dst: Buf::X1, n });
        ops.push(
            Op::RmsNorm {
                src: Buf::X1,
                w: Weight::Layer(0, Slot::PostAttnNorm),
                dst: Buf::Z,
                dim: n,
                rows: 1,
            },
        );
        ops.push(
            Op::Matmul {
                w: Weight::Layer(0, Slot::FfnGate),
                src: Buf::Z,
                dst: Buf::FfnGate,
                rows: 1,
            },
        );
        ops.push(
            Op::Matmul { w: Weight::Layer(0, Slot::FfnUp), src: Buf::Z, dst: Buf::FfnUp, rows: 1 },
        );
        ops.push(
            Op::FfnAct { gate: Buf::FfnGate, up: Buf::FfnUp, dst: Buf::Act, n: n_ff, m3: false },
        );
        ops.push(
            Op::Matmul {
                w: Weight::Layer(0, Slot::FfnDown),
                src: Buf::Act,
                dst: Buf::FfnOut,
                rows: 1,
            },
        );
        ops.push(Op::Add { a: Buf::FfnOut, b: Buf::X1, dst: Buf::G, n });
        ops.push(
            Op::RmsNorm {
                src: Buf::G,
                w: Weight::Model(Slot::OutputNorm),
                dst: Buf::Hn,
                dim: n,
                rows: 1,
            },
        );
        ops.push(
            Op::Matmul {
                w: Weight::Model(Slot::Output),
                src: Buf::Hn,
                dst: Buf::Logits,
                rows: 1,
            },
        );
        assert(ops@ =~= p1 + draft_out_ops(n, n_ff));
        ops
    }
}

/// The joined row of several parts.
pub open spec fn joined(parts: Seq<launch::Term>) -> launch::Term {
    launch::Term::Node(launch::Fun::Concat, parts)
}

proof fn lemma_join(env: launch::Env, s: launch::Store, n: usize, parts: nat, m: nat)
    requires
        m <= parts <= usize::MAX,
        s[Buf::Cat] == seq![joined(Seq::new(parts, |i: int| launch::Term::Unknown))],
    ensures
        launch::run(env, s, join_ops(n, m))[Buf::Cat] == seq![
            joined(
                Seq::new(
                    parts,
                    |i: int|
                        if i < m {
                            launch::one(s, Buf::Aux(i as usize))
                        } else {
                            launch::Term::Unknown
                        },
                ),
            ),
        ],
        forall|i: usize| #[trigger] launch::run(env, s, join_ops(n, m))[Buf::Aux(i)] == s[Buf::Aux(i)],
    decreases m,
{
    let want = |k: nat|
        Seq::new(
            parts,
            |i: int|
                if i < k {
                    launch::one(s, Buf::Aux(i as usize))
                } else {
                    launch::Term::Unknown
                },
        );
    if m == 0 {
        assert(want(0) =~= Seq::new(parts, |i: int| launch::Term::Unknown));
    } else {
        lemma_join(env, s, n, parts, (m - 1) as nat);
        let op = Op::CopyPart {
            src: Buf::Aux((m - 1) as usize),
            dst: Buf::Cat,
            part: (m - 1) as usize,
            n,
        };
        launch::lemma_run_push(env, s, join_ops(n, (m - 1) as nat), op);
        let b = launch::run(env, s, join_ops(n, (m - 1) as nat));
        reveal(launch::step);
        assert(want((m - 1) as nat).update(m - 1, launch::one(s, Buf::Aux((m - 1) as usize)))
            =~= want(m));
    }
}

/// The encoder projects the joined hidden states of the auxiliary layers, in their order.
pub proof fn law_encode(env: launch::Env, s: launch::Store, n: usize, parts: nat)
    requires
        parts <= usize::MAX,
    ensures
        launch::run(env, s, encode_ops(n, parts))[Buf::G] == seq![
            launch::mm(
                env,
                Weight::Model(Slot::Fc),
                joined(Seq::new(parts, |i: int| launch::one(s, Buf::Aux(i as usize)))),
            ),
        ],
{
    let first = seq![Op::AllocParts { dst: Buf::Cat, parts: parts as usize, n }];
    let last = seq![
        Op::Matmul { w: Weight::Model(Slot::Fc), src: Buf::Cat, dst: Buf::G, rows: 1 },
    ];
    let mid = join_ops(n, parts);
    launch::lemma_run_concat(env, s, first, mid);
    launch::lemma_run_concat(env, s, first + mid, last);
    launch::lemma_run1(env, s, first[0]);
    let s1 = launch::run(env, s, first);
    reveal(launch::step);
    lemma_join(env, s1, n, parts, parts);
    let s2 = launch::run(env, s1, mid);
    launch::lemma_run1(env, s2, last[0]);
    let all = Seq::new(parts, |i: int| launch::one(s, Buf::Aux(i as usize)));
    assert(Seq::new(
        parts,
        |i: int|
            if i < parts {
                launch::one(s1, Buf::Aux(i as usize))
            } else {
                launch::Term::Unknown
            },
    ) =~= all);
    assert(launch::run(env, s2, last)[Buf::G] =~= seq![
        launch::mm(env, Weight::Model(Slot::Fc), joined(all)),
    ]);
}

pub open spec fn dw(slot: Slot) -> Weight {
    Weight::Layer(0, slot)
}

/// The joined input of a draft step.
pub open spec fn draft_cat(n: nat, e: launch::Term, g: launch::Term) -> launch::Term {
    joined(seq![launch::rms(dw(Slot::AttnNorm), n, e), launch::rms(dw(Slot::HiddenNorm), n, g)])
}

/// The attention of a draft step over a cache of `len` rows.
pub open spec fn draft_attn(
    env: launch::Env,
    d: Eagle3Draft,
    cat: launch::Term,
    pos: launch::Term,
    kc: launch::Term,
    vc: launch::Term,
    len: int,
) -> launch::Term {
    let (hd, dims) = (d.head_dim as nat, d.rope_dim_count as nat);
    let q = launch::bin(
        launch::Fun::Rope(hd, dims, d.n_head as nat),
        launch::mm(env, dw(Slot::Wq), cat),
        pos,
    );
    let k = launch::bin(
        launch::Fun::Rope(hd, dims, d.n_head_kv as nat),
        launch::mm(env, dw(Slot::Wk), cat),
        pos,
    );
    let v = launch::mm(env, dw(Slot::Wv), cat);
    launch::mm(
        env,
        dw(Slot::Wo),
        launch::attend(
            env,
            q,
            attention::appended(kc, k, len),
            attention::appended(vc, v, len),
            launch::Term::Int(len + 1),
            len + 1,
        ),
    )
}

/// The next recurrent state of a draft step.
pub open spec fn draft_next(
    env: launch::Env,
    n: nat,
    attn: launch::Term,
    g: launch::Term,
) -> launch::Term {
    let x1 = launch::sum(attn, g);
    let z = launch::rms(dw(Slot::PostAttnNorm), n, x1);
    let mlp = launch::mm(
        env,
        dw(Slot::FfnDown),
        launch::act(
            false,
            launch::mm(env, dw(Slot::FfnGate), z),
            launch::mm(env, dw(Slot::FfnUp), z),
        ),
    );
    launch::sum(mlp, x1)
}

/// The draft logits of a recurrent state.
pub open spec fn draft_logits(env: launch::Env, n: nat, g: launch::Term) -> launch::Term {
    launch::mm(
        env,
        Weight::Model(Slot::Output),
        launch::rms(Weight::Model(Slot::OutputNorm), n, g),
    )
}

proof fn lemma_draft_in(
    env: launch::Env,
    s: launch::Store,
    n: usize,
    pos: usize,
    token: u32,
    g: launch::Term,
)
    requires
        s[Buf::G] == seq![g],
    ensures
        ({
            let e = launch::run(env, s, draft_in_ops(n, pos, token));
            &&& e[Buf::Cat] == seq![draft_cat(n as nat, decode_laws::embedded(token), g)]
            &&& e[Buf::Res] == seq![g]
            &&& e[Buf::Pos] == seq![launch::Term::Int(pos as int)]
            &&& e[Buf::KCache { seq: 0, layer: 0 }] == s[Buf::KCache { seq: 0, layer: 0 }]
            &&& e[Buf::VCache { seq: 0, layer: 0 }] == s[Buf::VCache { seq: 0, layer: 0 }]
        }),
{
    let ops = draft_in_ops(n, pos, token);
    let a = decode_plan::host_input_ops(pos, token, n);
    let b = seq![ops[4], ops[5], ops[6]];
    let c = cat_ops(n);
    assert(ops =~= a + b + c);
    launch::lemma_run_concat(env, s, a, b);
    launch::lemma_run_concat(env, s, a + b, c);
    decode_laws::lemma_host_input(env, s, pos, token, n);
    let s1 = launch::run(env, s, a);
    let em = decode_laws::embedded(token);
    launch::lemma_run3(env, s1, ops[4], ops[5], ops[6]);
    let s2 = launch::run(env, s1, b);
    let en = launch::rms(dw(Slot::AttnNorm), n as nat, em);
    let gn = launch::rms(dw(Slot::HiddenNorm), n as nat, g);
    assert(s1[Buf::G] == s[Buf::G]);
    assert(s2[Buf::EmbNorm] == seq![en] && s2[Buf::GNorm] == seq![gn] && s2[Buf::Res] == seq![g]
        && s2[Buf::Pos] == s1[Buf::Pos]) by {
        reveal(launch::step);
        assert(s2[Buf::EmbNorm] =~= seq![en]);
        assert(s2[Buf::GNorm] =~= seq![gn]);
    }
    lemma_cat(env, s2, n, en, gn);
    launch::lemma_run_frame(env, s2, c, Buf::Res);
    launch::lemma_run_frame(env, s2, c, Buf::Pos);
    let kb = Buf::KCache { seq: 0, layer: 0 };
    let vb = Buf::VCache { seq: 0, layer: 0 };
    launch::lemma_run_frame(env, s1, b, kb);
    launch::lemma_run_frame(env, s1, b, vb);
    launch::lemma_run_frame(env, s2, c, kb);
    launch::lemma_run_frame(env, s2, c, vb);
}

proof fn lemma_cat(
    env: launch::Env,
    s: launch::Store,
    n: usize,
    en: launch::Term,
    gn: launch::Term,
)
    requires
        s[Buf::EmbNorm] == seq![en],
        s[Buf::GNorm] == seq![gn],
    ensures
        launch::run(env, s, cat_ops(n))[Buf::Cat] == seq![joined(seq![en, gn])],
{
    let c = cat_ops(n);
    launch::lemma_run3(env, s, c[0], c[1], c[2]);
    assert(c =~= seq![c[0], c[1], c[2]]);
    let t1 = launch::step(env, s, c[0]);
    let t2 = launch::step(env, t1, c[1]);
    let t3 = launch::step(env, t2, c[2]);
    let u = Seq::new(2, |i: int| launch::Term::Unknown);
    assert(t1 == launch::put(s, Buf::Cat, joined(u))) by {
        reveal(launch::step);
    }
    assert(t2 == launch::put(t1, Buf::Cat, joined(u.update(0, en)))) by {
        reveal(launch::step);
    }
    assert(t3 == launch::put(t2, Buf::Cat, joined(u.update(0, en).update(1, gn)))) by {
        reveal(launch::step);
    }
    assert(u.update(0, en).update(1, gn) =~= seq![en, gn]);
}

proof fn lemma_draft_attn(
    env: launch::Env,
    s: launch::Store,
    d: Eagle3Draft,
    kv: KvMeta,
    cat: launch::Term,
    pos: launch::Term,
    kc: launch::Term,
    vc: launch::Term,
)
    requires
        kv.has_room(),
        s[Buf::Cat] == seq![cat],
        s[Buf::Pos] == seq![pos],
        s[Buf::KCache { seq: 0, layer: 0 }] == seq![kc],
        s[Buf::VCache { seq: 0, layer: 0 }] == seq![vc],
    ensures
        ({
            let e = launch::run(env, s, draft_attn_ops(d, kv));
            &&& e[Buf::Mixed] == seq![draft_attn(env, d, cat, pos, kc, vc, kv.len as int)]
            &&& e[Buf::Res] == s[Buf::Res]
        }),
{
    let ops = draft_attn_ops(d, kv);
    let a = seq![ops[0], ops[1], ops[2], ops[3]];
    let b = seq![ops[4], ops[5], ops[6], ops[7]];
    assert(ops =~= a + b);
    launch::lemma_run_concat(env, s, a, b);
    launch::lemma_run4(env, s, ops[0], ops[1], ops[2], ops[3]);
    let s1 = launch::run(env, s, a);
    let (hd, dims) = (d.head_dim as nat, d.rope_dim_count as nat);
    let k0 = launch::mm(env, dw(Slot::Wk), cat);
    let v = launch::mm(env, dw(Slot::Wv), cat);
    let q = launch::bin(
        launch::Fun::Rope(hd, dims, d.n_head as nat),
        launch::mm(env, dw(Slot::Wq), cat),
        pos,
    );
    assert(s1[Buf::Q] == seq![q] && s1[Buf::K] == seq![k0] && s1[Buf::V] == seq![v]
        && s1[Buf::Pos] == seq![pos] && s1[Buf::KCache { seq: 0, layer: 0 }] == seq![kc]
        && s1[Buf::VCache { seq: 0, layer: 0 }] == seq![vc]) by {
        reveal(launch::step);
        assert(s1[Buf::Q] =~= seq![q]);
        assert(s1[Buf::K] =~= seq![k0]);
        assert(s1[Buf::V] =~= seq![v]);
    }
    launch::lemma_run4(env, s1, ops[4], ops[5], ops[6], ops[7]);
    let e = launch::run(env, s1, b);
    assert(e[Buf::Mixed] == seq![draft_attn(env, d, cat, pos, kc, vc, kv.len as int)]) by {
        let t1 = launch::step(env, s1, ops[4]);
        let t2 = launch::step(env, t1, ops[5]);
        let t3 = launch::step(env, t2, ops[6]);
        reveal(launch::step);
        assert(t1[Buf::K] =~= seq![launch::bin(launch::Fun::Rope(hd, dims, d.n_head_kv as nat), k0, pos)]);
        assert(t2[Buf::Q] == seq![q]);
        assert(e[Buf::Mixed] =~= seq![draft_attn(env, d, cat, pos, kc, vc, kv.len as int)]);
    }
    launch::lemma_run_frame(env, s, ops, Buf::Res);
}

proof fn lemma_draft_out(
    env: launch::Env,
    s: launch::Store,
    n: usize,
    n_ff: usize,
    a: launch::Term,
    g: launch::Term,
)
    requires
        s[Buf::Mixed] == seq![a],
        s[Buf::Res] == seq![g],
    ensures
        ({
            let e = launch::run(env, s, draft_out_ops(n, n_ff));
            let next = draft_next(env, n as nat, a, g);
            &&& e[Buf::G] == seq![next]
            &&& e[Buf::Logits] == seq![draft_logits(env, n as nat, next)]
        }),
{
    let ops = draft_out_ops(n, n_ff);
    let p = seq![ops[0], ops[1], ops[2], ops[3]];
    let q = seq![ops[4], ops[5], ops[6]];
    let r = seq![ops[7], ops[8]];
    assert(ops =~= p + q + r);
    launch::lemma_run_concat(env, s, p, q);
    launch::lemma_run_concat(env, s, p + q, r);
    launch::lemma_run4(env, s, ops[0], ops[1], ops[2], ops[3]);
    let s1 = launch::run(env, s, p);
    let x1 = launch::sum(a, g);
    let z = launch::rms(dw(Slot::PostAttnNorm), n as nat, x1);
    let fg = launch::mm(env, dw(Slot::FfnGate), z);
    let fu = launch::mm(env, dw(Slot::FfnUp), z);
    assert(s1[Buf::X1] == seq![x1] && s1[Buf::FfnGate] == seq![fg] && s1[Buf::FfnUp] == seq![fu])
        by {
        reveal(launch::step);
        assert(s1[Buf::X1] =~= seq![x1]);
        assert(s1[Buf::FfnGate] =~= seq![fg]);
        assert(s1[Buf::FfnUp] =~= seq![fu]);
    }
    launch::lemma_run3(env, s1, ops[4], ops[5], ops[6]);
    let s2 = launch::run(env, s1, q);
    let next = draft_next(env, n as nat, a, g);
    assert(s2[Buf::G] == seq![next]) by {
        reveal(launch::step);
        assert(s2[Buf::G] =~= seq![next]);
    }
    launch::lemma_run2(env, s2, ops[7], ops[8]);
    let e = launch::run(env, s2, r);
    assert(e[Buf::G] == seq![next] && e[Buf::Logits] == seq![
        draft_logits(env, n as nat, next),
    ]) by {
        reveal(launch::step);
        assert(e[Buf::Logits] =~= seq![draft_logits(env, n as nat, next)]);
    }
}

/// A draft step computes the next recurrent state and its logits as the module describes.
pub proof fn law_draft_token(
    env: launch::Env,
    s: launch::Store,
    d: Eagle3Draft,
    kv: KvMeta,
    pos: usize,
    token: u32,
    g: launch::Term,
    kc: launch::Term,
    vc: launch::Term,
)
    requires
        kv.has_room(),
        s[Buf::G] == seq![g],
        s[Buf::KCache { seq: 0, layer: 0 }] == seq![kc],
        s[Buf::VCache { seq: 0, layer: 0 }] == seq![vc],
    ensures
        ({
            let e = launch::run(env, s, draft_ops(d, kv, pos, token));
            let n = d.n_embd as nat;
            let cat = draft_cat(n, decode_laws::embedded(token), g);
            let a = draft_attn(
                env,
                d,
                cat,
                launch::Term::Int(pos as int),
                kc,
                vc,
                kv.len as int,
            );
            let next = draft_next(env, n, a, g);
            &&& e[Buf::G] == seq![next]
            &&& e[Buf::Logits] == seq![draft_logits(env, n, next)]
        }),
{
    let n = d.n_embd;
    let p = draft_in_ops(n, pos, token);
    let q = draft_attn_ops(d, kv);
    let r = draft_out_ops(n, d.n_ff);
    launch::lemma_run_concat(env, s, p, q);
    launch::lemma_run_concat(env, s, p + q, r);
    lemma_draft_in(env, s, n, pos, token, g);
    let s1 = launch::run(env, s, p);
    let cat = draft_cat(n as nat, decode_laws::embedded(token), g);
    lemma_draft_attn(env, s1, d, kv, cat, launch::Term::Int(pos as int), kc, vc);
    let s2 = launch::run(env, s1, q);
    lemma_draft_out(
        env,
        s2,
        n,
        d.n_ff,
        draft_attn(env, d, cat, launch::Term::Int(pos as int), kc, vc, kv.len as int),
        g,
    );
}

} // verus!
