//! A batched step computes, for every sequence, what a step of its own computes.

use vstd::prelude::*;

use crate::attention;
use crate::batch;
use crate::config::{Ffn, FullAttnLayer, LinearAttnLayer, Mixer};
use crate::decode_laws;
use crate::decode_laws::StepInput;
use crate::decode_plan::{Counting, StepCache, StepContext};
use crate::ffn;
use crate::launch;
use crate::launch::{Buf, Op, Slot, Weight};
use crate::recurrent;

verus! {

/// What the step of sequence `i` depends on.
pub open spec fn input_of(s0: launch::Store, caches: Seq<StepCache>, i: int) -> StepInput {
    StepInput {
        s0,
        seq: i as usize,
        lens: Seq::new(
            caches[i].kv@.len(),
            |il: int| caches[i].kv@[il]->0.len as int,
        ),
        pos: launch::Term::Int(caches[i].pos as int),
    }
}

/// The hidden state of sequence `i` after the first `n` layers.
pub open spec fn hidden_of(
    env: launch::Env,
    ctx: StepContext,
    s0: launch::Store,
    tokens: Seq<u32>,
    caches: Seq<StepCache>,
    n: nat,
    i: int,
) -> launch::Term {
    decode_laws::hidden(
        env,
        ctx,
        input_of(s0, caches, i),
        decode_laws::embedded(tokens[i]),
        n,
    )
}

/// Rotary positions of all rows.
pub open spec fn positions(caches: Seq<StepCache>) -> Seq<launch::Term> {
    Seq::new(caches.len(), |i: int| launch::Term::Int(caches[i].pos as int))
}

/// The row sequence `f(0)`, `f(1)`, ..., one per sequence.
pub open spec fn per_seq(b: nat, f: spec_fn(int) -> launch::Term) -> Seq<launch::Term> {
    Seq::new(b, f)
}

proof fn lemma_rows_in(
    env: launch::Env,
    ctx: StepContext,
    s: launch::Store,
    il: int,
    b: usize,
    h: spec_fn(int) -> launch::Term,
)
    requires
        s[Buf::X].len() == b,
        forall|i: int|
            0 <= i < b ==> #[trigger] decode_laws::mixer_in(ctx, il, s[Buf::X][i]) == h(i),
    ensures
        ({
            let e = launch::run(env, s, batch::rows_in_ops(ctx, il, b));
            &&& e[Buf::Xn] == per_seq(b as nat, h)
            &&& e[Buf::Hq] == per_seq(b as nat, |i: int| launch::q8_quants(h(i)))
            &&& e[Buf::Hd] == per_seq(b as nat, |i: int| launch::q8_scales(h(i)))
            &&& forall|x: Buf|
                x != Buf::Xn && x != Buf::Hq && x != Buf::Hd ==> #[trigger] e[x] == s[x]
        }),
{
    let ops = batch::rows_in_ops(ctx, il, b);
    let e = launch::run(env, s, ops);
    assert forall|x: Buf| x != Buf::Xn && x != Buf::Hq && x != Buf::Hd implies #[trigger] e[x]
        == s[x] by {
        launch::lemma_run_frame(env, s, ops, x);
    }
    launch::lemma_run2(env, s, ops[0], ops[1]);
    assert(ops =~= seq![ops[0], ops[1]]);
    let s1 = launch::step(env, s, ops[0]);
    reveal(launch::step);
    assert(s1[Buf::Xn] =~= per_seq(b as nat, h)) by {
        assert forall|i: int| 0 <= i < b implies s1[Buf::Xn][i] == h(i) by {
            assert(decode_laws::mixer_in(ctx, il, s[Buf::X][i]) == h(i));
        }
    }
    assert(e[Buf::Hq] =~= per_seq(b as nat, |i: int| launch::q8_quants(h(i))));
    assert(e[Buf::Hd] =~= per_seq(b as nat, |i: int| launch::q8_scales(h(i))));
}

proof fn lemma_rows_proj(
    env: launch::Env,
    s: launch::Store,
    w: Weight,
    dst: Buf,
    b: usize,
    h: spec_fn(int) -> launch::Term,
)
    requires
        s[Buf::Xn] == per_seq(b as nat, h),
        s[Buf::Hq] == per_seq(b as nat, |i: int| launch::q8_quants(h(i))),
        s[Buf::Hd] == per_seq(b as nat, |i: int| launch::q8_scales(h(i))),
    ensures
        launch::step(
            env,
            s,
            Op::MatmulPre { w, q: Buf::Hq, d: Buf::Hd, src: Buf::Xn, dst, rows: b },
        ) == s.insert(dst, per_seq(b as nat, |i: int| launch::mm(env, w, h(i)))),
{
    reveal(launch::step);
    let e = launch::step(
        env,
        s,
        Op::MatmulPre { w, q: Buf::Hq, d: Buf::Hd, src: Buf::Xn, dst, rows: b },
    );
    assert(e[dst] =~= per_seq(b as nat, |i: int| launch::mm(env, w, h(i))));
    assert(e =~= s.insert(dst, per_seq(b as nat, |i: int| launch::mm(env, w, h(i)))));
}

/// Attention inputs of all rows.
proof fn lemma_rows_head(
    env: launch::Env,
    ctx: StepContext,
    s: launch::Store,
    caches: Seq<StepCache>,
    il: int,
    b: usize,
    h: spec_fn(int) -> launch::Term,
)
    requires
        caches.len() == b,
        s[Buf::Xn] == per_seq(b as nat, h),
        s[Buf::Hq] == per_seq(b as nat, |i: int| launch::q8_quants(h(i))),
        s[Buf::Hd] == per_seq(b as nat, |i: int| launch::q8_scales(h(i))),
        s[Buf::Pos] == positions(caches),
    ensures
        ({
            let e = launch::run(env, s, batch::rows_head_ops(ctx, il, b));
            let l = il as usize;
            let c = ctx.cfg;
            &&& e[Buf::Qn] == per_seq(
                b as nat,
                |i: int|
                    attention::query_term(
                        env,
                        c,
                        l,
                        h(i),
                        launch::Term::Int(caches[i].pos as int),
                    ),
            )
            &&& e[Buf::Kn] == per_seq(
                b as nat,
                |i: int|
                    attention::key_term(env, c, l, h(i), launch::Term::Int(caches[i].pos as int)),
            )
            &&& e[Buf::V] == per_seq(b as nat, |i: int| attention::value_term(env, l, h(i)))
            &&& c.attn_out_gate ==> e[Buf::Gate] == per_seq(
                b as nat,
                |i: int|
                    launch::un(
                        launch::Fun::GatePart(c.head_dim_k as nat, c.n_head as nat),
                        launch::mm(env, batch::lw(il, Slot::Wq), h(i)),
                    ),
            )
            &&& e[Buf::Attn].len() == b
            &&& forall|x: Buf| !rows_scratch(x) ==> #[trigger] e[x] == s[x]
        }),
{
    let c = ctx.cfg;
    let l = il as usize;
    let ops = batch::rows_head_ops(ctx, il, b);
    let e = launch::run(env, s, ops);
    let proj = seq![ops[0], ops[1], ops[2]];
    let split = if c.attn_out_gate {
        seq![ops[3]]
    } else {
        Seq::<Op>::empty()
    };
    let rest = ops.skip(
        if c.attn_out_gate {
            4
        } else {
            3
        },
    );
    assert(ops =~= proj + split + rest);
    assert forall|x: Buf| !rows_scratch(x) implies #[trigger] e[x] == s[x] by {
        assert(launch::spares(proj, x));
        assert(launch::spares(split, x));
        assert(launch::spares(rest, x));
        launch::lemma_spares_concat(proj, split, x);
        launch::lemma_spares_concat(proj + split, rest, x);
        launch::lemma_run_frame(env, s, ops, x);
    }
    launch::lemma_run_concat(env, s, proj, split);
    launch::lemma_run_concat(env, s, proj + split, rest);
    let (wq, wk, wv) = (batch::lw(il, Slot::Wq), batch::lw(il, Slot::Wk), batch::lw(il, Slot::Wv));
    launch::lemma_run3(env, s, ops[0], ops[1], ops[2]);
    lemma_rows_proj(env, s, wq, Buf::Qf, b, h);
    let a1 = launch::step(env, s, ops[0]);
    lemma_rows_proj(env, a1, wk, Buf::K, b, h);
    let a2 = launch::step(env, a1, ops[1]);
    lemma_rows_proj(env, a2, wv, Buf::V, b, h);
    let s1 = launch::run(env, s, proj);
    assert(s1[Buf::Qf] == per_seq(b as nat, |i: int| launch::mm(env, wq, h(i))));
    assert(s1[Buf::K] == per_seq(b as nat, |i: int| launch::mm(env, wk, h(i))));
    assert(s1[Buf::V] == per_seq(b as nat, |i: int| launch::mm(env, wv, h(i))));
    let s2 = launch::run(env, s1, split);
    lemma_rows_split(env, ctx, s1, il, b, h);
    lemma_rows_norm_rope(env, ctx, s2, caches, il, b, h);
    assert(e[Buf::V] == s2[Buf::V]);
    assert(e[Buf::V] =~= per_seq(b as nat, |i: int| attention::value_term(env, l, h(i))));
}

proof fn lemma_rows_split(
    env: launch::Env,
    ctx: StepContext,
    s: launch::Store,
    il: int,
    b: usize,
    h: spec_fn(int) -> launch::Term,
)
    requires
        s[Buf::Qf] == per_seq(b as nat, |i: int| launch::mm(env, batch::lw(il, Slot::Wq), h(i))),
    ensures
        ({
            let c = ctx.cfg;
            let ops = batch::rows_head_ops(ctx, il, b);
            let split = if c.attn_out_gate {
                seq![ops[3]]
            } else {
                Seq::<Op>::empty()
            };
            let e = launch::run(env, s, split);
            &&& e[if c.attn_out_gate {
                Buf::Q
            } else {
                Buf::Qf
            }] == per_seq(
                b as nat,
                |i: int|
                    if c.attn_out_gate {
                        launch::un(
                            launch::Fun::QueryPart(c.head_dim_k as nat, c.n_head as nat),
                            launch::mm(env, batch::lw(il, Slot::Wq), h(i)),
                        )
                    } else {
                        launch::mm(env, batch::lw(il, Slot::Wq), h(i))
                    },
            )
            &&& c.attn_out_gate ==> e[Buf::Gate] == per_seq(
                b as nat,
                |i: int|
                    launch::un(
                        launch::Fun::GatePart(c.head_dim_k as nat, c.n_head as nat),
                        launch::mm(env, batch::lw(il, Slot::Wq), h(i)),
                    ),
            )
            &&& e[Buf::K] == s[Buf::K]
            &&& e[Buf::V] == s[Buf::V]
            &&& e[Buf::Pos] == s[Buf::Pos]
        }),
{
    let c = ctx.cfg;
    let ops = batch::rows_head_ops(ctx, il, b);
    let qf = |i: int| launch::mm(env, batch::lw(il, Slot::Wq), h(i));
    let want_q = per_seq(
        b as nat,
        |i: int|
            if c.attn_out_gate {
                launch::un(
                    launch::Fun::QueryPart(c.head_dim_k as nat, c.n_head as nat),
                    launch::mm(env, batch::lw(il, Slot::Wq), h(i)),
                )
            } else {
                launch::mm(env, batch::lw(il, Slot::Wq), h(i))
            },
    );
    if c.attn_out_gate {
        launch::lemma_run1(env, s, ops[3]);
        reveal(launch::step);
        let e = launch::run(env, s, seq![ops[3]]);
        assert(e[Buf::Q] =~= want_q);
        assert(e[Buf::Gate] =~= per_seq(
            b as nat,
            |i: int|
                launch::un(
                    launch::Fun::GatePart(c.head_dim_k as nat, c.n_head as nat),
                    launch::mm(env, batch::lw(il, Slot::Wq), h(i)),
                ),
        ));
    } else {
        assert(s[Buf::Qf] =~= want_q);
    }
}

proof fn lemma_rows_norm_rope(
    env: launch::Env,
    ctx: StepContext,
    s: launch::Store,
    caches: Seq<StepCache>,
    il: int,
    b: usize,
    h: spec_fn(int) -> launch::Term,
)
    requires
        caches.len() == b,
        s[Buf::Pos] == positions(caches),
        s[if ctx.cfg.attn_out_gate {
            Buf::Q
        } else {
            Buf::Qf
        }] == per_seq(
            b as nat,
            |i: int|
                if ctx.cfg.attn_out_gate {
                    launch::un(
                        launch::Fun::QueryPart(
                            ctx.cfg.head_dim_k as nat,
                            ctx.cfg.n_head as nat,
                        ),
                        launch::mm(env, batch::lw(il, Slot::Wq), h(i)),
                    )
                } else {
                    launch::mm(env, batch::lw(il, Slot::Wq), h(i))
                },
        ),
        s[Buf::K] == per_seq(b as nat, |i: int| launch::mm(env, batch::lw(il, Slot::Wk), h(i))),
    ensures
        ({
            let ops = batch::rows_head_ops(ctx, il, b);
            let rest = ops.skip(
                if ctx.cfg.attn_out_gate {
                    4
                } else {
                    3
                },
            );
            let e = launch::run(env, s, rest);
            let l = il as usize;
            let c = ctx.cfg;
            &&& e[Buf::Qn] == per_seq(
                b as nat,
                |i: int|
                    attention::query_term(
                        env,
                        c,
                        l,
                        h(i),
                        launch::Term::Int(caches[i].pos as int),
                    ),
            )
            &&& e[Buf::Kn] == per_seq(
                b as nat,
                |i: int|
                    attention::key_term(env, c, l, h(i), launch::Term::Int(caches[i].pos as int)),
            )
            &&& e[Buf::V] == s[Buf::V]
            &&& e[Buf::Gate] == s[Buf::Gate]
            &&& e[Buf::Attn].len() == b
        }),
{
    let c = ctx.cfg;
    let l = il as usize;
    let ops = batch::rows_head_ops(ctx, il, b);
    let rest = ops.skip(
        if c.attn_out_gate {
            4
        } else {
            3
        },
    );
    let e = launch::run(env, s, rest);
    launch::lemma_run_frame(env, s, rest, Buf::V);
    launch::lemma_run_frame(env, s, rest, Buf::Gate);
    let four = seq![rest[0], rest[1], rest[2], rest[3]];
    let last = seq![rest[4]];
    assert(rest =~= four + last);
    launch::lemma_run_concat(env, s, four, last);
    launch::lemma_run4(env, s, rest[0], rest[1], rest[2], rest[3]);
    let a = launch::step(env, s, rest[0]);
    let bb = launch::step(env, a, rest[1]);
    let cc = launch::step(env, bb, rest[2]);
    let d = launch::step(env, cc, rest[3]);
    launch::lemma_run1(env, d, rest[4]);
    let hd = c.head_dim_k as nat;
    let q0 = |i: int|
        if c.attn_out_gate {
            launch::un(
                launch::Fun::QueryPart(c.head_dim_k as nat, c.n_head as nat),
                launch::mm(env, batch::lw(il, Slot::Wq), h(i)),
            )
        } else {
            launch::mm(env, batch::lw(il, Slot::Wq), h(i))
        };
    reveal(launch::step);
    assert(a[Buf::Qn] =~= per_seq(
        b as nat,
        |i: int| launch::rms(batch::lw(il, Slot::QNorm), hd, q0(i)),
    ));
    assert(bb[Buf::Kn] =~= per_seq(
        b as nat,
        |i: int|
            launch::rms(
                batch::lw(il, Slot::KNorm),
                hd,
                launch::mm(env, batch::lw(il, Slot::Wk), h(i)),
            ),
    ));
    assert(bb[Buf::Qn] == a[Buf::Qn]);
    assert(bb[Buf::Pos] == positions(caches));
    assert(cc[Buf::Qn] =~= per_seq(
        b as nat,
        |i: int|
            attention::query_term(env, c, l, h(i), launch::Term::Int(caches[i].pos as int)),
    ));
    assert(cc[Buf::Kn] == bb[Buf::Kn]);
    assert(d[Buf::Kn] =~= per_seq(
        b as nat,
        |i: int| attention::key_term(env, c, l, h(i), launch::Term::Int(caches[i].pos as int)),
    ));
    assert(d[Buf::Qn] == cc[Buf::Qn]);
    assert(e[Buf::Qn] == d[Buf::Qn]);
    assert(e[Buf::Kn] == d[Buf::Kn]);
}

/// Scratch of the batched mixers, apart from the rows of single sequences.
pub open spec fn rows_scratch(b: Buf) -> bool {
    ||| b == Buf::Qf
    ||| b == Buf::Q
    ||| b == Buf::Qn
    ||| b == Buf::Gate
    ||| b == Buf::K
    ||| b == Buf::Kn
    ||| b == Buf::V
    ||| b == Buf::Attn
    ||| b == Buf::GateSig
    ||| b == Buf::AttnGated
    ||| b == Buf::Mixed
    ||| b == Buf::QRow
    ||| b == Buf::AttnRow
}

/// The attention result of sequence `i`.
pub open spec fn attended(
    env: launch::Env,
    ctx: StepContext,
    inp: StepInput,
    il: int,
    h: launch::Term,
) -> launch::Term {
    let l = il as usize;
    let len = inp.lens[il];
    launch::attend(
        env,
        attention::query_term(env, ctx.cfg, l, h, inp.pos),
        attention::appended(
            decode_laws::k_cache(inp, il),
            attention::key_term(env, ctx.cfg, l, h, inp.pos),
            len,
        ),
        attention::appended(
            decode_laws::v_cache(inp, il),
            attention::value_term(env, l, h),
            len,
        ),
        launch::Term::Int(len + 1),
        len + 1,
    )
}

/// Inputs of the attention loop at layer `il`.
pub open spec fn attend_inputs(
    env: launch::Env,
    ctx: StepContext,
    s: launch::Store,
    caches: Seq<StepCache>,
    il: int,
    b: usize,
    h: spec_fn(int) -> launch::Term,
) -> bool {
    let l = il as usize;
    let c = ctx.cfg;
    &&& s[Buf::Qn] == per_seq(
        b as nat,
        |i: int|
            attention::query_term(env, c, l, h(i), launch::Term::Int(caches[i].pos as int)),
    )
    &&& s[Buf::Kn] == per_seq(
        b as nat,
        |i: int| attention::key_term(env, c, l, h(i), launch::Term::Int(caches[i].pos as int)),
    )
    &&& s[Buf::V] == per_seq(b as nat, |i: int| attention::value_term(env, l, h(i)))
    &&& s[Buf::Attn].len() == b
}

/// Buffers that the attention loop over `m` sequences writes.
pub open spec fn attend_writes(il: int, m: int, x: Buf) -> bool {
    match x {
        Buf::QRow | Buf::AttnRow | Buf::Attn => true,
        Buf::KCache { seq, layer } => layer == il && seq < m,
        Buf::VCache { seq, layer } => layer == il && seq < m,
        _ => false,
    }
}

proof fn lemma_attend(
    env: launch::Env,
    ctx: StepContext,
    s: launch::Store,
    s0: launch::Store,
    caches: Seq<StepCache>,
    il: int,
    b: usize,
    q_dim: usize,
    h: spec_fn(int) -> launch::Term,
    m: nat,
)
    requires
        caches.len() == b,
        m <= b,
        0 <= il < ctx.layers@.len() <= usize::MAX,
        ctx.layers@[il].mixer is Full,
        attend_inputs(env, ctx, s, caches, il, b, h),
        forall|i: int| #![trigger caches[i]] 0 <= i < b ==> ctx.kv_ready(caches[i].kv@),
        forall|i: int|
            #![trigger caches[i]]
            0 <= i < b ==> decode_laws::fresh(ctx, input_of(s0, caches, i), s, il),
    ensures
        ({
            let e = launch::run(env, s, batch::attend_ops(il, caches, q_dim, m));
            &&& e[Buf::Attn].len() == b
            &&& forall|i: int|
                #![trigger caches[i]]
                0 <= i < m ==> e[Buf::Attn][i] == attended(
                    env,
                    ctx,
                    input_of(s0, caches, i),
                    il,
                    h(i),
                ) && decode_laws::advanced(
                    env,
                    ctx,
                    input_of(s0, caches, i),
                    Counting::Host,
                    e,
                    il,
                    h(i),
                )
            &&& forall|x: Buf| !attend_writes(il, m as int, x) ==> #[trigger] e[x] == s[x]
        }),
    decreases m,
{
    if m > 0 {
        let i = m - 1;
        let l = il as usize;
        lemma_attend(env, ctx, s, s0, caches, il, b, q_dim, h, i as nat);
        let before = batch::attend_ops(il, caches, q_dim, i as nat);
        let kv = caches[i].kv@[il]->0;
        let ops = batch::seq_attend_ops(il, i as usize, kv, q_dim);
        launch::lemma_run_concat(env, s, before, ops);
        let s1 = launch::run(env, s, before);
        let e = launch::run(env, s1, ops);
        let inp = input_of(s0, caches, i);
        let kb = Buf::KCache { seq: i as usize, layer: l };
        let vb = Buf::VCache { seq: i as usize, layer: l };
        assert(decode_laws::fresh(ctx, inp, s, il));
        assert(ctx.kv_ready(caches[i].kv@) && ctx.layers@[il].mixer is Full);
        assert(s1[kb] == s[kb]);
        assert(s1[vb] == s[vb]);
        assert(s1[Buf::Qn] == s[Buf::Qn]);
        assert(s1[Buf::Kn] == s[Buf::Kn]);
        assert(s1[Buf::V] == s[Buf::V]);
        launch::lemma_run4(env, s1, ops[0], ops[1], ops[2], ops[3]);
        assert(ops =~= seq![ops[0], ops[1], ops[2], ops[3]]);
        let t1 = launch::step(env, s1, ops[0]);
        let t2 = launch::step(env, t1, ops[1]);
        let t3 = launch::step(env, t2, ops[2]);
        let k1 = attention::appended(
            decode_laws::k_cache(inp, il),
            attention::key_term(env, ctx.cfg, l, h(i), inp.pos),
            inp.lens[il],
        );
        let v1 = attention::appended(
            decode_laws::v_cache(inp, il),
            attention::value_term(env, l, h(i)),
            inp.lens[il],
        );
        let at = attended(env, ctx, inp, il, h(i));
        assert(t1[kb] == seq![k1] && t1[vb] == seq![v1] && t1[Buf::Qn] == s1[Buf::Qn]
            && t1[Buf::Attn] == s1[Buf::Attn]) by {
            reveal(launch::step);
        }
        assert(t2[Buf::QRow] == seq![attention::query_term(env, ctx.cfg, l, h(i), inp.pos)]
            && t2[kb] == t1[kb] && t2[vb] == t1[vb] && t2[Buf::Attn] == s1[Buf::Attn]) by {
            reveal(launch::step);
        }
        assert(t3[Buf::AttnRow] == seq![at] && t3[kb] == t1[kb] && t3[vb] == t1[vb]
            && t3[Buf::Attn] == s1[Buf::Attn]) by {
            reveal(launch::step);
        }
        assert(e[Buf::Attn] == s1[Buf::Attn].update(i, at) && e[kb] == t1[kb] && e[vb] == t1[vb])
            by {
            reveal(launch::step);
        }
        assert forall|x: Buf| !attend_writes(il, m as int, x) implies #[trigger] e[x] == s[x] by {
            launch::lemma_run_frame(env, s1, ops, x);
            assert(s1[x] == s[x]);
        }
        assert forall|j: int| #![trigger caches[j]] 0 <= j < m implies e[Buf::Attn][j] == attended(
            env,
            ctx,
            input_of(s0, caches, j),
            il,
            h(j),
        ) && decode_laws::advanced(
            env,
            ctx,
            input_of(s0, caches, j),
            Counting::Host,
            e,
            il,
            h(j),
        ) by {
            let lb = Buf::Len { seq: j as usize, layer: l };
            assert(!attend_writes(il, m as int, lb));
            assert(e[lb] == s[lb]);
            assert(decode_laws::fresh(ctx, input_of(s0, caches, j), s, il));
            if j < i {
                let kj = Buf::KCache { seq: j as usize, layer: l };
                let vj = Buf::VCache { seq: j as usize, layer: l };
                launch::lemma_run_frame(env, s1, ops, kj);
                launch::lemma_run_frame(env, s1, ops, vj);
            }
        }
    }
}

proof fn lemma_rows_out(
    env: launch::Env,
    ctx: StepContext,
    s: launch::Store,
    il: int,
    b: usize,
    h: spec_fn(int) -> launch::Term,
    a: spec_fn(int) -> launch::Term,
)
    requires
        s[Buf::Attn] == per_seq(b as nat, a),
        ctx.cfg.attn_out_gate ==> s[Buf::Gate] == per_seq(
            b as nat,
            |i: int|
                launch::un(
                    launch::Fun::GatePart(ctx.cfg.head_dim_k as nat, ctx.cfg.n_head as nat),
                    launch::mm(env, batch::lw(il, Slot::Wq), h(i)),
                ),
        ),
    ensures
        ({
            let e = launch::run(env, s, batch::rows_out_ops(ctx, il, b));
            &&& e[Buf::Mixed] == per_seq(
                b as nat,
                |i: int| attention::attn_out_term(env, ctx.cfg, il as usize, h(i), a(i)),
            )
            &&& forall|x: Buf| !rows_scratch(x) ==> #[trigger] e[x] == s[x]
        }),
{
    let ops = batch::rows_out_ops(ctx, il, b);
    let e = launch::run(env, s, ops);
    assert forall|x: Buf| !rows_scratch(x) implies #[trigger] e[x] == s[x] by {
        launch::lemma_run_frame(env, s, ops, x);
    }
    let want = per_seq(
        b as nat,
        |i: int| attention::attn_out_term(env, ctx.cfg, il as usize, h(i), a(i)),
    );
    reveal(launch::step);
    if ctx.cfg.attn_out_gate {
        launch::lemma_run3(env, s, ops[0], ops[1], ops[2]);
        assert(ops =~= seq![ops[0], ops[1], ops[2]]);
        let s1 = launch::step(env, s, ops[0]);
        let s2 = launch::step(env, s1, ops[1]);
        let g = |i: int|
            launch::un(
                launch::Fun::GatePart(ctx.cfg.head_dim_k as nat, ctx.cfg.n_head as nat),
                launch::mm(env, batch::lw(il, Slot::Wq), h(i)),
            );
        assert(s1[Buf::GateSig] =~= per_seq(
            b as nat,
            |i: int| launch::un(launch::Fun::Sigmoid, g(i)),
        ));
        assert(s2[Buf::AttnGated] =~= per_seq(
            b as nat,
            |i: int|
                launch::bin(launch::Fun::Mul, a(i), launch::un(launch::Fun::Sigmoid, g(i))),
        ));
        assert(e[Buf::Mixed] =~= want);
    } else {
        launch::lemma_run1(env, s, ops[0]);
        assert(ops =~= seq![ops[0]]);
        assert(e[Buf::Mixed] =~= want);
    }
}

/// Buffers that the work on layer `il` leaves alone in all sequences.
pub open spec fn batch_foreign(il: int, x: Buf) -> bool {
    match x {
        Buf::X | Buf::Pos | Buf::Token => true,
        Buf::KCache { seq, layer } => layer != il,
        Buf::VCache { seq, layer } => layer != il,
        Buf::Len { seq, layer } => true,
        Buf::Conv { seq, layer } => layer != il,
        Buf::Ssm { seq, layer } => layer != il,
        _ => false,
    }
}

/// Full attention of all rows.
proof fn lemma_rows_full(
    env: launch::Env,
    ctx: StepContext,
    s: launch::Store,
    s0: launch::Store,
    caches: Seq<StepCache>,
    il: int,
    b: usize,
    fa: FullAttnLayer,
    h: spec_fn(int) -> launch::Term,
)
    requires
        caches.len() == b,
        0 <= il < ctx.layers@.len() <= usize::MAX,
        ctx.layers@[il].mixer == Mixer::Full(fa),
        s[Buf::Xn] == per_seq(b as nat, h),
        s[Buf::Hq] == per_seq(b as nat, |i: int| launch::q8_quants(h(i))),
        s[Buf::Hd] == per_seq(b as nat, |i: int| launch::q8_scales(h(i))),
        s[Buf::Pos] == positions(caches),
        forall|i: int| #![trigger caches[i]] 0 <= i < b ==> ctx.kv_ready(caches[i].kv@),
        forall|i: int|
            #![trigger caches[i]]
            0 <= i < b ==> decode_laws::fresh(ctx, input_of(s0, caches, i), s, il),
    ensures
        ({
            let e = launch::run(env, s, batch::rows_mixer_ops(ctx, caches, il, b));
            &&& e[Buf::Mixed] == per_seq(
                b as nat,
                |i: int| decode_laws::mixed(env, ctx, input_of(s0, caches, i), il, h(i)),
            )
            &&& forall|i: int|
                #![trigger caches[i]]
                0 <= i < b ==> decode_laws::advanced(
                    env,
                    ctx,
                    input_of(s0, caches, i),
                    Counting::Host,
                    e,
                    il,
                    h(i),
                )
            &&& forall|x: Buf| batch_foreign(il, x) ==> #[trigger] e[x] == s[x]
        }),
{
    let l = il as usize;
    let q_dim = ctx.cfg.q_dim() as usize;
    let head = batch::rows_head_ops(ctx, il, b);
    let mid = batch::attend_ops(il, caches, q_dim, b as nat);
    let out = batch::rows_out_ops(ctx, il, b);
    launch::lemma_run_concat(env, s, head, mid);
    launch::lemma_run_concat(env, s, head + mid, out);
    let s1 = launch::run(env, s, head);
    let s2 = launch::run(env, s1, mid);
    let e = launch::run(env, s2, out);
    lemma_rows_head(env, ctx, s, caches, il, b, h);
    assert forall|i: int| #![trigger caches[i]] 0 <= i < b implies decode_laws::fresh(
        ctx,
        input_of(s0, caches, i),
        s1,
        il,
    ) by {
        assert(decode_laws::fresh(ctx, input_of(s0, caches, i), s, il));
    }
    lemma_attend(env, ctx, s1, s0, caches, il, b, q_dim, h, b as nat);
    let a = |i: int| attended(env, ctx, input_of(s0, caches, i), il, h(i));
    assert(s2[Buf::Attn] =~= per_seq(b as nat, a)) by {
        assert forall|i: int| 0 <= i < b implies s2[Buf::Attn][i] == a(i) by {
            assert(caches[i] == caches[i]);
        }
    }
    assert(s2[Buf::Gate] == s1[Buf::Gate]);
    lemma_rows_out(env, ctx, s2, il, b, h, a);
    assert(e[Buf::Mixed] =~= per_seq(
        b as nat,
        |i: int| decode_laws::mixed(env, ctx, input_of(s0, caches, i), il, h(i)),
    ));
    assert forall|i: int| #![trigger caches[i]] 0 <= i < b implies decode_laws::advanced(
        env,
        ctx,
        input_of(s0, caches, i),
        Counting::Host,
        e,
        il,
        h(i),
    ) by {
        let sq = i as usize;
        assert(e[Buf::KCache { seq: sq, layer: l }] == s2[Buf::KCache { seq: sq, layer: l }]);
        assert(e[Buf::VCache { seq: sq, layer: l }] == s2[Buf::VCache { seq: sq, layer: l }]);
        assert(e[Buf::Len { seq: sq, layer: l }] == s2[Buf::Len { seq: sq, layer: l }]);
    }
    assert forall|x: Buf| batch_foreign(il, x) implies #[trigger] e[x] == s[x] by {
        assert(e[x] == s2[x]);
        assert(!attend_writes(il, b as int, x));
        assert(s2[x] == s1[x]);
        assert(s1[x] == s[x]);
    }
}

/// What the recurrent loop over `m` sequences leaves alone.
pub open spec fn recur_spares(il: int, m: int, x: Buf) -> bool {
    match x {
        Buf::X | Buf::Pos | Buf::Token | Buf::Xn | Buf::Hq | Buf::Hd => true,
        Buf::KCache { .. } | Buf::VCache { .. } | Buf::Len { .. } => true,
        Buf::Conv { seq, layer } => layer != il || seq >= m,
        Buf::Ssm { seq, layer } => layer != il || seq >= m,
        _ => false,
    }
}

proof fn lemma_recur(
    env: launch::Env,
    ctx: StepContext,
    s: launch::Store,
    s0: launch::Store,
    caches: Seq<StepCache>,
    il: int,
    b: usize,
    la: LinearAttnLayer,
    h: spec_fn(int) -> launch::Term,
    m: nat,
)
    requires
        caches.len() == b,
        m <= b,
        0 <= il < ctx.layers@.len() <= usize::MAX,
        ctx.layers@[il].mixer == Mixer::Linear(la),
        recurrent::linear_flags(env, il as usize, la, ctx.layers@[il].kernels),
        s[Buf::Xn] == per_seq(b as nat, h),
        s[Buf::Hq] == per_seq(b as nat, |i: int| launch::q8_quants(h(i))),
        s[Buf::Hd] == per_seq(b as nat, |i: int| launch::q8_scales(h(i))),
        s[Buf::Mixed].len() == b,
        forall|i: int|
            #![trigger caches[i]]
            0 <= i < b ==> decode_laws::fresh(ctx, input_of(s0, caches, i), s, il),
    ensures
        ({
            let e = launch::run(env, s, batch::recur_ops(ctx, la, il, m));
            &&& e[Buf::Mixed].len() == b
            &&& forall|i: int|
                #![trigger caches[i]]
                0 <= i < m ==> e[Buf::Mixed][i] == decode_laws::mixed(
                    env,
                    ctx,
                    input_of(s0, caches, i),
                    il,
                    h(i),
                ) && decode_laws::advanced(
                    env,
                    ctx,
                    input_of(s0, caches, i),
                    Counting::Host,
                    e,
                    il,
                    h(i),
                )
            &&& forall|x: Buf| recur_spares(il, m as int, x) ==> #[trigger] e[x] == s[x]
        }),
    decreases m,
{
    if m > 0 {
        let i = m - 1;
        let l = il as usize;
        let sq = i as usize;
        lemma_recur(env, ctx, s, s0, caches, il, b, la, h, i as nat);
        let before = batch::recur_ops(ctx, la, il, i as nat);
        let ops = batch::seq_recur_ops(ctx, la, il, sq);
        launch::lemma_run_concat(env, s, before, ops);
        let s1 = launch::run(env, s, before);
        let e = launch::run(env, s1, ops);
        let inp = input_of(s0, caches, i);
        let cb = Buf::Conv { seq: sq, layer: l };
        let sb = Buf::Ssm { seq: sq, layer: l };
        assert(decode_laws::fresh(ctx, inp, s, il));
        assert(s1[cb] == s[cb]);
        assert(s1[sb] == s[sb]);
        assert(s1[Buf::Xn] == s[Buf::Xn]);
        assert(s1[Buf::Hq] == s[Buf::Hq]);
        assert(s1[Buf::Hd] == s[Buf::Hd]);
        lemma_seq_recur(env, ctx, s1, la, il, sq, h(i), decode_laws::conv_ring(inp, il),
            decode_laws::ssm_state(inp, il));
        assert forall|x: Buf| recur_spares(il, m as int, x) implies #[trigger] e[x] == s[x] by {
            assert(s1[x] == s[x]);
            assert(e[x] == s1[x]);
        }
        assert forall|j: int| #![trigger caches[j]] 0 <= j < m implies e[Buf::Mixed][j]
            == decode_laws::mixed(env, ctx, input_of(s0, caches, j), il, h(j))
            && decode_laws::advanced(
            env,
            ctx,
            input_of(s0, caches, j),
            Counting::Host,
            e,
            il,
            h(j),
        ) by {
            if j < i {
                let cj = Buf::Conv { seq: j as usize, layer: l };
                let sj = Buf::Ssm { seq: j as usize, layer: l };
                assert(e[cj] == s1[cj]);
                assert(e[sj] == s1[sj]);
            }
        }
    }
}

/// One sequence of the recurrent loop.
proof fn lemma_seq_recur(
    env: launch::Env,
    ctx: StepContext,
    s: launch::Store,
    la: LinearAttnLayer,
    il: int,
    sq: usize,
    h: launch::Term,
    conv: launch::Term,
    state: launch::Term,
)
    requires
        0 <= il < ctx.layers@.len() <= usize::MAX,
        ctx.layers@[il].mixer == Mixer::Linear(la),
        recurrent::linear_flags(env, il as usize, la, ctx.layers@[il].kernels),
        s[Buf::Xn][sq as int] == h,
        s[Buf::Hq][sq as int] == launch::q8_quants(h),
        s[Buf::Hd][sq as int] == launch::q8_scales(h),
        s[Buf::Conv { seq: sq, layer: il as usize }] == seq![conv],
        s[Buf::Ssm { seq: sq, layer: il as usize }] == seq![state],
    ensures
        ({
            let e = launch::run(env, s, batch::seq_recur_ops(ctx, la, il, sq));
            let l = il as usize;
            let ssm = ctx.cfg.ssm->0;
            &&& e[Buf::Mixed] == s[Buf::Mixed].update(
                sq as int,
                recurrent::linear_attn_term(env, l, ssm, h, conv, state),
            )
            &&& e[Buf::Conv { seq: sq, layer: l }] == seq![
                recurrent::ring_term(env, l, h, conv),
            ]
            &&& e[Buf::Ssm { seq: sq, layer: l }] == seq![
                recurrent::state_term(env, l, ssm, h, conv, state),
            ]
            &&& forall|x: Buf| seq_recur_spares(l, sq, x) ==> #[trigger] e[x] == s[x]
        }),
{
    let l = il as usize;
    let ssm = ctx.cfg.ssm->0;
    let dim = ctx.cfg.n_embd;
    let io = batch::seq_io();
    let kernels = ctx.layers@[il].kernels;
    let pre = ctx.layers@[il].mixer.in_fast();
    let ops = batch::seq_recur_ops(ctx, la, il, sq);
    let take = seq![
        Op::TakeRow { src: Buf::Xn, row: sq, dst: Buf::XnRow, dim },
        Op::TakeRow { src: Buf::Hq, row: sq, dst: Buf::HqRow, dim },
        Op::TakeRow { src: Buf::Hd, row: sq, dst: Buf::HdRow, dim },
    ];
    let body = recurrent::linear_attn_ops(sq, l, la, kernels, ssm, dim, pre, false, io);
    let place = seq![Op::PutRow { src: Buf::MixedRow, dst: Buf::Mixed, row: sq, dim }];
    launch::lemma_run_concat(env, s, take, body);
    launch::lemma_run_concat(env, s, take + body, place);
    let s1 = launch::run(env, s, take);
    let s2 = launch::run(env, s1, body);
    let e = launch::run(env, s2, place);
    launch::lemma_run3(env, s, take[0], take[1], take[2]);
    assert(s1[Buf::XnRow] == seq![h] && s1[Buf::HqRow] == seq![launch::q8_quants(h)]
        && s1[Buf::HdRow] == seq![launch::q8_scales(h)]) by {
        reveal(launch::step);
    }
    assert forall|x: Buf|
        x != Buf::XnRow && x != Buf::HqRow && x != Buf::HdRow implies #[trigger] s1[x] == s[x] by {
        launch::lemma_run_frame(env, s, take, x);
    }
    recurrent::law_linear_attn_plan(
        env,
        s1,
        sq,
        l,
        la,
        kernels,
        ssm,
        dim,
        pre,
        false,
        io,
        h,
        conv,
        state,
    );
    assert(s2[Buf::Mixed] == s1[Buf::Mixed]);
    launch::lemma_run1(env, s2, place[0]);
    assert(e == s2.insert(
        Buf::Mixed,
        s2[Buf::Mixed].update(sq as int, launch::one(s2, Buf::MixedRow)),
    )) by {
        reveal(launch::step);
    }
    assert forall|x: Buf| seq_recur_spares(l, sq, x) implies #[trigger] e[x] == s[x] by {
        assert(recurrent::linear_frame(s1, s2, io, sq, l));
        assert(s2[x] == s1[x]);
        assert(s1[x] == s[x]);
    }
}

/// What the work on sequence `sq` at layer `l` leaves alone.
pub open spec fn seq_recur_spares(l: usize, sq: usize, x: Buf) -> bool {
    match x {
        Buf::X | Buf::Pos | Buf::Token | Buf::Xn | Buf::Hq | Buf::Hd => true,
        Buf::KCache { .. } | Buf::VCache { .. } | Buf::Len { .. } => true,
        Buf::Conv { seq, layer } => layer != l || seq != sq,
        Buf::Ssm { seq, layer } => layer != l || seq != sq,
        _ => false,
    }
}

/// The mixer of layer `il` for all rows.
proof fn lemma_rows_mixer(
    env: launch::Env,
    ctx: StepContext,
    s: launch::Store,
    s0: launch::Store,
    caches: Seq<StepCache>,
    il: int,
    b: usize,
    h: spec_fn(int) -> launch::Term,
)
    requires
        caches.len() == b,
        b >= 1,
        0 <= il < ctx.layers@.len() <= usize::MAX,
        s[Buf::Xn] == per_seq(b as nat, h),
        s[Buf::Hq] == per_seq(b as nat, |i: int| launch::q8_quants(h(i))),
        s[Buf::Hd] == per_seq(b as nat, |i: int| launch::q8_scales(h(i))),
        s[Buf::Pos] == positions(caches),
        forall|i: int| #![trigger caches[i]] 0 <= i < b ==> ctx.kv_ready(caches[i].kv@),
        forall|i: int|
            #![trigger caches[i]]
            0 <= i < b ==> decode_laws::fresh(ctx, input_of(s0, caches, i), s, il),
        ctx.layers@[il].mixer matches Mixer::Linear(la) ==> recurrent::linear_flags(
            env,
            il as usize,
            la,
            ctx.layers@[il].kernels,
        ),
    ensures
        ({
            let e = launch::run(env, s, batch::rows_mixer_ops(ctx, caches, il, b));
            &&& e[Buf::Mixed] == per_seq(
                b as nat,
                |i: int| decode_laws::mixed(env, ctx, input_of(s0, caches, i), il, h(i)),
            )
            &&& forall|i: int|
                #![trigger caches[i]]
                0 <= i < b ==> decode_laws::advanced(
                    env,
                    ctx,
                    input_of(s0, caches, i),
                    Counting::Host,
                    e,
                    il,
                    h(i),
                )
            &&& forall|x: Buf| batch_foreign(il, x) ==> #[trigger] e[x] == s[x]
        }),
{
    match ctx.layers@[il].mixer {
        Mixer::Full(fa) => {
            lemma_rows_full(env, ctx, s, s0, caches, il, b, fa, h);
        },
        Mixer::Linear(la) => {
            let alloc = Op::Alloc { dst: Buf::Mixed, rows: b, dim: ctx.cfg.n_embd };
            let rest = batch::recur_ops(ctx, la, il, b as nat);
            launch::lemma_run_concat(env, s, seq![alloc], rest);
            launch::lemma_run1(env, s, alloc);
            let s1 = launch::run(env, s, seq![alloc]);
            assert(s1 == s.insert(
                Buf::Mixed,
                Seq::new(b as nat, |i: int| launch::Term::Unknown),
            )) by {
                reveal(launch::step);
            }
            assert forall|i: int| #![trigger caches[i]] 0 <= i < b implies decode_laws::fresh(
                ctx,
                input_of(s0, caches, i),
                s1,
                il,
            ) by {
                assert(decode_laws::fresh(ctx, input_of(s0, caches, i), s, il));
            }
            lemma_recur(env, ctx, s1, s0, caches, il, b, la, h, b as nat);
            let e = launch::run(env, s1, rest);
            assert(e[Buf::Mixed] =~= per_seq(
                b as nat,
                |i: int| decode_laws::mixed(env, ctx, input_of(s0, caches, i), il, h(i)),
            )) by {
                assert forall|i: int| 0 <= i < b implies e[Buf::Mixed][i] == decode_laws::mixed(
                    env,
                    ctx,
                    input_of(s0, caches, i),
                    il,
                    h(i),
                ) by {
                    assert(caches[i] == caches[i]);
                }
            }
            assert forall|x: Buf| batch_foreign(il, x) implies #[trigger] e[x] == s[x] by {
                assert(recur_spares(il, b as int, x));
                assert(e[x] == s1[x]);
            }
        },
    }
}

/// A projection of rows that were quantized just before.
proof fn lemma_quantized_proj(
    env: launch::Env,
    s: launch::Store,
    w: Weight,
    q: Buf,
    d: Buf,
    src: Buf,
    dst: Buf,
    b: usize,
    z: spec_fn(int) -> launch::Term,
)
    requires
        s[src] == per_seq(b as nat, z),
        s[q] == per_seq(b as nat, |i: int| launch::q8_quants(z(i))),
        s[d] == per_seq(b as nat, |i: int| launch::q8_scales(z(i))),
    ensures
        launch::step(env, s, Op::MatmulPre { w, q, d, src, dst, rows: b }) == s.insert(
            dst,
            per_seq(b as nat, |i: int| launch::mm(env, w, z(i))),
        ),
{
    reveal(launch::step);
    let e = launch::step(env, s, Op::MatmulPre { w, q, d, src, dst, rows: b });
    assert(e[dst] =~= per_seq(b as nat, |i: int| launch::mm(env, w, z(i))));
    assert(e =~= s.insert(dst, per_seq(b as nat, |i: int| launch::mm(env, w, z(i)))));
}

proof fn lemma_rows_dense(
    env: launch::Env,
    s: launch::Store,
    il: int,
    b: usize,
    n_ff: usize,
    dim: usize,
    z: spec_fn(int) -> launch::Term,
)
    requires
        s[Buf::Z] == per_seq(b as nat, z),
    ensures
        launch::run(env, s, batch::rows_dense_ops(il, b, n_ff, dim))[Buf::FfnOut] == per_seq(
            b as nat,
            |i: int| ffn::ffn_term(env, il as usize, false, z(i)),
        ),
        launch::run(env, s, batch::rows_dense_ops(il, b, n_ff, dim))[Buf::X1] == s[Buf::X1],
{
    let ops = batch::rows_dense_ops(il, b, n_ff, dim);
    let (wg, wu, wd) = (
        batch::lw(il, Slot::FfnGate),
        batch::lw(il, Slot::FfnUp),
        batch::lw(il, Slot::FfnDown),
    );
    let first = seq![ops[0], ops[1], ops[2], ops[3]];
    let last = seq![ops[4], ops[5]];
    assert(ops =~= first + last);
    launch::lemma_run_concat(env, s, first, last);
    launch::lemma_run4(env, s, ops[0], ops[1], ops[2], ops[3]);
    let s1 = launch::step(env, s, ops[0]);
    let s2 = launch::step(env, s1, ops[1]);
    let s3 = launch::step(env, s2, ops[2]);
    let s4 = launch::step(env, s3, ops[3]);
    launch::lemma_run2(env, s4, ops[4], ops[5]);
    let s5 = launch::step(env, s4, ops[4]);
    let e = launch::run(env, s, ops);
    let g = |i: int| launch::mm(env, wg, z(i));
    let u = |i: int| launch::mm(env, wu, z(i));
    let a = |i: int| launch::act(false, g(i), u(i));
    assert(s1[Buf::Zq] == per_seq(b as nat, |i: int| launch::q8_quants(z(i))) && s1[Buf::Zd]
        == per_seq(b as nat, |i: int| launch::q8_scales(z(i))) && s1[Buf::Z] == s[Buf::Z]) by {
        reveal(launch::step);
        assert(s1[Buf::Zq] =~= per_seq(b as nat, |i: int| launch::q8_quants(z(i))));
        assert(s1[Buf::Zd] =~= per_seq(b as nat, |i: int| launch::q8_scales(z(i))));
    }
    lemma_quantized_proj(env, s1, wg, Buf::Zq, Buf::Zd, Buf::Z, Buf::FfnGate, b, z);
    lemma_quantized_proj(env, s2, wu, Buf::Zq, Buf::Zd, Buf::Z, Buf::FfnUp, b, z);
    assert(s4[Buf::Act] == per_seq(b as nat, a)) by {
        reveal(launch::step);
        assert(s4[Buf::Act] =~= per_seq(b as nat, a));
    }
    assert(s5[Buf::ActQ] == per_seq(b as nat, |i: int| launch::q8_quants(a(i)))
        && s5[Buf::ActD] == per_seq(b as nat, |i: int| launch::q8_scales(a(i))) && s5[Buf::Act]
        == s4[Buf::Act]) by {
        reveal(launch::step);
        assert(s5[Buf::ActQ] =~= per_seq(b as nat, |i: int| launch::q8_quants(a(i))));
        assert(s5[Buf::ActD] =~= per_seq(b as nat, |i: int| launch::q8_scales(a(i))));
    }
    lemma_quantized_proj(env, s5, wd, Buf::ActQ, Buf::ActD, Buf::Act, Buf::FfnOut, b, a);
    assert(e[Buf::FfnOut] =~= per_seq(
        b as nat,
        |i: int| ffn::ffn_term(env, il as usize, false, z(i)),
    ));
    launch::lemma_run_frame(env, s, ops, Buf::X1);
}

/// Residual, feed-forward block and closing sum of all rows.
proof fn lemma_rows_ffn(
    env: launch::Env,
    ctx: StepContext,
    s: launch::Store,
    il: int,
    b: usize,
    x: spec_fn(int) -> launch::Term,
    m: spec_fn(int) -> launch::Term,
)
    requires
        0 <= il < ctx.layers@.len() <= usize::MAX,
        ctx.layers@[il].ffn is Dense ==> !ctx.cfg.is_m3(),
        s[Buf::X] == per_seq(b as nat, x),
        s[Buf::Mixed] == per_seq(b as nat, m),
    ensures
        ({
            let e = launch::run(env, s, batch::rows_ffn_ops(ctx, il, b));
            &&& e[Buf::X] == per_seq(
                b as nat,
                |i: int|
                    launch::sum(
                        launch::sum(x(i), m(i)),
                        decode_laws::feed_forward(env, ctx, il, launch::sum(x(i), m(i))),
                    ),
            )
            &&& e[Buf::Pos] == s[Buf::Pos]
            &&& forall|q: Buf| decode_laws::is_state(q) ==> #[trigger] e[q] == s[q]
        }),
{
    let dim = ctx.cfg.n_embd;
    let ops = batch::rows_ffn_ops(ctx, il, b);
    let n = ops.len() as int;
    let first = seq![ops[0]];
    let body = ops.subrange(1, n - 1);
    let last = seq![ops[n - 1]];
    assert(ops =~= first + body + last);
    launch::lemma_run_concat(env, s, first, body);
    launch::lemma_run_concat(env, s, first + body, last);
    let s1 = launch::run(env, s, first);
    let s2 = launch::run(env, s1, body);
    let e = launch::run(env, s2, last);
    launch::lemma_run1(env, s, ops[0]);
    launch::lemma_run1(env, s2, ops[n - 1]);
    let x1 = |i: int| launch::sum(x(i), m(i));
    let z = |i: int|
        launch::rms(Weight::Layer(il as usize, Slot::PostAttnNorm), dim as nat, x1(i));
    let f = |i: int| decode_laws::feed_forward(env, ctx, il, x1(i));
    assert(s1[Buf::X1] == per_seq(b as nat, x1) && s1[Buf::Z] == per_seq(b as nat, z)) by {
        reveal(launch::step);
        assert(s1[Buf::X1] =~= per_seq(b as nat, x1));
        assert(s1[Buf::Z] =~= per_seq(b as nat, z));
    }
    match ctx.layers@[il].ffn {
        Ffn::Dense { ffn_gate, ffn_up, ffn_down } => {
            assert(body =~= batch::rows_dense_ops(il, b, ffn_gate.out_f, dim));
            lemma_rows_dense(env, s1, il, b, ffn_gate.out_f, dim, z);
            assert(s2[Buf::FfnOut] =~= per_seq(b as nat, f));
        },
        Ffn::Moe => {
            launch::lemma_run1(env, s1, ops[1]);
            assert(body =~= seq![ops[1]]);
            assert(s2[Buf::FfnOut] == per_seq(b as nat, f) && s2[Buf::X1] == s1[Buf::X1]) by {
                reveal(launch::step);
                assert(s2[Buf::FfnOut] =~= per_seq(b as nat, f));
            }
        },
    }
    assert(e[Buf::X] == per_seq(
        b as nat,
        |i: int|
            launch::sum(
                launch::sum(x(i), m(i)),
                decode_laws::feed_forward(env, ctx, il, launch::sum(x(i), m(i))),
            ),
    )) by {
        reveal(launch::step);
        assert(e[Buf::X] =~= per_seq(
            b as nat,
            |i: int|
                launch::sum(
                    launch::sum(x(i), m(i)),
                    decode_laws::feed_forward(env, ctx, il, launch::sum(x(i), m(i))),
                ),
        ));
    }
    assert forall|q: Buf| decode_laws::is_state(q) || q == Buf::Pos implies #[trigger] e[q]
        == s[q] by {
        launch::lemma_run_frame(env, s, ops, q);
    }
}

/// What holds of a batched step after `n` layers.
pub open spec fn batch_progress(
    env: launch::Env,
    ctx: StepContext,
    s0: launch::Store,
    tokens: Seq<u32>,
    caches: Seq<StepCache>,
    s: launch::Store,
    n: nat,
) -> bool {
    &&& s[Buf::X] == per_seq(
        caches.len(),
        |i: int| hidden_of(env, ctx, s0, tokens, caches, n, i),
    )
    &&& s[Buf::Pos] == positions(caches)
    &&& forall|i: int|
        #![trigger caches[i]]
        0 <= i < caches.len() ==> decode_laws::progress(
            env,
            ctx,
            input_of(s0, caches, i),
            Counting::Host,
            decode_laws::embedded(tokens[i]),
            s,
            n as int,
        )
}

/// Model flags and caches agree with the device for every sequence.
pub open spec fn batch_consistent(
    env: launch::Env,
    ctx: StepContext,
    s0: launch::Store,
    caches: Seq<StepCache>,
) -> bool {
    &&& 1 <= caches.len() <= usize::MAX
    &&& ctx.cfg.is_m3() ==> !batch::has_dense(ctx)
    &&& forall|i: int|
        #![trigger caches[i]]
        0 <= i < caches.len() ==> decode_laws::consistent(
            env,
            ctx,
            caches[i].kv@,
            Counting::Host,
            input_of(s0, caches, i),
        )
}

proof fn lemma_batch_layer(
    env: launch::Env,
    ctx: StepContext,
    s0: launch::Store,
    tokens: Seq<u32>,
    caches: Seq<StepCache>,
    s: launch::Store,
    il: int,
)
    requires
        batch_consistent(env, ctx, s0, caches),
        0 <= il < ctx.layers@.len() <= usize::MAX,
        batch_progress(env, ctx, s0, tokens, caches, s, il as nat),
    ensures
        batch_progress(
            env,
            ctx,
            s0,
            tokens,
            caches,
            launch::run(
                env,
                s,
                batch::rows_in_ops(ctx, il, caches.len() as usize) + batch::rows_mixer_ops(
                    ctx,
                    caches,
                    il,
                    caches.len() as usize,
                ) + batch::rows_ffn_ops(ctx, il, caches.len() as usize),
            ),
            (il + 1) as nat,
        ),
{
    let b = caches.len() as usize;
    let head = batch::rows_in_ops(ctx, il, b);
    let mix = batch::rows_mixer_ops(ctx, caches, il, b);
    let feed = batch::rows_ffn_ops(ctx, il, b);
    launch::lemma_run_concat(env, s, head, mix);
    launch::lemma_run_concat(env, s, head + mix, feed);
    let s1 = launch::run(env, s, head);
    let s2 = launch::run(env, s1, mix);
    let e = launch::run(env, s2, feed);
    let x = |i: int| hidden_of(env, ctx, s0, tokens, caches, il as nat, i);
    let h = |i: int| decode_laws::mixer_in(ctx, il, x(i));
    let m = |i: int| decode_laws::mixed(env, ctx, input_of(s0, caches, i), il, h(i));
    assert(s[Buf::X] =~= per_seq(b as nat, x));
    assert(ctx.layers@[il] == ctx.layers@[il]);
    lemma_rows_in(env, ctx, s, il, b, h);
    assert forall|i: int| #![trigger caches[i]] 0 <= i < b implies ctx.kv_ready(caches[i].kv@)
        && decode_laws::fresh(ctx, input_of(s0, caches, i), s1, il)
        && decode_laws::layer_consistent(
        env,
        ctx,
        caches[i].kv@[il],
        Counting::Host,
        input_of(s0, caches, i),
        il,
    ) by {
        assert(decode_laws::consistent(
            env,
            ctx,
            caches[i].kv@,
            Counting::Host,
            input_of(s0, caches, i),
        ));
        assert(decode_laws::progress(
            env,
            ctx,
            input_of(s0, caches, i),
            Counting::Host,
            decode_laws::embedded(tokens[i]),
            s,
            il,
        ));
        assert(decode_laws::fresh(ctx, input_of(s0, caches, i), s, il));
    }
    assert(ctx.kv_ready(caches[0].kv@));
    lemma_rows_mixer(env, ctx, s1, s0, caches, il, b, h);
    assert(s2[Buf::X] == s1[Buf::X]);
    assert(s2[Buf::Mixed] =~= per_seq(b as nat, m));
    lemma_rows_ffn(env, ctx, s2, il, b, x, m);
    assert(e[Buf::X] =~= per_seq(
        caches.len(),
        |i: int| hidden_of(env, ctx, s0, tokens, caches, (il + 1) as nat, i),
    ));
    assert forall|i: int| #![trigger caches[i]] 0 <= i < caches.len() implies
        decode_laws::progress(
        env,
        ctx,
        input_of(s0, caches, i),
        Counting::Host,
        decode_laws::embedded(tokens[i]),
        e,
        il + 1,
    ) by {
        lemma_seq_progress(env, ctx, s0, tokens, caches, s, s2, e, il, i);
    }
}

proof fn lemma_seq_progress(
    env: launch::Env,
    ctx: StepContext,
    s0: launch::Store,
    tokens: Seq<u32>,
    caches: Seq<StepCache>,
    s: launch::Store,
    s2: launch::Store,
    e: launch::Store,
    il: int,
    i: int,
)
    requires
        0 <= i < caches.len() <= usize::MAX,
        0 <= il < ctx.layers@.len() <= usize::MAX,
        decode_laws::progress(
            env,
            ctx,
            input_of(s0, caches, i),
            Counting::Host,
            decode_laws::embedded(tokens[i]),
            s,
            il,
        ),
        decode_laws::advanced(
            env,
            ctx,
            input_of(s0, caches, i),
            Counting::Host,
            s2,
            il,
            decode_laws::mixer_in(
                ctx,
                il,
                hidden_of(env, ctx, s0, tokens, caches, il as nat, i),
            ),
        ),
        forall|x: Buf|
            batch_foreign(il, x) && decode_laws::is_state(x) ==> #[trigger] s2[x] == s[x],
        forall|x: Buf| decode_laws::is_state(x) ==> #[trigger] e[x] == s2[x],
    ensures
        decode_laws::progress(
            env,
            ctx,
            input_of(s0, caches, i),
            Counting::Host,
            decode_laws::embedded(tokens[i]),
            e,
            il + 1,
        ),
{
    let inp = input_of(s0, caches, i);
    let x0 = decode_laws::embedded(tokens[i]);
    let sq = i as usize;
    assert forall|j: int| #![trigger ctx.layers@[j]] 0 <= j < ctx.layers@.len() && j != il implies {
        let layer = j as usize;
        &&& e[Buf::KCache { seq: sq, layer }] == s[Buf::KCache { seq: sq, layer }]
        &&& e[Buf::VCache { seq: sq, layer }] == s[Buf::VCache { seq: sq, layer }]
        &&& e[Buf::Len { seq: sq, layer }] == s[Buf::Len { seq: sq, layer }]
        &&& e[Buf::Conv { seq: sq, layer }] == s[Buf::Conv { seq: sq, layer }]
        &&& e[Buf::Ssm { seq: sq, layer }] == s[Buf::Ssm { seq: sq, layer }]
    } by {
        let layer = j as usize;
        assert(e[Buf::KCache { seq: sq, layer }] == s2[Buf::KCache { seq: sq, layer }]);
        assert(e[Buf::VCache { seq: sq, layer }] == s2[Buf::VCache { seq: sq, layer }]);
        assert(e[Buf::Len { seq: sq, layer }] == s2[Buf::Len { seq: sq, layer }]);
        assert(e[Buf::Conv { seq: sq, layer }] == s2[Buf::Conv { seq: sq, layer }]);
        assert(e[Buf::Ssm { seq: sq, layer }] == s2[Buf::Ssm { seq: sq, layer }]);
    }
    let layer = il as usize;
    assert(e[Buf::KCache { seq: sq, layer }] == s2[Buf::KCache { seq: sq, layer }]);
    assert(e[Buf::VCache { seq: sq, layer }] == s2[Buf::VCache { seq: sq, layer }]);
    assert(e[Buf::Len { seq: sq, layer }] == s2[Buf::Len { seq: sq, layer }]);
    assert(e[Buf::Conv { seq: sq, layer }] == s2[Buf::Conv { seq: sq, layer }]);
    assert(e[Buf::Ssm { seq: sq, layer }] == s2[Buf::Ssm { seq: sq, layer }]);
}

proof fn lemma_batch_layers(
    env: launch::Env,
    ctx: StepContext,
    s0: launch::Store,
    tokens: Seq<u32>,
    caches: Seq<StepCache>,
    s: launch::Store,
    n: nat,
)
    requires
        batch_consistent(env, ctx, s0, caches),
        n <= ctx.layers@.len() <= usize::MAX,
        batch_progress(env, ctx, s0, tokens, caches, s, 0),
    ensures
        batch_progress(
            env,
            ctx,
            s0,
            tokens,
            caches,
            launch::run(env, s, batch::layers_ops(ctx, caches, caches.len() as usize, n)),
            n,
        ),
    decreases n,
{
    if n > 0 {
        let il = n - 1;
        let b = caches.len() as usize;
        lemma_batch_layers(env, ctx, s0, tokens, caches, s, il as nat);
        let before = batch::layers_ops(ctx, caches, b, il as nat);
        let body = batch::rows_in_ops(ctx, il, b) + batch::rows_mixer_ops(ctx, caches, il, b)
            + batch::rows_ffn_ops(ctx, il, b);
        launch::lemma_run_concat(env, s, before, body);
        lemma_batch_layer(env, ctx, s0, tokens, caches, launch::run(env, s, before), il);
    }
}

proof fn lemma_batch_input(
    env: launch::Env,
    s: launch::Store,
    tokens: Seq<u32>,
    caches: Seq<StepCache>,
    dim: usize,
    m: nat,
)
    requires
        m <= tokens.len() == caches.len(),
        caches.len() <= usize::MAX,
        s[Buf::X].len() == caches.len(),
        s[Buf::Pos].len() == caches.len(),
    ensures
        ({
            let e = launch::run(env, s, batch::input_ops(tokens, caches, dim, m));
            &&& e[Buf::X].len() == caches.len()
            &&& e[Buf::Pos].len() == caches.len()
            &&& forall|i: int|
                0 <= i < m ==> #[trigger] e[Buf::X][i] == decode_laws::embedded(tokens[i])
            &&& forall|i: int|
                0 <= i < m ==> #[trigger] e[Buf::Pos][i] == launch::Term::Int(
                    caches[i].pos as int,
                )
            &&& forall|q: Buf| decode_laws::is_state(q) ==> #[trigger] e[q] == s[q]
        }),
    decreases m,
{
    if m > 0 {
        let i = m - 1;
        lemma_batch_input(env, s, tokens, caches, dim, i as nat);
        let before = batch::input_ops(tokens, caches, dim, i as nat);
        let a = Op::SetPos { row: i as usize, pos: caches[i].pos };
        let b = Op::EmbedHost { row: i as usize, token: tokens[i], dim };
        launch::lemma_run_concat(env, s, before, seq![a, b]);
        let s1 = launch::run(env, s, before);
        launch::lemma_run2(env, s1, a, b);
        reveal(launch::step);
    }
}

proof fn lemma_batch_start(
    env: launch::Env,
    ctx: StepContext,
    s0: launch::Store,
    tokens: Seq<u32>,
    caches: Seq<StepCache>,
)
    requires
        tokens.len() == caches.len(),
        batch_consistent(env, ctx, s0, caches),
    ensures
        batch_progress(
            env,
            ctx,
            s0,
            tokens,
            caches,
            launch::run(
                env,
                s0,
                batch::start_ops(ctx, tokens, caches),
            ),
            0,
        ),
{
    let b = caches.len() as usize;
    let n = ctx.layers@.len();
    let dim = ctx.cfg.n_embd;
    let alloc = seq![
        Op::Alloc { dst: Buf::Pos, rows: b, dim: 1 },
        Op::Alloc { dst: Buf::X, rows: b, dim },
    ];
    let input = batch::input_ops(tokens, caches, dim, tokens.len());
    launch::lemma_run_concat(env, s0, alloc, input);
    let a = launch::run(env, s0, alloc);
    launch::lemma_run2(env, s0, alloc[0], alloc[1]);
    assert(a[Buf::X].len() == b && a[Buf::Pos].len() == b) by {
        reveal(launch::step);
    }
    assert forall|q: Buf| decode_laws::is_state(q) implies #[trigger] a[q] == s0[q] by {
        launch::lemma_run_frame(env, s0, alloc, q);
    }
    lemma_batch_input(env, a, tokens, caches, dim, tokens.len());
    let s1 = launch::run(env, a, input);
    assert(s1[Buf::X] =~= per_seq(
        caches.len(),
        |i: int| hidden_of(env, ctx, s0, tokens, caches, 0, i),
    ));
    assert(s1[Buf::Pos] =~= positions(caches));
    assert forall|i: int| #![trigger caches[i]] 0 <= i < caches.len() implies
        decode_laws::progress(
        env,
        ctx,
        input_of(s0, caches, i),
        Counting::Host,
        decode_laws::embedded(tokens[i]),
        s1,
        0,
    ) by {
        let inp = input_of(s0, caches, i);
        assert(decode_laws::consistent(env, ctx, caches[i].kv@, Counting::Host, inp));
        assert forall|il: int| #![trigger ctx.layers@[il]] 0 <= il < n implies decode_laws::fresh(
            ctx,
            inp,
            s1,
            il,
        ) by {
            assert(decode_laws::layer_consistent(
                env,
                ctx,
                caches[i].kv@[il],
                Counting::Host,
                inp,
                il,
            ));
            let layer = il as usize;
            let sq = i as usize;
            assert(s1[Buf::KCache { seq: sq, layer }] == s0[Buf::KCache { seq: sq, layer }]);
            assert(s1[Buf::VCache { seq: sq, layer }] == s0[Buf::VCache { seq: sq, layer }]);
            assert(s1[Buf::Len { seq: sq, layer }] == s0[Buf::Len { seq: sq, layer }]);
            assert(s1[Buf::Conv { seq: sq, layer }] == s0[Buf::Conv { seq: sq, layer }]);
            assert(s1[Buf::Ssm { seq: sq, layer }] == s0[Buf::Ssm { seq: sq, layer }]);
        }
    }
}

proof fn lemma_batch_end(
    env: launch::Env,
    ctx: StepContext,
    s0: launch::Store,
    tokens: Seq<u32>,
    caches: Seq<StepCache>,
    s: launch::Store,
)
    requires
        caches.len() <= usize::MAX,
        ctx.layers@.len() <= usize::MAX,
        batch_progress(env, ctx, s0, tokens, caches, s, ctx.layers@.len()),
    ensures
        ({
            let e = launch::run(env, s, batch::head_ops(ctx, caches.len() as usize));
            let n = ctx.layers@.len();
            &&& e[Buf::Logits] == per_seq(
                caches.len(),
                |i: int|
                    decode_laws::logits(
                        env,
                        ctx,
                        hidden_of(env, ctx, s0, tokens, caches, n, i),
                    ),
            )
            &&& forall|i: int|
                #![trigger caches[i]]
                0 <= i < caches.len() ==> decode_laws::progress(
                    env,
                    ctx,
                    input_of(s0, caches, i),
                    Counting::Host,
                    decode_laws::embedded(tokens[i]),
                    e,
                    n as int,
                )
        }),
{
    let n = ctx.layers@.len();
    let tail = batch::head_ops(ctx, caches.len() as usize);
    let e = launch::run(env, s, tail);
    launch::lemma_run2(env, s, tail[0], tail[1]);
    assert(tail =~= seq![tail[0], tail[1]]);
    let t = launch::step(env, s, tail[0]);
    let x = |i: int| hidden_of(env, ctx, s0, tokens, caches, n, i);
    assert(e[Buf::Logits] == per_seq(
        caches.len(),
        |i: int| decode_laws::logits(env, ctx, hidden_of(env, ctx, s0, tokens, caches, n, i)),
    )) by {
        reveal(launch::step);
        assert(t[Buf::Hn] =~= per_seq(
            caches.len(),
            |i: int| decode_laws::final_norm(ctx, x(i)),
        ));
        assert(e[Buf::Logits] =~= per_seq(
            caches.len(),
            |i: int| decode_laws::logits(env, ctx, hidden_of(env, ctx, s0, tokens, caches, n, i)),
        ));
    }
    assert forall|q: Buf| decode_laws::is_state(q) implies #[trigger] e[q] == s[q] by {
        launch::lemma_run_frame(env, s, tail, q);
    }
    assert forall|i: int| #![trigger caches[i]] 0 <= i < caches.len() implies
        decode_laws::progress(
        env,
        ctx,
        input_of(s0, caches, i),
        Counting::Host,
        decode_laws::embedded(tokens[i]),
        e,
        n as int,
    ) by {
        assert(decode_laws::progress(
            env,
            ctx,
            input_of(s0, caches, i),
            Counting::Host,
            decode_laws::embedded(tokens[i]),
            s,
            n as int,
        ));
        let sq = i as usize;
        assert forall|il: int| #![trigger ctx.layers@[il]] 0 <= il < n implies {
            let layer = il as usize;
            &&& e[Buf::KCache { seq: sq, layer }] == s[Buf::KCache { seq: sq, layer }]
            &&& e[Buf::VCache { seq: sq, layer }] == s[Buf::VCache { seq: sq, layer }]
            &&& e[Buf::Len { seq: sq, layer }] == s[Buf::Len { seq: sq, layer }]
            &&& e[Buf::Conv { seq: sq, layer }] == s[Buf::Conv { seq: sq, layer }]
            &&& e[Buf::Ssm { seq: sq, layer }] == s[Buf::Ssm { seq: sq, layer }]
        } by {}
    }
}

/// Batching changes nothing: row `i` of the logits is what a step of sequence `i` alone
/// computes, and its caches and states advance as by that step.
pub proof fn law_batch_step(
    env: launch::Env,
    ctx: StepContext,
    s0: launch::Store,
    tokens: Seq<u32>,
    caches: Seq<StepCache>,
)
    requires
        tokens.len() == caches.len(),
        batch_consistent(env, ctx, s0, caches),
    ensures
        ({
            let e = launch::run(env, s0, batch::batch_ops(ctx, tokens, caches));
            let n = ctx.layers@.len();
            &&& e[Buf::Logits] == per_seq(
                caches.len(),
                |i: int|
                    decode_laws::logits(
                        env,
                        ctx,
                        hidden_of(env, ctx, s0, tokens, caches, n, i),
                    ),
            )
            &&& forall|i: int|
                #![trigger caches[i]]
                0 <= i < caches.len() ==> decode_laws::progress(
                    env,
                    ctx,
                    input_of(s0, caches, i),
                    Counting::Host,
                    decode_laws::embedded(tokens[i]),
                    e,
                    n as int,
                )
        }),
{
    let b = caches.len() as usize;
    let start = batch::start_ops(ctx, tokens, caches);
    let body = batch::layers_ops(ctx, caches, b, ctx.layers@.len());
    let tail = batch::head_ops(ctx, b);
    launch::lemma_run_concat(env, s0, start, body);
    launch::lemma_run_concat(env, s0, start + body, tail);
    assert(decode_laws::consistent(
        env,
        ctx,
        caches[0].kv@,
        Counting::Host,
        input_of(s0, caches, 0),
    ));
    lemma_batch_start(env, ctx, s0, tokens, caches);
    let s1 = launch::run(env, s0, start);
    lemma_batch_layers(env, ctx, s0, tokens, caches, s1, ctx.layers@.len());
    lemma_batch_end(env, ctx, s0, tokens, caches, launch::run(env, s1, body));
}

} // verus!
