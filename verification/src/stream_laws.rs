//! Whole streams: decoding with counters on the device, by replay or not, and decoding in batches
//! emit what plain decoding emits.

use vstd::prelude::*;

use crate::attention;
use crate::attention::KvMeta;
use crate::batch;
use crate::batch_laws;
use crate::capture_laws;
use crate::config::{Ffn, Mixer};
use crate::decode_laws;
use crate::decode_laws::StepInput;
use crate::decode_plan;
use crate::decode_plan::{Counting, StepCache, StepContext};
use crate::ffn;
use crate::graph;
use crate::graph::{BucketKey, GraphEntry};
use crate::greedy;
use crate::launch;
use crate::launch::Buf;
use crate::recurrent;

verus! {

/// A sequence under way: the device's buffers, and caches and position as the host tracks them.
pub ghost struct Walk {
    pub s: launch::Store,
    pub kv: Seq<Option<KvMeta>>,
    pub pos: usize,
}

/// The logits after the last token.
pub open spec fn last_logits(w: Walk) -> launch::Term {
    launch::one(w.s, Buf::Logits)
}

/// A plain step feeds `token`.
pub open spec fn feed(env: launch::Env, ctx: StepContext, w: Walk, token: u32) -> Walk {
    Walk {
        s: launch::run(env, w.s, decode_plan::step_h_ops(ctx, w.kv, w.pos, token, false)),
        kv: decode_plan::all_kv_after(Counting::Host, w.kv),
        pos: (w.pos + 1) as usize,
    }
}

/// Plain steps feed `tokens`.
pub open spec fn fed(env: launch::Env, ctx: StepContext, w: Walk, tokens: Seq<u32>) -> Walk
    decreases tokens.len(),
{
    if tokens.len() == 0 {
        w
    } else {
        feed(env, ctx, fed(env, ctx, w, tokens.drop_last()), tokens.last())
    }
}

/// The next token after some, when `pick` chooses from the logits.
pub open spec fn next_token(
    env: launch::Env,
    ctx: StepContext,
    pick: spec_fn(launch::Term) -> u32,
    w: Walk,
) -> spec_fn(Seq<u32>) -> u32 {
    |tokens: Seq<u32>| pick(last_logits(fed(env, ctx, w, tokens)))
}

/// A plan with counters on the device, and the caches that it was made for.
pub ghost struct Counted {
    pub mode: Counting,
    pub made: Seq<Option<KvMeta>>,
}

/// A step with counters on the device. The token counter holds `token`: set by the host, or left
/// there by the step before.
pub open spec fn counted_feed(
    env: launch::Env,
    ctx: StepContext,
    n_vocab: usize,
    c: Counted,
    w: Walk,
    token: u32,
) -> Walk {
    Walk {
        s: launch::run(
            env,
            w.s.insert(Buf::Token, seq![launch::Term::Int(token as int)]),
            decode_plan::step_counted_ops(ctx, c.made, c.mode, n_vocab),
        ),
        kv: decode_plan::all_kv_after(Counting::Host, w.kv),
        pos: (w.pos + 1) as usize,
    }
}

/// Steps with counters on the device feed `tokens`.
pub open spec fn counted_fed(
    env: launch::Env,
    ctx: StepContext,
    n_vocab: usize,
    cs: Seq<Counted>,
    w: Walk,
    tokens: Seq<u32>,
) -> Walk
    decreases tokens.len(),
{
    if tokens.len() == 0 {
        w
    } else {
        counted_feed(
            env,
            ctx,
            n_vocab,
            cs[tokens.len() - 1],
            counted_fed(env, ctx, n_vocab, cs, w, tokens.drop_last()),
            tokens.last(),
        )
    }
}

/// The caches lie in the same buffers.
pub open spec fn same_buffers(a: Seq<Option<KvMeta>>, b: Seq<Option<KvMeta>>) -> bool {
    &&& a.len() == b.len()
    &&& forall|il: int|
        0 <= il < a.len() ==> match (#[trigger] a[il], b[il]) {
            (Some(x), Some(y)) => x.k_bytes == y.k_bytes && x.v_bytes == y.v_bytes,
            (None, None) => true,
            _ => false,
        }
}

/// The plan may run next: it was made for these caches, or captured for these buffers at a length
/// with the attention geometry of the length to come.
pub open spec fn usable(env: launch::Env, ctx: StepContext, c: Counted, w: Walk) -> bool {
    &&& ctx.kv_ready(w.kv)
    &&& w.pos < usize::MAX
    &&& match c.mode {
        Counting::Host => false,
        Counting::Device => c.made == w.kv,
        Counting::Captured(b) => {
            &&& same_buffers(c.made, w.kv)
            &&& forall|il: int|
                #![trigger ctx.layers@[il]]
                0 <= il < ctx.layers@.len() && ctx.layers@[il].mixer is Full ==> (env.geometry)(
                    b as int,
                ) == (env.geometry)(w.kv[il]->0.len + 1)
        },
    }
}

/// Every plan may run where it runs.
pub open spec fn usable_run(
    env: launch::Env,
    ctx: StepContext,
    n_vocab: usize,
    cs: Seq<Counted>,
    w: Walk,
    tokens: Seq<u32>,
) -> bool
    decreases tokens.len(),
{
    tokens.len() > 0 ==> {
        &&& usable_run(env, ctx, n_vocab, cs, w, tokens.drop_last())
        &&& tokens.len() <= cs.len()
        &&& usable(
            env,
            ctx,
            cs[tokens.len() - 1],
            counted_fed(env, ctx, n_vocab, cs, w, tokens.drop_last()),
        )
    }
}

/// The model's flags describe its weights, and every layer can be planned.
pub open spec fn described(env: launch::Env, ctx: StepContext) -> bool {
    &&& ctx.first_obstacle(ctx.layers@.len()) is None
    &&& ctx.layers@.len() <= usize::MAX
    &&& forall|il: int|
        #![trigger ctx.layers@[il]]
        0 <= il < ctx.layers@.len() ==> layer_described(env, ctx, il)
}

pub open spec fn layer_described(env: launch::Env, ctx: StepContext, il: int) -> bool {
    let layer = ctx.layers@[il];
    let i = il as usize;
    &&& match layer.ffn {
        Ffn::Dense { ffn_gate, ffn_up, ffn_down } => ffn::ffn_flags(
            env,
            i,
            ffn_gate,
            ffn_up,
            ffn_down,
        ),
        Ffn::Moe => true,
    }
    &&& match layer.mixer {
        Mixer::Full(fa) => attention::attn_flags(env, i, fa),
        Mixer::Linear(la) => recurrent::linear_flags(env, i, la, layer.kernels),
    }
}

/// A plain walk and one with counters on the device are at the same point.
pub open spec fn in_step(ctx: StepContext, p: Walk, d: Walk) -> bool {
    &&& p.kv == d.kv
    &&& p.pos == d.pos
    &&& d.s[Buf::Pos] == seq![launch::Term::Int(d.pos as int)]
    &&& forall|il: int|
        #![trigger ctx.layers@[il]]
        0 <= il < ctx.layers@.len() ==> layer_in_step(ctx, p, d, il)
}

/// The layer's cache rows and states are the same, and its counter holds the host's length. What
/// stands in a cache beyond that length does not matter.
pub open spec fn layer_in_step(ctx: StepContext, p: Walk, d: Walk, il: int) -> bool {
    let layer = il as usize;
    match ctx.layers@[il].mixer {
        Mixer::Full(_) => {
            let (k, v) = (Buf::KCache { seq: 0, layer }, Buf::VCache { seq: 0, layer });
            let len = d.kv[il]->0.len as int;
            &&& launch::same_rows(launch::one(p.s, k), launch::one(d.s, k), len)
            &&& launch::same_rows(launch::one(p.s, v), launch::one(d.s, v), len)
            &&& p.s[k].len() == 1 && d.s[k].len() == 1
            &&& p.s[v].len() == 1 && d.s[v].len() == 1
            &&& d.s[Buf::Len { seq: 0, layer }] == seq![
                launch::Term::Int(d.kv[il]->0.len as int),
            ]
        },
        Mixer::Linear(_) => {
            &&& p.s[Buf::Conv { seq: 0, layer }] == d.s[Buf::Conv { seq: 0, layer }]
            &&& p.s[Buf::Ssm { seq: 0, layer }] == d.s[Buf::Ssm { seq: 0, layer }]
            &&& d.s[Buf::Conv { seq: 0, layer }].len() == 1
            &&& d.s[Buf::Ssm { seq: 0, layer }].len() == 1
        },
    }
}

/// What the step of a walk depends on.
spec fn input(w: Walk) -> StepInput {
    StepInput {
        s0: w.s,
        seq: 0,
        lens: Seq::new(
            w.kv.len(),
            |il: int|
                match w.kv[il] {
                    Some(m) => m.len as int,
                    None => 0,
                },
        ),
        pos: launch::Term::Int(w.pos as int),
    }
}

proof fn lemma_consistent_plain(env: launch::Env, ctx: StepContext, p: Walk, d: Walk)
    requires
        described(env, ctx),
        in_step(ctx, p, d),
        ctx.kv_ready(p.kv),
    ensures
        decode_laws::consistent(env, ctx, p.kv, Counting::Host, input(p)),
{
    assert forall|il: int|
        #![trigger ctx.layers@[il]]
        0 <= il < ctx.layers@.len() implies decode_laws::layer_consistent(
        env,
        ctx,
        p.kv[il],
        Counting::Host,
        input(p),
        il,
    ) by {
        assert(layer_described(env, ctx, il));
        assert(layer_in_step(ctx, p, d, il));
        lemma_fresh(ctx, p, il);
    }
}

proof fn lemma_fresh(ctx: StepContext, w: Walk, il: int)
    requires
        0 <= il < ctx.layers@.len(),
        match ctx.layers@[il].mixer {
            Mixer::Full(_) => w.s[Buf::KCache { seq: 0, layer: il as usize }].len() == 1
                && w.s[Buf::VCache { seq: 0, layer: il as usize }].len() == 1,
            Mixer::Linear(_) => w.s[Buf::Conv { seq: 0, layer: il as usize }].len() == 1
                && w.s[Buf::Ssm { seq: 0, layer: il as usize }].len() == 1,
        },
    ensures
        decode_laws::fresh(ctx, input(w), w.s, il),
{
    let layer = il as usize;
    let i = input(w);
    match ctx.layers@[il].mixer {
        Mixer::Full(_) => {
            assert(w.s[Buf::KCache { seq: 0, layer }] =~= seq![decode_laws::k_cache(i, il)]);
            assert(w.s[Buf::VCache { seq: 0, layer }] =~= seq![decode_laws::v_cache(i, il)]);
        },
        Mixer::Linear(_) => {
            assert(w.s[Buf::Conv { seq: 0, layer }] =~= seq![decode_laws::conv_ring(i, il)]);
            assert(w.s[Buf::Ssm { seq: 0, layer }] =~= seq![decode_laws::ssm_state(i, il)]);
        },
    }
}

proof fn lemma_consistent_counted(
    env: launch::Env,
    ctx: StepContext,
    c: Counted,
    p: Walk,
    d: Walk,
)
    requires
        described(env, ctx),
        in_step(ctx, p, d),
        usable(env, ctx, c, d),
    ensures
        decode_laws::consistent(env, ctx, d.kv, c.mode, input(d)),
{
    assert forall|il: int|
        #![trigger ctx.layers@[il]]
        0 <= il < ctx.layers@.len() implies decode_laws::layer_consistent(
        env,
        ctx,
        d.kv[il],
        c.mode,
        input(d),
        il,
    ) by {
        assert(layer_described(env, ctx, il));
        assert(layer_in_step(ctx, p, d, il));
        lemma_fresh(ctx, d, il);
    }
}

/// A captured plan fits all lengths in the same buffers.
proof fn lemma_captured_chain(
    ctx: StepContext,
    a: Seq<Option<KvMeta>>,
    b: Seq<Option<KvMeta>>,
    bucket: usize,
    n: nat,
)
    requires
        same_buffers(a, b),
        n <= a.len(),
    ensures
        decode_plan::chain_ops(ctx, a, Counting::Captured(bucket), Seq::empty(), n)
            == decode_plan::chain_ops(ctx, b, Counting::Captured(bucket), Seq::empty(), n),
    decreases n,
{
    if n > 0 {
        lemma_captured_chain(ctx, a, b, bucket, (n - 1) as nat);
        let il = n - 1;
        assert(match (a[il], b[il]) {
            (Some(x), Some(y)) => x.k_bytes == y.k_bytes && x.v_bytes == y.v_bytes,
            (None, None) => true,
            _ => false,
        });
    }
}

/// Steps read the same caches, states and position.
spec fn alike(ctx: StepContext, a: StepInput, b: StepInput) -> bool {
    &&& a.pos == b.pos
    &&& forall|il: int|
        #![trigger ctx.layers@[il]]
        0 <= il < ctx.layers@.len() ==> match ctx.layers@[il].mixer {
            Mixer::Full(_) => launch::same_rows(
                decode_laws::k_cache(a, il),
                decode_laws::k_cache(b, il),
                a.lens[il],
            ) && launch::same_rows(
                decode_laws::v_cache(a, il),
                decode_laws::v_cache(b, il),
                a.lens[il],
            ) && a.lens[il] == b.lens[il],
            Mixer::Linear(_) => decode_laws::conv_ring(a, il) == decode_laws::conv_ring(b, il)
                && decode_laws::ssm_state(a, il) == decode_laws::ssm_state(b, il),
        }
}

/// Such steps make the same hidden states.
proof fn lemma_hidden_same(
    env: launch::Env,
    ctx: StepContext,
    a: StepInput,
    b: StepInput,
    x0: launch::Term,
    n: nat,
)
    requires
        alike(ctx, a, b),
        n <= ctx.layers@.len(),
    ensures
        decode_laws::hidden(env, ctx, a, x0, n) == decode_laws::hidden(env, ctx, b, x0, n),
    decreases n,
{
    if n > 0 {
        let il = n - 1;
        lemma_hidden_same(env, ctx, a, b, x0, il as nat);
        let h = decode_laws::mixer_in(ctx, il, decode_laws::hidden(env, ctx, a, x0, il as nat));
        match ctx.layers@[il].mixer {
            Mixer::Full(_) => {
                launch::lemma_append_same(
                    decode_laws::k_cache(a, il),
                    decode_laws::k_cache(b, il),
                    attention::key_term(env, ctx.cfg, il as usize, h, a.pos),
                    a.lens[il],
                );
                launch::lemma_append_same(
                    decode_laws::v_cache(a, il),
                    decode_laws::v_cache(b, il),
                    attention::value_term(env, il as usize, h),
                    a.lens[il],
                );
            },
            Mixer::Linear(_) => {},
        }
    }
}

proof fn lemma_step(
    env: launch::Env,
    ctx: StepContext,
    n_vocab: usize,
    c: Counted,
    p: Walk,
    d: Walk,
    token: u32,
)
    requires
        described(env, ctx),
        in_step(ctx, p, d),
        usable(env, ctx, c, d),
    ensures
        ({
            let p1 = feed(env, ctx, p, token);
            let d1 = counted_feed(env, ctx, n_vocab, c, d, token);
            &&& in_step(ctx, p1, d1)
            &&& last_logits(p1) == last_logits(d1)
            &&& d1.s[Buf::Token] == seq![launch::un(launch::Fun::Argmax, last_logits(d1))]
        }),
{
    let n = ctx.layers@.len();
    let x0 = decode_laws::embedded(token);
    let set = Walk { s: d.s.insert(Buf::Token, seq![launch::Term::Int(token as int)]), ..d };
    assert(in_step(ctx, p, set)) by {
        assert forall|il: int|
            #![trigger ctx.layers@[il]]
            0 <= il < n implies layer_in_step(ctx, p, set, il) by {
            assert(layer_in_step(ctx, p, d, il));
        }
    }
    assert(usable(env, ctx, c, set));
    lemma_consistent_plain(env, ctx, p, set);
    lemma_consistent_counted(env, ctx, c, p, set);
    decode_laws::law_step_h(env, ctx, p.kv, input(p), p.pos, token, false);
    decode_laws::law_step_counted(
        env,
        ctx,
        set.kv,
        c.mode,
        input(set),
        n_vocab,
        set.pos as int,
        token,
    );
    match c.mode {
        Counting::Captured(b) => {
            lemma_captured_chain(ctx, c.made, set.kv, b, n);
        },
        _ => {},
    }
    let p1 = feed(env, ctx, p, token);
    let d1 = counted_feed(env, ctx, n_vocab, c, d, token);
    assert(d1.s == launch::run(
        env,
        set.s,
        decode_plan::step_counted_ops(ctx, set.kv, c.mode, n_vocab),
    ));
    assert(alike(ctx, input(p), input(set))) by {
        assert forall|il: int|
            #![trigger ctx.layers@[il]]
            0 <= il < n implies layer_in_step(ctx, p, set, il) by {}
    }
    lemma_hidden_same(env, ctx, input(p), input(set), x0, n);
    assert forall|il: int|
        #![trigger ctx.layers@[il]]
        0 <= il < n implies layer_in_step(ctx, p1, d1, il) by {
        lemma_hidden_same(env, ctx, input(p), input(set), x0, il as nat);
        assert(layer_in_step(ctx, p, set, il));
        let h = decode_laws::mixer_in(
            ctx,
            il,
            decode_laws::hidden(env, ctx, input(p), x0, il as nat),
        );
        assert(decode_laws::advanced(env, ctx, input(p), Counting::Host, p1.s, il, h));
        assert(decode_laws::advanced(env, ctx, input(set), c.mode, d1.s, il, h));
        match ctx.layers@[il].mixer {
            Mixer::Full(_) => {
                launch::lemma_append_same(
                    decode_laws::k_cache(input(p), il),
                    decode_laws::k_cache(input(set), il),
                    attention::key_term(env, ctx.cfg, il as usize, h, input(p).pos),
                    input(p).lens[il],
                );
                launch::lemma_append_same(
                    decode_laws::v_cache(input(p), il),
                    decode_laws::v_cache(input(set), il),
                    attention::value_term(env, il as usize, h),
                    input(p).lens[il],
                );
            },
            Mixer::Linear(_) => {},
        }
    }
}

/// Decoding with counters on the device leaves the logits that plain decoding leaves, whichever
/// of its steps are replayed from captured plans; every step leaves the place of the largest
/// logit in the token counter.
pub proof fn law_counted_decoding(
    env: launch::Env,
    ctx: StepContext,
    n_vocab: usize,
    cs: Seq<Counted>,
    p: Walk,
    d: Walk,
    tokens: Seq<u32>,
)
    requires
        described(env, ctx),
        in_step(ctx, p, d),
        usable_run(env, ctx, n_vocab, cs, d, tokens),
    ensures
        ({
            let p1 = fed(env, ctx, p, tokens);
            let d1 = counted_fed(env, ctx, n_vocab, cs, d, tokens);
            &&& in_step(ctx, p1, d1)
            &&& tokens.len() > 0 ==> {
                &&& last_logits(p1) == last_logits(d1)
                &&& d1.s[Buf::Token] == seq![launch::un(launch::Fun::Argmax, last_logits(d1))]
            }
        }),
    decreases tokens.len(),
{
    if tokens.len() > 0 {
        let t = tokens.drop_last();
        law_counted_decoding(env, ctx, n_vocab, cs, p, d, t);
        lemma_step(
            env,
            ctx,
            n_vocab,
            cs[tokens.len() - 1],
            fed(env, ctx, p, t),
            counted_fed(env, ctx, n_vocab, cs, d, t),
            tokens.last(),
        );
    }
}

/// The caches after `k` more rows.
pub open spec fn later(kv: Seq<Option<KvMeta>>, k: nat) -> Seq<Option<KvMeta>> {
    Seq::new(
        kv.len(),
        |il: int|
            match kv[il] {
                Some(m) => Some(KvMeta { len: (m.len + k) as usize, ..m }),
                None => None,
            },
    )
}

/// Every cache holds the rows of all tokens so far, and has room for `n` more; the device counts
/// them in 32 bits.
pub open spec fn room_for(ctx: StepContext, w: Walk, n: nat) -> bool {
    &&& w.pos + n <= i32::MAX
    &&& forall|k: nat| k < n ==> ctx.kv_ready(#[trigger] later(w.kv, k))
    &&& forall|il: int|
        0 <= il < w.kv.len() ==> (#[trigger] w.kv[il] matches Some(m) ==> m.len == w.pos)
}

proof fn lemma_room(
    env: launch::Env,
    ctx: StepContext,
    n_vocab: usize,
    c: Counted,
    w: Walk,
    token: u32,
    n: nat,
)
    requires
        n > 0,
        room_for(ctx, w, n),
    ensures
        ctx.kv_ready(w.kv),
        room_for(ctx, counted_feed(env, ctx, n_vocab, c, w, token), (n - 1) as nat),
        same_buffers(w.kv, counted_feed(env, ctx, n_vocab, c, w, token).kv),
{
    let w1 = counted_feed(env, ctx, n_vocab, c, w, token);
    assert(later(w.kv, 0) =~= w.kv);
    assert forall|k: nat| k < n - 1 implies ctx.kv_ready(#[trigger] later(w1.kv, k)) by {
        assert(later(w1.kv, k) =~= later(w.kv, k + 1)) by {
            assert forall|il: int| 0 <= il < w.kv.len() implies later(w1.kv, k)[il] == later(
                w.kv,
                k + 1,
            )[il] by {
                match w.kv[il] {
                    Some(m) => {
                        assert(m.len == w.pos);
                    },
                    None => {},
                }
            }
        }
    }
    assert forall|il: int| 0 <= il < w1.kv.len() implies (#[trigger] w1.kv[il] matches Some(m)
        ==> m.len == w1.pos) by {
        assert(w.kv[il] matches Some(m) ==> m.len == w.pos);
    }
}

/// Steps with counters on the device feed `tokens`, each planned for the caches as they are.
pub open spec fn device_fed(
    env: launch::Env,
    ctx: StepContext,
    n_vocab: usize,
    w: Walk,
    tokens: Seq<u32>,
) -> Walk
    decreases tokens.len(),
{
    if tokens.len() == 0 {
        w
    } else {
        let v = device_fed(env, ctx, n_vocab, w, tokens.drop_last());
        counted_feed(
            env,
            ctx,
            n_vocab,
            Counted { mode: Counting::Device, made: v.kv },
            v,
            tokens.last(),
        )
    }
}

proof fn lemma_primed(
    env: launch::Env,
    ctx: StepContext,
    n_vocab: usize,
    p: Walk,
    d: Walk,
    tokens: Seq<u32>,
    n: nat,
)
    requires
        described(env, ctx),
        in_step(ctx, p, d),
        room_for(ctx, d, tokens.len() + n),
    ensures
        ({
            let p1 = fed(env, ctx, p, tokens);
            let d1 = device_fed(env, ctx, n_vocab, d, tokens);
            &&& in_step(ctx, p1, d1)
            &&& room_for(ctx, d1, n)
            &&& tokens.len() > 0 ==> last_logits(p1) == last_logits(d1)
        }),
    decreases tokens.len(),
{
    if tokens.len() > 0 {
        let t = tokens.drop_last();
        lemma_primed(env, ctx, n_vocab, p, d, t, n + 1);
        let v = device_fed(env, ctx, n_vocab, d, t);
        let c = Counted { mode: Counting::Device, made: v.kv };
        lemma_room(env, ctx, n_vocab, c, v, tokens.last(), n + 1);
        lemma_step(env, ctx, n_vocab, c, fed(env, ctx, p, t), v, tokens.last());
    }
}

/// A walk by replay: the captured steps, and the caches at which each was captured.
pub ghost struct Replay {
    pub w: Walk,
    pub entries: Seq<GraphEntry>,
    pub made: Seq<Seq<Option<KvMeta>>>,
}

/// A capture of the step to come, which is to feed `token`, at the length to come. It runs the
/// step `times` times and puts the state back.
pub open spec fn captured(
    env: launch::Env,
    ctx: StepContext,
    n_vocab: usize,
    times: nat,
    w: Walk,
    token: u32,
) -> Walk {
    Walk {
        s: capture_laws::after_capture(
            env,
            ctx,
            n_vocab,
            w.kv,
            w.pos,
            token,
            (w.pos + 1) as usize,
            times,
            w.s.insert(Buf::Token, seq![launch::Term::Int(token as int)]),
        ),
        ..w
    }
}

proof fn lemma_captured_in_step(
    env: launch::Env,
    ctx: StepContext,
    n_vocab: usize,
    times: nat,
    p: Walk,
    d: Walk,
    token: u32,
)
    requires
        described(env, ctx),
        in_step(ctx, p, d),
        ctx.kv_ready(d.kv),
        room_for(ctx, d, 1),
    ensures
        in_step(ctx, p, captured(env, ctx, n_vocab, times, d, token)),
{
    let s = d.s.insert(Buf::Token, seq![launch::Term::Int(token as int)]);
    let bucket = (d.pos + 1) as usize;
    let c = captured(env, ctx, n_vocab, times, d, token);
    assert forall|il: int| 0 <= il < d.kv.len() implies (#[trigger] d.kv[il] matches Some(m) ==> {
        &&& m.len <= i32::MAX
        &&& s[Buf::KCache { seq: 0, layer: il as usize }].len() == 1
        &&& s[Buf::VCache { seq: 0, layer: il as usize }].len() == 1
        &&& s[Buf::Len { seq: 0, layer: il as usize }] == seq![launch::Term::Int(m.len as int)]
    }) by {
        if d.kv[il] is Some {
            assert(ctx.layers@[il].mixer is Full || ctx.layers@[il].mixer is Linear);
            assert(layer_in_step(ctx, p, d, il));
        }
    }
    capture_laws::law_capture_leaves_no_trace(
        env,
        ctx,
        n_vocab,
        d.kv,
        d.pos,
        token,
        bucket,
        times,
        s,
    );
    assert forall|il: int|
        #![trigger ctx.layers@[il]]
        0 <= il < ctx.layers@.len() implies layer_in_step(ctx, p, c, il) by {
        assert(layer_in_step(ctx, p, d, il));
        assert(capture_laws::layer_untouched(ctx, d.kv, s, c.s, il));
    }
}

/// The step for the key of the length to come is taken, captured now where it is not there yet,
/// and replayed. It feeds `token`.
pub open spec fn replayed(
    env: launch::Env,
    ctx: StepContext,
    n_vocab: usize,
    times: nat,
    key_of: spec_fn(int) -> BucketKey,
    r: Replay,
    token: u32,
) -> Replay {
    let t_kv = (r.w.pos + 1) as usize;
    let (entries, i) = graph::taken(r.entries, key_of(t_kv as int), t_kv);
    let fresh = entries.len() > r.entries.len();
    let (w, made) = if fresh {
        (captured(env, ctx, n_vocab, times, r.w, token), r.made.push(r.w.kv))
    } else {
        (r.w, r.made)
    };
    let c = Counted { mode: Counting::Captured(entries[i].bucket_max), made: made[i] };
    Replay { w: counted_feed(env, ctx, n_vocab, c, w, token), entries, made }
}

/// The walk after `n` replayed steps that feed `first` and then what each step leaves, and the
/// tokens that the steps leave.
pub open spec fn replay_stream(
    env: launch::Env,
    ctx: StepContext,
    n_vocab: usize,
    times: nat,
    key_of: spec_fn(int) -> BucketKey,
    pick: spec_fn(launch::Term) -> u32,
    r: Replay,
    first: u32,
    n: nat,
) -> (Replay, Seq<u32>)
    decreases n,
{
    if n == 0 {
        (r, Seq::empty())
    } else {
        let (q, out) = replay_stream(env, ctx, n_vocab, times, key_of, pick, r, first, (n - 1) as nat);
        let next = replayed(env, ctx, n_vocab, times, key_of, q, seq![first].add(out).last());
        (next, out.push(pick(last_logits(next.w))))
    }
}

/// What generation by replay returns: the prompt is fed with counters on the device, the token
/// picked after it is fed first, and the tokens that the `max_new` replayed steps leave come out.
pub open spec fn replay_generation(
    env: launch::Env,
    ctx: StepContext,
    n_vocab: usize,
    times: nat,
    key_of: spec_fn(int) -> BucketKey,
    pick: spec_fn(launch::Term) -> u32,
    d: Walk,
    prompt: Seq<u32>,
    max_new: nat,
) -> Seq<u32> {
    let w = device_fed(env, ctx, n_vocab, d, prompt);
    let r = Replay { w, entries: Seq::empty(), made: Seq::empty() };
    replay_stream(env, ctx, n_vocab, times, key_of, pick, r, pick(last_logits(w)), max_new).1
}

/// Lengths with the same key have the same attention geometry.
pub open spec fn key_fixes_geometry(
    env: launch::Env,
    key_of: spec_fn(int) -> BucketKey,
) -> bool {
    forall|a: int, b: int| #[trigger]
        key_of(a) == #[trigger] key_of(b) ==> (env.geometry)(a) == (env.geometry)(b)
}

/// Every captured step was captured at a length of its own key, for the caches of this walk.
pub open spec fn in_use(key_of: spec_fn(int) -> BucketKey, r: Replay) -> bool {
    &&& graph::keyed(r.entries, key_of)
    &&& r.made.len() == r.entries.len()
    &&& forall|i: int| 0 <= i < r.made.len() ==> same_buffers(#[trigger] r.made[i], r.w.kv)
}

/// The step that is taken may run where it runs, and the captured steps stay in use.
proof fn lemma_taken_is_usable(
    env: launch::Env,
    ctx: StepContext,
    n_vocab: usize,
    times: nat,
    key_of: spec_fn(int) -> BucketKey,
    r: Replay,
    token: u32,
    n: nat,
)
    requires
        key_fixes_geometry(env, key_of),
        in_use(key_of, r),
        n > 0,
        room_for(ctx, r.w, n),
    ensures
        ({
            let next = replayed(env, ctx, n_vocab, times, key_of, r, token);
            let t_kv = (r.w.pos + 1) as usize;
            let i = graph::taken(r.entries, key_of(t_kv as int), t_kv).1;
            let c = Counted {
                mode: Counting::Captured(next.entries[i].bucket_max),
                made: next.made[i],
            };
            let w = if next.entries.len() > r.entries.len() {
                captured(env, ctx, n_vocab, times, r.w, token)
            } else {
                r.w
            };
            &&& usable(env, ctx, c, w)
            &&& next.w == counted_feed(env, ctx, n_vocab, c, w, token)
            &&& in_use(key_of, next)
            &&& room_for(ctx, next.w, (n - 1) as nat)
        }),
{
    let t_kv = (r.w.pos + 1) as usize;
    let (entries, i) = graph::taken(r.entries, key_of(t_kv as int), t_kv);
    let next = replayed(env, ctx, n_vocab, times, key_of, r, token);
    let c = Counted { mode: Counting::Captured(entries[i].bucket_max), made: next.made[i] };
    graph::law_replay_keeps_geometry(r.entries, key_of, t_kv);
    let w = if next.entries.len() > r.entries.len() {
        captured(env, ctx, n_vocab, times, r.w, token)
    } else {
        r.w
    };
    assert(room_for(ctx, w, n));
    lemma_room(env, ctx, n_vocab, c, w, token, n);
    assert forall|j: int| 0 <= j < next.made.len() implies same_buffers(
        #[trigger] next.made[j],
        r.w.kv,
    ) && same_buffers(next.made[j], next.w.kv) by {
        if j < r.made.len() {
            assert(next.made[j] == r.made[j]);
            assert(same_buffers(r.made[j], r.w.kv));
        }
        assert forall|il: int| 0 <= il < next.w.kv.len() implies match (
            #[trigger] next.made[j][il],
            next.w.kv[il],
        ) {
            (Some(x), Some(y)) => x.k_bytes == y.k_bytes && x.v_bytes == y.v_bytes,
            (None, None) => true,
            _ => false,
        } by {
            assert(match (r.w.kv[il], next.w.kv[il]) {
                (Some(x), Some(y)) => x.k_bytes == y.k_bytes && x.v_bytes == y.v_bytes,
                (None, None) => true,
                _ => false,
            });
        }
    }
    assert(usable(env, ctx, c, w)) by {
        assert forall|il: int|
            #![trigger ctx.layers@[il]]
            0 <= il < ctx.layers@.len() && ctx.layers@[il].mixer is Full implies (env.geometry)(
            entries[i].bucket_max as int,
        ) == (env.geometry)(r.w.kv[il]->0.len + 1) by {
            assert(r.w.kv[il] is Some);
            assert(r.w.kv[il]->0.len == r.w.pos);
        }
    }
}

proof fn lemma_replay_stream(
    env: launch::Env,
    ctx: StepContext,
    n_vocab: usize,
    times: nat,
    key_of: spec_fn(int) -> BucketKey,
    pick: spec_fn(launch::Term) -> u32,
    p: Walk,
    r: Replay,
    prompt: Seq<u32>,
    first: u32,
    n: nat,
    more: nat,
)
    requires
        described(env, ctx),
        key_fixes_geometry(env, key_of),
        in_use(key_of, r),
        in_step(ctx, fed(env, ctx, p, prompt), r.w),
        room_for(ctx, r.w, n + more),
        first == next_token(env, ctx, pick, p)(prompt),
    ensures
        ({
            let (q, out) = replay_stream(env, ctx, n_vocab, times, key_of, pick, r, first, n);
            let all = seq![first].add(out);
            &&& out.len() == n
            &&& in_use(key_of, q)
            &&& room_for(ctx, q.w, more)
            &&& in_step(ctx, fed(env, ctx, p, prompt + all.drop_last()), q.w)
            &&& greedy::follows_greedily(next_token(env, ctx, pick, p), prompt, all)
        }),
    decreases n,
{
    let f = next_token(env, ctx, pick, p);
    let (q, out) = replay_stream(env, ctx, n_vocab, times, key_of, pick, r, first, n);
    let all = seq![first].add(out);
    if n == 0 {
        assert(prompt + all.drop_last() =~= prompt);
        assert forall|i: int| 0 <= i < all.len() implies #[trigger] all[i] == f(
            prompt + all.take(i),
        ) by {
            assert(prompt + all.take(0) =~= prompt);
        }
    } else {
        let m = (n - 1) as nat;
        lemma_replay_stream(env, ctx, n_vocab, times, key_of, pick, p, r, prompt, first, m, more + 1);
        let (q0, out0) = replay_stream(env, ctx, n_vocab, times, key_of, pick, r, first, m);
        let all0 = seq![first].add(out0);
        let token = all0.last();
        lemma_taken_is_usable(env, ctx, n_vocab, times, key_of, q0, token, more + 1);
        let t_kv = (q0.w.pos + 1) as usize;
        let i = graph::taken(q0.entries, key_of(t_kv as int), t_kv).1;
        let c = Counted { mode: Counting::Captured(q.entries[i].bucket_max), made: q.made[i] };
        let before = prompt + all0.drop_last();
        let w = if q.entries.len() > q0.entries.len() {
            assert(later(q0.w.kv, 0) =~= q0.w.kv);
            let pw = fed(env, ctx, p, before);
            lemma_captured_in_step(env, ctx, n_vocab, times, pw, q0.w, token);
            captured(env, ctx, n_vocab, times, q0.w, token)
        } else {
            q0.w
        };
        lemma_step(env, ctx, n_vocab, c, fed(env, ctx, p, before), w, token);
        assert((prompt + all0).drop_last() =~= before);
        assert((prompt + all0).last() == token);
        assert(all.drop_last() =~= all0);
        assert forall|j: int| 0 <= j < all.len() implies #[trigger] all[j] == f(
            prompt + all.take(j),
        ) by {
            if j < all0.len() {
                assert(all[j] == all0[j]);
                assert(all.take(j) =~= all0.take(j));
            } else {
                assert(all.take(j) =~= all0);
            }
        }
    }
}

/// Generation by replay emits the greedy stream of plain decoding, but for its first token, which
/// is fed back and not returned. Nothing has to be known of the captured steps: what a key finds,
/// or has captured, may run where it runs, and a capture leaves no trace, however often it runs
/// the step.
pub proof fn law_replayed_generation_is_greedy(
    env: launch::Env,
    ctx: StepContext,
    n_vocab: usize,
    times: nat,
    key_of: spec_fn(int) -> BucketKey,
    pick: spec_fn(launch::Term) -> u32,
    p: Walk,
    d: Walk,
    prompt: Seq<u32>,
    max_new: nat,
)
    requires
        described(env, ctx),
        key_fixes_geometry(env, key_of),
        in_step(ctx, p, d),
        prompt.len() > 0,
        room_for(ctx, d, prompt.len() + max_new),
    ensures
        replay_generation(env, ctx, n_vocab, times, key_of, pick, d, prompt, max_new)
            == greedy::greedy_stream(
            next_token(env, ctx, pick, p),
            prompt,
            max_new + 1,
        ).skip(1),
        replay_generation(env, ctx, n_vocab, times, key_of, pick, d, prompt, max_new).len() == max_new,
{
    let w = device_fed(env, ctx, n_vocab, d, prompt);
    let r = Replay { w, entries: Seq::empty(), made: Seq::empty() };
    let first = pick(last_logits(w));
    lemma_primed(env, ctx, n_vocab, p, d, prompt, max_new);
    lemma_replay_stream(env, ctx, n_vocab, times, key_of, pick, p, r, prompt, first, max_new, 0);
    let out = replay_stream(env, ctx, n_vocab, times, key_of, pick, r, first, max_new).1;
    let all = seq![first].add(out);
    greedy::law_greedy_stream_is_unique(next_token(env, ctx, pick, p), prompt, all);
    assert(all.skip(1) =~= out);
}

/// One step of a batch: a token per sequence, and the caches before the step.
pub ghost struct BatchStep {
    pub tokens: Seq<u32>,
    pub caches: Seq<StepCache>,
}

/// The buffers after `steps`.
pub open spec fn batch_run(
    env: launch::Env,
    ctx: StepContext,
    s: launch::Store,
    steps: Seq<BatchStep>,
) -> launch::Store
    decreases steps.len(),
{
    if steps.len() == 0 {
        s
    } else {
        launch::run(
            env,
            batch_run(env, ctx, s, steps.drop_last()),
            batch::batch_ops(ctx, steps.last().tokens, steps.last().caches),
        )
    }
}

/// The tokens that `steps` feed to sequence `i`.
pub open spec fn column(steps: Seq<BatchStep>, i: int) -> Seq<u32> {
    steps.map_values(|b: BatchStep| b.tokens[i])
}

/// The step can be planned: as many tokens as caches, not too many, and room in every cache.
pub open spec fn plannable(ctx: StepContext, b: BatchStep) -> bool {
    &&& 1 <= b.caches.len() <= batch::MAX_BATCH
    &&& b.tokens.len() == b.caches.len()
    &&& ctx.cfg.is_m3() ==> !batch::has_dense(ctx)
    &&& forall|i: int|
        #![trigger b.caches[i]]
        0 <= i < b.caches.len() ==> ctx.kv_ready(b.caches[i].kv@) && b.caches[i].pos < usize::MAX
}

/// The caches before `b` are those after `a`.
pub open spec fn linked(a: BatchStep, b: BatchStep) -> bool {
    &&& a.caches.len() == b.caches.len()
    &&& forall|i: int|
        #![trigger b.caches[i]]
        0 <= i < b.caches.len() ==> b.caches[i].pos == a.caches[i].pos + 1 && b.caches[i].kv@
            == decode_plan::all_kv_after(Counting::Host, a.caches[i].kv@)
}

/// Every step can be planned and follows the one before it.
pub open spec fn batched(ctx: StepContext, steps: Seq<BatchStep>) -> bool {
    &&& forall|k: int| 0 <= k < steps.len() ==> plannable(ctx, #[trigger] steps[k])
    &&& forall|k: int| 0 < k < steps.len() ==> linked(steps[k - 1], #[trigger] steps[k])
}

/// Layer `il` of sequence `i` of a batch holds what the plain walk `p` holds.
pub open spec fn layer_held(ctx: StepContext, p: Walk, s: launch::Store, i: int, il: int) -> bool {
    let layer = il as usize;
    let seq = i as usize;
    match ctx.layers@[il].mixer {
        Mixer::Full(_) => {
            &&& p.s[Buf::KCache { seq: 0, layer }] == s[Buf::KCache { seq, layer }]
            &&& p.s[Buf::VCache { seq: 0, layer }] == s[Buf::VCache { seq, layer }]
            &&& s[Buf::KCache { seq, layer }].len() == 1
            &&& s[Buf::VCache { seq, layer }].len() == 1
        },
        Mixer::Linear(_) => {
            &&& p.s[Buf::Conv { seq: 0, layer }] == s[Buf::Conv { seq, layer }]
            &&& p.s[Buf::Ssm { seq: 0, layer }] == s[Buf::Ssm { seq, layer }]
            &&& s[Buf::Conv { seq, layer }].len() == 1
            &&& s[Buf::Ssm { seq, layer }].len() == 1
        },
    }
}

/// Sequence `i` of a batch holds what the plain walk `p` holds.
pub open spec fn held(ctx: StepContext, p: Walk, s: launch::Store, i: int) -> bool {
    forall|il: int|
        #![trigger ctx.layers@[il]]
        0 <= il < ctx.layers@.len() ==> layer_held(ctx, p, s, i, il)
}

/// The same, with the caches as the host tracks them.
pub open spec fn at_same_point(
    ctx: StepContext,
    p: Walk,
    s: launch::Store,
    c: StepCache,
    i: int,
) -> bool {
    &&& p.kv == c.kv@
    &&& p.pos == c.pos
    &&& held(ctx, p, s, i)
}

proof fn lemma_plain_consistent(
    env: launch::Env,
    ctx: StepContext,
    p: Walk,
    s: launch::Store,
    i: int,
)
    requires
        described(env, ctx),
        held(ctx, p, s, i),
        ctx.kv_ready(p.kv),
    ensures
        decode_laws::consistent(env, ctx, p.kv, Counting::Host, input(p)),
{
    assert forall|il: int|
        #![trigger ctx.layers@[il]]
        0 <= il < ctx.layers@.len() implies decode_laws::layer_consistent(
        env,
        ctx,
        p.kv[il],
        Counting::Host,
        input(p),
        il,
    ) by {
        assert(layer_described(env, ctx, il));
        assert(layer_held(ctx, p, s, i, il));
        lemma_fresh(ctx, p, il);
    }
}

proof fn lemma_batch_consistent(
    env: launch::Env,
    ctx: StepContext,
    p: Seq<Walk>,
    s: launch::Store,
    b: BatchStep,
)
    requires
        described(env, ctx),
        plannable(ctx, b),
        p.len() == b.caches.len(),
        forall|i: int|
            #![trigger p[i]]
            0 <= i < p.len() ==> at_same_point(ctx, p[i], s, b.caches[i], i),
    ensures
        batch_laws::batch_consistent(env, ctx, s, b.caches),
{
    assert forall|i: int|
        #![trigger b.caches[i]]
        0 <= i < b.caches.len() implies decode_laws::consistent(
        env,
        ctx,
        b.caches[i].kv@,
        Counting::Host,
        batch_laws::input_of(s, b.caches, i),
    ) by {
        assert(at_same_point(ctx, p[i], s, b.caches[i], i));
        let inp = batch_laws::input_of(s, b.caches, i);
        assert forall|il: int|
            #![trigger ctx.layers@[il]]
            0 <= il < ctx.layers@.len() implies decode_laws::layer_consistent(
            env,
            ctx,
            b.caches[i].kv@[il],
            Counting::Host,
            inp,
            il,
        ) by {
            let layer = il as usize;
            let seq = i as usize;
            assert(layer_described(env, ctx, il));
            assert(layer_held(ctx, p[i], s, i, il));
            match ctx.layers@[il].mixer {
                Mixer::Full(_) => {
                    assert(s[Buf::KCache { seq, layer }] =~= seq![decode_laws::k_cache(inp, il)]);
                    assert(s[Buf::VCache { seq, layer }] =~= seq![decode_laws::v_cache(inp, il)]);
                },
                Mixer::Linear(_) => {
                    assert(s[Buf::Conv { seq, layer }] =~= seq![decode_laws::conv_ring(inp, il)]);
                    assert(s[Buf::Ssm { seq, layer }] =~= seq![decode_laws::ssm_state(inp, il)]);
                },
            }
        }
    }
}

proof fn lemma_batch_step(
    env: launch::Env,
    ctx: StepContext,
    p: Seq<Walk>,
    s: launch::Store,
    b: BatchStep,
)
    requires
        described(env, ctx),
        plannable(ctx, b),
        p.len() == b.caches.len(),
        forall|i: int|
            #![trigger p[i]]
            0 <= i < p.len() ==> at_same_point(ctx, p[i], s, b.caches[i], i),
    ensures
        ({
            let e = launch::run(env, s, batch::batch_ops(ctx, b.tokens, b.caches));
            &&& e[Buf::Logits].len() == p.len()
            &&& forall|i: int|
                #![trigger p[i]]
                0 <= i < p.len() ==> {
                    let p1 = feed(env, ctx, p[i], b.tokens[i]);
                    &&& held(ctx, p1, e, i)
                    &&& last_logits(p1) == e[Buf::Logits][i]
                }
        }),
{
    let n = ctx.layers@.len();
    let e = launch::run(env, s, batch::batch_ops(ctx, b.tokens, b.caches));
    lemma_batch_consistent(env, ctx, p, s, b);
    batch_laws::law_batch_step(env, ctx, s, b.tokens, b.caches);
    assert forall|i: int|
        #![trigger p[i]]
        0 <= i < p.len() implies {
        let p1 = feed(env, ctx, p[i], b.tokens[i]);
        &&& held(ctx, p1, e, i)
        &&& last_logits(p1) == e[Buf::Logits][i]
    } by {
        let w = p[i];
        let token = b.tokens[i];
        let x0 = decode_laws::embedded(token);
        let inp = batch_laws::input_of(s, b.caches, i);
        let p1 = feed(env, ctx, w, token);
        assert(at_same_point(ctx, w, s, b.caches[i], i));
        assert(ctx.kv_ready(b.caches[i].kv@));
        lemma_plain_consistent(env, ctx, w, s, i);
        decode_laws::law_step_h(env, ctx, w.kv, input(w), w.pos, token, false);
        assert(alike(ctx, input(w), inp)) by {
            assert forall|il: int|
                #![trigger ctx.layers@[il]]
                0 <= il < n implies layer_held(ctx, w, s, i, il) by {}
        }
        lemma_hidden_same(env, ctx, input(w), inp, x0, n);
        assert forall|il: int|
            #![trigger ctx.layers@[il]]
            0 <= il < n implies layer_held(ctx, p1, e, i, il) by {
            lemma_hidden_same(env, ctx, input(w), inp, x0, il as nat);
            assert(layer_held(ctx, w, s, i, il));
            let h = decode_laws::mixer_in(
                ctx,
                il,
                decode_laws::hidden(env, ctx, inp, x0, il as nat),
            );
            assert(decode_laws::advanced(env, ctx, input(w), Counting::Host, p1.s, il, h));
            assert(decode_laws::advanced(env, ctx, inp, Counting::Host, e, il, h));
        }
    }
}

/// Sequences of a batch do not change each other: whatever is fed to the others, the logits of
/// sequence `i` after every step are those of plain decoding of its own tokens.
pub proof fn law_batched_sequences_are_apart(
    env: launch::Env,
    ctx: StepContext,
    s: launch::Store,
    steps: Seq<BatchStep>,
    alone: Seq<Walk>,
)
    requires
        described(env, ctx),
        batched(ctx, steps),
        steps.len() > 0,
        alone.len() == steps[0].caches.len(),
        forall|i: int|
            #![trigger alone[i]]
            0 <= i < alone.len() ==> at_same_point(ctx, alone[i], s, steps[0].caches[i], i),
    ensures
        ({
            let e = batch_run(env, ctx, s, steps);
            &&& e[Buf::Logits].len() == alone.len()
            &&& steps.last().caches.len() == alone.len()
            &&& forall|i: int|
                #![trigger alone[i]]
                0 <= i < alone.len() ==> {
                    let p = fed(env, ctx, alone[i], column(steps, i));
                    &&& last_logits(p) == e[Buf::Logits][i]
                    &&& held(ctx, p, e, i)
                    &&& p.kv == decode_plan::all_kv_after(
                        Counting::Host,
                        steps.last().caches[i].kv@,
                    )
                    &&& p.pos == steps.last().caches[i].pos + 1
                }
        }),
    decreases steps.len(),
{
    let before = steps.drop_last();
    let b = steps.last();
    let s1 = batch_run(env, ctx, s, before);
    assert(plannable(ctx, steps[steps.len() - 1]));
    let walks = Seq::new(
        alone.len(),
        |i: int| fed(env, ctx, alone[i], column(before, i)),
    );
    if before.len() > 0 {
        assert(batched(ctx, before)) by {
            assert forall|k: int| 0 <= k < before.len() implies plannable(
                ctx,
                #[trigger] before[k],
            ) by {
                assert(before[k] == steps[k]);
            }
            assert forall|k: int| 0 < k < before.len() implies linked(
                before[k - 1],
                #[trigger] before[k],
            ) by {
                assert(before[k] == steps[k] && before[k - 1] == steps[k - 1]);
            }
        }
        assert(before[0] == steps[0]);
        law_batched_sequences_are_apart(env, ctx, s, before, alone);
        assert(linked(steps[steps.len() - 2], steps[steps.len() - 1]));
        assert(before.last() == steps[steps.len() - 2]);
    }
    assert forall|i: int| #![trigger walks[i]] 0 <= i < walks.len() implies at_same_point(
        ctx,
        walks[i],
        s1,
        b.caches[i],
        i,
    ) by {
        assert(at_same_point(ctx, alone[i], s, steps[0].caches[i], i));
        if before.len() == 0 {
            assert(column(before, i) =~= Seq::<u32>::empty());
        } else {
            assert(b.caches[i].pos == before.last().caches[i].pos + 1);
        }
    }
    lemma_batch_step(env, ctx, walks, s1, b);
    assert forall|i: int|
        #![trigger alone[i]]
        0 <= i < alone.len() implies {
        let p = fed(env, ctx, alone[i], column(steps, i));
        let e = batch_run(env, ctx, s, steps);
        &&& last_logits(p) == e[Buf::Logits][i]
        &&& held(ctx, p, e, i)
        &&& p.kv == decode_plan::all_kv_after(Counting::Host, b.caches[i].kv@)
        &&& p.pos == b.caches[i].pos + 1
    } by {
        assert(walks[i] == fed(env, ctx, alone[i], column(before, i)));
        assert(at_same_point(ctx, walks[i], s1, b.caches[i], i));
        assert(column(steps, i).drop_last() =~= column(before, i));
        assert(column(steps, i).last() == b.tokens[i]);
        assert(b.caches[i].pos < usize::MAX);
    }
}

} // verus!
