//! Generation of one sequence: how long it may run, what it emits and why it stops.

use vstd::prelude::*;

use crate::gemma_spec;
use crate::greedy;
use crate::text;

verus! {

/// Generation parameters.
#[derive(Clone, Debug)]
pub struct GenParams {
    /// Tokens generated at most.
    pub max_new: usize,
    /// Context length; what the request needs when absent.
    pub max_ctx: Option<usize>,
    /// Tokens that end the generation.
    pub eos: Vec<u32>,
}

impl Default for GenParams {
    fn default() -> (r: GenParams)
        ensures
            r.max_new == 128,
            r.max_ctx is None,
            r.eos@.len() == 0,
    {
        GenParams { max_new: 128, max_ctx: None, eos: Vec::new() }
    }
}

/// Why generation stopped.
#[derive(Clone, Copy, Debug, PartialEq, Eq, Structural)]
pub enum StopReason {
    Eos,
    MaxNew,
    ContextFull,
    Callback,
}

/// The generated tokens, and why generation stopped.
#[derive(Debug)]
pub struct GenOutput {
    pub tokens: Vec<u32>,
    pub stop_reason: StopReason,
}

/// Room beyond prompt and generated tokens.
pub const CTX_SLACK: usize = 8;

/// The context length of a request.
pub open spec fn ctx_cap(prompt_len: nat, max_new: nat, max_ctx: Option<usize>) -> nat {
    match max_ctx {
        Some(c) => c as nat,
        None => prompt_len + max_new + CTX_SLACK as nat,
    }
}

/// Tokens that a request may generate.
pub open spec fn token_budget(prompt_len: nat, max_new: nat, cap: nat) -> nat {
    if prompt_len >= cap {
        0
    } else if max_new <= cap - prompt_len {
        max_new
    } else {
        (cap - prompt_len) as nat
    }
}

/// A generation under way.
pub struct GenRun {
    pub prompt_len: usize,
    pub max_new: usize,
    pub ctx_cap: usize,
    pub budget: usize,
    /// Tokens in the cache.
    pub pos: usize,
    pub out: Vec<u32>,
    /// Emitted tokens that the caller was asked about, in order.
    pub asked: usize,
    pub stop: Option<StopReason>,
}

/// The limits of a generation, and what it has done.
pub ghost struct GenView {
    pub prompt_len: nat,
    pub max_new: nat,
    pub cap: nat,
    pub budget: nat,
    pub pos: nat,
    pub out: Seq<u32>,
    pub asked: nat,
    pub stop: Option<StopReason>,
}

/// A generation that has emitted nothing yet.
pub open spec fn started(prompt_len: nat, max_new: nat, max_ctx: Option<usize>) -> GenView {
    let cap = ctx_cap(prompt_len, max_new, max_ctx);
    GenView {
        prompt_len,
        max_new,
        cap,
        budget: token_budget(prompt_len, max_new, cap),
        pos: prompt_len,
        out: Seq::empty(),
        asked: 0,
        stop: None,
    }
}

/// A token was emitted; one of `eos` ends the generation.
pub open spec fn emitted(v: GenView, token: u32, eos: Seq<u32>) -> GenView {
    GenView {
        out: v.out.push(token),
        stop: if eos.contains(token) {
            Some(StopReason::Eos)
        } else {
            None
        },
        ..v
    }
}

/// The caller answered for the last token. The answer to an end token changes nothing; a refusal
/// of another ends the generation, and otherwise the token is fed back.
pub open spec fn answered(v: GenView, keep: bool) -> GenView {
    let w = GenView { asked: v.asked + 1, ..v };
    if v.stop is Some {
        w
    } else if !keep {
        GenView { stop: Some(StopReason::Callback), ..w }
    } else {
        GenView { pos: v.pos + 1, ..w }
    }
}

impl GenView {
    /// The limits hold together.
    pub open spec fn limits(self) -> bool {
        &&& self.prompt_len < self.cap
        &&& self.budget == token_budget(self.prompt_len, self.max_new, self.cap)
        &&& self.out.len() <= self.budget
    }

    /// Every token emitted so far is answered for and in the cache.
    pub open spec fn ready(self) -> bool {
        &&& self.limits()
        &&& self.stop is None
        &&& self.asked == self.out.len()
        &&& self.pos == self.prompt_len + self.out.len()
    }

    /// The last token is not answered for yet, nor in the cache.
    pub open spec fn pending(self) -> bool {
        &&& self.limits()
        &&& self.asked + 1 == self.out.len()
        &&& self.pos + 1 == self.prompt_len + self.out.len()
    }

    /// Nothing more is due.
    pub open spec fn over(self) -> bool {
        &&& self.limits()
        &&& self.asked == self.out.len()
        &&& self.stop is Some || self.out.len() == self.budget
    }

    /// Why a generation that is over ended. One that used up its budget was ended by the context
    /// where that left fewer tokens than were asked for.
    pub open spec fn reason(self) -> StopReason {
        match self.stop {
            Some(s) => s,
            None => if self.budget < self.max_new {
                StopReason::ContextFull
            } else {
                StopReason::MaxNew
            },
        }
    }
}

impl GenRun {
    pub open spec fn view(&self) -> GenView {
        GenView {
            prompt_len: self.prompt_len as nat,
            max_new: self.max_new as nat,
            cap: self.ctx_cap as nat,
            budget: self.budget as nat,
            pos: self.pos as nat,
            out: self.out@,
            asked: self.asked as nat,
            stop: self.stop,
        }
    }

    /// Starts a generation; none when the prompt fills the context.
    pub fn start(prompt_len: usize, max_new: usize, max_ctx: Option<usize>) -> (r: Option<GenRun>)
        requires
            max_ctx is None ==> prompt_len + max_new + CTX_SLACK <= usize::MAX,
        ensures
            r is Some <==> prompt_len < ctx_cap(prompt_len as nat, max_new as nat, max_ctx),
            r matches Some(run) ==> run@ == started(prompt_len as nat, max_new as nat, max_ctx)
                && run@.ready(),
    {
        let cap: usize = match max_ctx {
            Some(c) => c,
            None => prompt_len + max_new + CTX_SLACK,
        };
        if prompt_len >= cap {
            return None;
        }
        let room: usize = cap - prompt_len;
        let budget = if max_new <= room {
            max_new
        } else {
            room
        };
        let out: Vec<u32> = Vec::new();
        assert(out@ =~= Seq::empty());
        Some(
            GenRun {
                prompt_len,
                max_new,
                ctx_cap: cap,
                budget,
                pos: prompt_len,
                out,
                asked: 0,
                stop: None,
            },
        )
    }

    /// Whether another token is due.
    pub fn running(&self) -> (r: bool)
        ensures
            r == (self@.stop is None && self@.out.len() < self@.budget),
    {
        self.stop.is_none() && self.out.len() < self.budget
    }

    /// Emits a token. The caller is to be asked about it next, whichever it is.
    pub fn emit(&mut self, token: u32, eos: &[u32])
        requires
            old(self)@.ready(),
            old(self)@.out.len() < old(self)@.budget,
        ensures
            final(self)@ == emitted(old(self)@, token, eos@),
            final(self)@.pending(),
    {
        self.out.push(token);
        if gemma_spec::contains_token(eos, token) {
            self.stop = Some(StopReason::Eos);
        }
    }

    /// Takes the caller's answer for the last token; returns whether that token is to be fed back.
    pub fn answer(&mut self, keep: bool) -> (feed: bool)
        requires
            old(self)@.pending(),
        ensures
            final(self)@ == answered(old(self)@, keep),
            feed == (keep && old(self)@.stop is None),
            feed ==> final(self)@.ready(),
            !feed ==> final(self)@.over(),
    {
        self.asked = self.asked + 1;
        if self.stop.is_some() {
            false
        } else if !keep {
            self.stop = Some(StopReason::Callback);
            false
        } else {
            self.pos = self.pos + 1;
            true
        }
    }

    /// The output of a generation that is over.
    pub fn finish(self) -> (r: GenOutput)
        requires
            self@.over(),
        ensures
            r.tokens@ == self@.out,
            r.stop_reason == self@.reason(),
    {
        let stop_reason = match self.stop {
            Some(s) => s,
            None => if self.budget < self.max_new {
                StopReason::ContextFull
            } else {
                StopReason::MaxNew
            },
        };
        GenOutput { tokens: self.out, stop_reason }
    }
}

/// The output for a prompt that fills the context.
pub fn context_full() -> (r: GenOutput)
    ensures
        r.tokens@.len() == 0,
        r.stop_reason == StopReason::ContextFull,
{
    GenOutput { tokens: Vec::new(), stop_reason: StopReason::ContextFull }
}

/// One round: a token is sampled and emitted, and the caller is asked about it.
pub open spec fn round(v: GenView, token: u32, keep: bool, eos: Seq<u32>) -> GenView {
    answered(emitted(v, token, eos), keep)
}

/// The state `k` rounds after `v`, given what is sampled and what the caller answers in each.
pub open spec fn after_rounds(
    v: GenView,
    eos: Seq<u32>,
    samples: Seq<u32>,
    keeps: Seq<bool>,
    k: nat,
) -> GenView
    decreases k,
{
    if k == 0 {
        v
    } else {
        let w = after_rounds(v, eos, samples, keeps, (k - 1) as nat);
        if w.stop is None && w.out.len() < w.budget {
            round(w, samples[k - 1], keeps[k - 1], eos)
        } else {
            w
        }
    }
}

/// The first round from `n` on after which generation stops, up to `budget`.
pub open spec fn stop_round(
    samples: Seq<u32>,
    keeps: Seq<bool>,
    eos: Seq<u32>,
    budget: nat,
    n: nat,
) -> nat
    decreases budget - n,
{
    if n >= budget {
        budget
    } else if eos.contains(samples[n as int]) || !keeps[n as int] {
        n + 1
    } else {
        stop_round(samples, keeps, eos, budget, n + 1)
    }
}

/// Why it stops there, where `max_new` tokens were asked for.
pub open spec fn stop_cause(
    samples: Seq<u32>,
    keeps: Seq<bool>,
    eos: Seq<u32>,
    budget: nat,
    max_new: nat,
    n: nat,
) -> StopReason
    decreases budget - n,
{
    if n >= budget {
        if budget < max_new {
            StopReason::ContextFull
        } else {
            StopReason::MaxNew
        }
    } else if eos.contains(samples[n as int]) {
        StopReason::Eos
    } else if !keeps[n as int] {
        StopReason::Callback
    } else {
        stop_cause(samples, keeps, eos, budget, max_new, n + 1)
    }
}

proof fn lemma_rounds(v0: GenView, eos: Seq<u32>, samples: Seq<u32>, keeps: Seq<bool>, k: nat)
    requires
        v0.ready(),
        v0.out.len() == 0,
        k <= v0.budget,
        samples.len() >= v0.budget,
        keeps.len() >= v0.budget,
    ensures
        ({
            let (b, m) = (v0.budget, v0.max_new);
            let v = after_rounds(v0, eos, samples, keeps, k);
            &&& v.limits()
            &&& v.budget == b && v.max_new == m && v.asked == v.out.len()
            &&& match v.stop {
                None => {
                    &&& v.out == samples.take(k as int)
                    &&& stop_round(samples, keeps, eos, b, 0) == stop_round(
                        samples,
                        keeps,
                        eos,
                        b,
                        k,
                    )
                    &&& stop_cause(samples, keeps, eos, b, m, 0) == stop_cause(
                        samples,
                        keeps,
                        eos,
                        b,
                        m,
                        k,
                    )
                },
                Some(r) => {
                    let n = stop_round(samples, keeps, eos, b, 0);
                    &&& n <= b
                    &&& v.out == samples.take(n as int)
                    &&& r == stop_cause(samples, keeps, eos, b, m, 0)
                },
            }
        }),
    decreases k,
{
    if k == 0 {
        assert(v0.out =~= samples.take(0));
    } else {
        lemma_rounds(v0, eos, samples, keeps, (k - 1) as nat);
        let v = after_rounds(v0, eos, samples, keeps, (k - 1) as nat);
        if v.stop is None {
            assert(samples.take(k as int) =~= samples.take(k - 1).push(samples[k - 1]));
        }
    }
}

/// A generation emits what is sampled up to the first end token or the first refusal of the
/// caller, and at most as many tokens as the budget allows. The caller is asked exactly once
/// about each token that it emits, an end token included. The reason it reports is the one that
/// came first; where neither came, the context ended it if it left fewer tokens than were asked
/// for.
pub proof fn law_generation(
    prompt_len: nat,
    max_new: nat,
    max_ctx: Option<usize>,
    eos: Seq<u32>,
    samples: Seq<u32>,
    keeps: Seq<bool>,
)
    requires
        prompt_len < ctx_cap(prompt_len, max_new, max_ctx),
        samples.len() >= started(prompt_len, max_new, max_ctx).budget,
        keeps.len() >= started(prompt_len, max_new, max_ctx).budget,
    ensures
        ({
            let v0 = started(prompt_len, max_new, max_ctx);
            let v = after_rounds(v0, eos, samples, keeps, v0.budget);
            &&& v.over()
            &&& v.asked == v.out.len()
            &&& v.out == samples.take(stop_round(samples, keeps, eos, v0.budget, 0) as int)
            &&& v.reason() == stop_cause(samples, keeps, eos, v0.budget, max_new, 0)
        }),
{
    let v0 = started(prompt_len, max_new, max_ctx);
    lemma_rounds(v0, eos, samples, keeps, v0.budget);
}

/// A context that leaves fewer tokens than were asked for ends the generation where neither an
/// end token nor the caller does: the context is then filled exactly.
pub proof fn law_context_guard(
    prompt_len: nat,
    max_new: nat,
    max_ctx: usize,
    eos: Seq<u32>,
    samples: Seq<u32>,
    keeps: Seq<bool>,
)
    requires
        prompt_len < max_ctx < prompt_len + max_new,
        samples.len() >= max_ctx - prompt_len,
        keeps.len() >= max_ctx - prompt_len,
        forall|i: int|
            0 <= i < max_ctx - prompt_len ==> !eos.contains(#[trigger] samples[i]) && keeps[i],
    ensures
        ({
            let v0 = started(prompt_len, max_new, Some(max_ctx));
            let v = after_rounds(v0, eos, samples, keeps, v0.budget);
            &&& v.out == samples.take(max_ctx - prompt_len)
            &&& v.reason() == StopReason::ContextFull
            &&& v.pos == max_ctx
        }),
{
    let v0 = started(prompt_len, max_new, Some(max_ctx));
    law_generation(prompt_len, max_new, Some(max_ctx), eos, samples, keeps);
    lemma_never_stops(samples, keeps, eos, v0.budget, max_new, 0);
    lemma_fed(v0, eos, samples, keeps, v0.budget);
}

proof fn lemma_fed(v0: GenView, eos: Seq<u32>, samples: Seq<u32>, keeps: Seq<bool>, k: nat)
    requires
        v0.ready(),
        v0.out.len() == 0,
        k <= v0.budget,
        samples.len() >= v0.budget,
        keeps.len() >= v0.budget,
        forall|i: int| 0 <= i < v0.budget ==> !eos.contains(#[trigger] samples[i]) && keeps[i],
    ensures
        after_rounds(v0, eos, samples, keeps, k).stop is None,
        after_rounds(v0, eos, samples, keeps, k).pos == v0.prompt_len + k,
    decreases k,
{
    if k > 0 {
        lemma_fed(v0, eos, samples, keeps, (k - 1) as nat);
        lemma_rounds(v0, eos, samples, keeps, (k - 1) as nat);
        assert(!eos.contains(samples[k - 1]) && keeps[k - 1]);
    }
}

/// With greedy sampling, no end token and a caller that never refuses, a generation emits the
/// greedy stream.
pub proof fn law_greedy_generation(
    f: spec_fn(Seq<u32>) -> u32,
    prompt: Seq<u32>,
    max_new: nat,
    max_ctx: Option<usize>,
    samples: Seq<u32>,
    keeps: Seq<bool>,
)
    requires
        prompt.len() < ctx_cap(prompt.len(), max_new, max_ctx),
        samples.len() == started(prompt.len(), max_new, max_ctx).budget,
        keeps.len() == samples.len(),
        forall|i: int| 0 <= i < keeps.len() ==> #[trigger] keeps[i],
        greedy::follows_greedily(f, prompt, samples),
    ensures
        ({
            let v0 = started(prompt.len(), max_new, max_ctx);
            after_rounds(v0, Seq::empty(), samples, keeps, v0.budget).out
                == greedy::greedy_stream(f, prompt, v0.budget)
        }),
{
    let b = started(prompt.len(), max_new, max_ctx).budget;
    law_generation(prompt.len(), max_new, max_ctx, Seq::empty(), samples, keeps);
    assert forall|i: int| 0 <= i < b implies !Seq::<u32>::empty().contains(#[trigger] samples[i])
        && keeps[i] by {
        assert(keeps[i]);
    }
    lemma_never_stops(samples, keeps, Seq::empty(), b, max_new, 0);
    assert(samples.take(b as int) =~= samples);
    greedy::law_greedy_stream_is_unique(f, prompt, samples);
}

proof fn lemma_never_stops(
    samples: Seq<u32>,
    keeps: Seq<bool>,
    eos: Seq<u32>,
    budget: nat,
    max_new: nat,
    n: nat,
)
    requires
        n <= budget,
        forall|i: int| 0 <= i < budget ==> !eos.contains(#[trigger] samples[i]) && keeps[i],
    ensures
        stop_round(samples, keeps, eos, budget, n) == budget,
        budget < max_new ==> stop_cause(samples, keeps, eos, budget, max_new, n)
            == StopReason::ContextFull,
        budget >= max_new ==> stop_cause(samples, keeps, eos, budget, max_new, n)
            == StopReason::MaxNew,
    decreases budget - n,
{
    if n < budget {
        assert(!eos.contains(samples[n as int]) && keeps[n as int]);
        lemma_never_stops(samples, keeps, eos, budget, max_new, n + 1);
    }
}

/// The context length that a plain greedy generation needs.
pub fn plain_ctx(prompt_len: usize, max_new: usize) -> (r: usize)
    requires
        prompt_len + max_new + CTX_SLACK <= usize::MAX,
    ensures
        r == ctx_cap(prompt_len as nat, max_new as nat, None),
{
    prompt_len + max_new + CTX_SLACK
}

/// Whether the prompt is fed in one pass: when it is long enough and that is not switched off.
pub fn primes_batched(prompt_len: usize, min: usize, tokenwise: bool) -> (r: bool)
    ensures
        r == (prompt_len >= min && !tokenwise),
{
    prompt_len >= min && !tokenwise
}

/// Whether the serving loop keeps token, position and lengths on the device: greedy sampling of a
/// Gemma-4 model without per-layer embeddings, with no penalty window.
pub fn serves_on_device(gemma4: bool, e4b: bool, greedy: bool, penalty_last_n: usize) -> (r: bool)
    ensures
        r == (gemma4 && !e4b && greedy && penalty_last_n == 0),
{
    gemma4 && !e4b && greedy && penalty_last_n == 0
}

/// Some text of `stops` stands in `tail`.
pub open spec fn stopped_by(tail: Seq<char>, stops: Seq<Vec<char>>) -> bool {
    exists|i: int| 0 <= i < stops.len() && text::find(tail, #[trigger] stops[i]@) is Some
}

/// Whether a stop text stands in what was emitted.
pub fn stops_at(tail: &[char], stops: &[Vec<char>]) -> (r: bool)
    ensures
        r == stopped_by(tail@, stops@),
{
    let mut i: usize = 0;
    while i < stops.len()
        invariant
            i <= stops@.len(),
            forall|j: int| 0 <= j < i ==> text::find(tail@, #[trigger] stops@[j]@) is None,
        decreases stops@.len() - i,
    {
        if text::position_of_text(tail, stops[i].as_slice()).is_some() {
            assert(text::find(tail@, stops@[i as int]@) is Some);
            return true;
        }
        i += 1;
    }
    false
}

/// The budget is what is asked for, as far as the context has room, and never more.
pub proof fn law_token_budget(prompt_len: nat, max_new: nat, cap: nat)
    ensures
        token_budget(prompt_len, max_new, cap) <= max_new,
        prompt_len <= cap ==> prompt_len + token_budget(prompt_len, max_new, cap) <= cap,
        token_budget(prompt_len, max_new, cap) < max_new ==> prompt_len + token_budget(
            prompt_len,
            max_new,
            cap,
        ) >= cap,
{
}

/// Without a limit on the context there is room for all that is asked for.
pub proof fn law_no_context_limit(prompt_len: nat, max_new: nat)
    ensures
        prompt_len < ctx_cap(prompt_len, max_new, None),
        started(prompt_len, max_new, None).budget == max_new,
{
}

/// Generation stops at the first token that ends it or that the callback refuses, and at the end
/// of the budget otherwise; an ending token counts before a refusal.
pub proof fn law_stop_round(
    samples: Seq<u32>,
    keeps: Seq<bool>,
    eos: Seq<u32>,
    budget: nat,
    max_new: nat,
    n: nat,
)
    requires
        n <= budget,
    ensures
        ({
            let r = stop_round(samples, keeps, eos, budget, n);
            let c = stop_cause(samples, keeps, eos, budget, max_new, n);
            &&& n <= r <= budget
            &&& forall|i: int| n <= i < r - 1 ==> !eos.contains(#[trigger] samples[i]) && keeps[i]
            &&& c == StopReason::Eos ==> r > n && eos.contains(samples[r - 1])
            &&& c == StopReason::Callback ==> r > n && !eos.contains(samples[r - 1]) && !keeps[r
                - 1]
            &&& c == StopReason::MaxNew || c == StopReason::ContextFull ==> {
                &&& r == budget
                &&& c == StopReason::ContextFull <==> budget < max_new
                &&& r > n ==> !eos.contains(samples[r - 1]) && keeps[r - 1]
            }
        }),
    decreases budget - n,
{
    if n < budget && !eos.contains(samples[n as int]) && keeps[n as int] {
        law_stop_round(samples, keeps, eos, budget, max_new, n + 1);
    }
}

} // verus!
