//! The self-speculative generation loop: a small drafter proposes tokens over the main model's
//! frozen KV cache, one batched verification scores them, and the longest confirmed prefix is
//! kept.
//!
//! A round runs in one of three arms. The eager arm drafts, verifies and decides on the host.
//! The burst arm and the round-graph arm run whole rounds on the device and drain the committed
//! tokens afterwards. Which arm a round takes never changes the token stream.

use vstd::prelude::*;

use crate::greedy::accepted_prefix;
use crate::settings;

verus! {

/// Appends `items` to `out` one by one, stopping after a token that ends the generation: an
/// end-of-sequence token, or the one that fills `out` to `max_new`. The flag tells whether it
/// stopped.
pub open spec fn emit_run(
    out: Seq<u32>,
    items: Seq<u32>,
    eos: Seq<u32>,
    max_new: nat,
) -> (Seq<u32>, bool)
    decreases items.len(),
{
    if items.len() == 0 {
        (out, false)
    } else {
        let next = out.push(items[0]);
        if eos.contains(items[0]) || next.len() >= max_new {
            (next, true)
        } else {
            emit_run(next, items.skip(1), eos, max_new)
        }
    }
}

/// The tokens of one eager round: the pending token, then the `m` accepted drafts. The length
/// limit is tested after drafts only.
pub open spec fn emit_eager(
    out: Seq<u32>,
    last: u32,
    accepted: Seq<u32>,
    eos: Seq<u32>,
    max_new: nat,
) -> (Seq<u32>, bool) {
    let next = out.push(last);
    if eos.contains(last) {
        (next, true)
    } else {
        emit_run(next, accepted, eos, max_new)
    }
}

/// `emit_run` appends a prefix of `items`; it appends all of them unless it stopped, and it
/// stops exactly at the first token that ends the generation.
pub proof fn lemma_emit_run(out: Seq<u32>, items: Seq<u32>, eos: Seq<u32>, max_new: nat)
    ensures
        ({
            let (next, ended) = emit_run(out, items, eos, max_new);
            let n = next.len() - out.len();
            &&& 0 <= n <= items.len()
            &&& next == out + items.take(n)
            &&& !ended ==> n == items.len()
            &&& forall|i: int|
                0 <= i < n && (i < n - 1 || !ended) ==> !eos.contains(#[trigger] items[i])
                    && out.len() + i + 1 < max_new
            &&& ended ==> n >= 1 && (eos.contains(items[n - 1]) || next.len() >= max_new)
        }),
    decreases items.len(),
{
    let (next, ended) = emit_run(out, items, eos, max_new);
    let n = next.len() - out.len();
    if items.len() == 0 {
        assert(out + items.take(0) =~= out);
    } else {
        let step = out.push(items[0]);
        if eos.contains(items[0]) || step.len() >= max_new {
            assert(out + items.take(1) =~= step);
        } else {
            lemma_emit_run(step, items.skip(1), eos, max_new);
            let rest = items.skip(1);
            assert(step + rest.take(n - 1) =~= out + items.take(n));
            assert forall|i: int| 0 <= i < n && (i < n - 1 || !ended) implies !eos.contains(
                #[trigger] items[i],
            ) && out.len() + i + 1 < max_new by {
                if i > 0 {
                    assert(rest[i - 1] == items[i]);
                }
            }
            if ended {
                assert(rest[n - 2] == items[n - 1]);
            }
        }
    }
}

/// Whether `tok` is one of `set`.
pub fn contains_token(set: &[u32], tok: u32) -> (r: bool)
    ensures
        r == set@.contains(tok),
{
    let mut i: usize = 0;
    while i < set.len()
        invariant
            i <= set.len(),
            forall|j: int| 0 <= j < i ==> set@[j] != tok,
        decreases set.len() - i,
    {
        if set[i] == tok {
            assert(set@[i as int] == tok);
            return true;
        }
        i += 1;
    }
    false
}

/// Appends `items` to `out` as `emit_run` says, and tells whether it stopped.
fn emit_tokens(out: &mut Vec<u32>, items: &[u32], eos: &[u32], max_new: usize) -> (ended: bool)
    ensures
        (final(out)@, ended) == emit_run(old(out)@, items@, eos@, max_new as nat),
{
    let mut i: usize = 0;
    assert(items@.skip(0) =~= items@);
    while i < items.len()
        invariant
            i <= items.len(),
            emit_run(old(out)@, items@, eos@, max_new as nat) == emit_run(
                out@,
                items@.skip(i as int),
                eos@,
                max_new as nat,
            ),
        decreases items.len() - i,
    {
        let tok = items[i];
        let ghost rest = items@.skip(i as int);
        assert(rest[0] == tok);
        out.push(tok);
        if contains_token(eos, tok) || out.len() >= max_new {
            return true;
        }
        assert(rest.skip(1) =~= items@.skip(i + 1));
        i += 1;
    }
    false
}

/// Identifies one captured launch graph: chain depth, attention grid size, and whether the
/// windowed layers are past their window.
#[derive(Clone, Copy, Debug, PartialEq, Eq, Structural)]
pub struct GraphKey {
    pub depth: usize,
    pub rung: usize,
    pub over_win: bool,
}

/// Tunables of the loop.
#[derive(Clone, Copy, Debug, PartialEq, Eq, Structural)]
pub struct SpecOptions {
    /// Draft depth follows the last accepted run.
    pub adapt: bool,
    /// Lowest depth that the adaptation may choose.
    pub adapt_floor: usize,
    /// Ceiling on the draft depth.
    pub cap_max: usize,
    /// Rounds per burst; 0 switches the burst arm off.
    pub burst_m: usize,
    /// The confidence threshold is zero.
    pub pmin_zero: bool,
    /// Draft attention reads lengths from device counters.
    pub dc: bool,
    /// Eager rounds replay the draft chain as a captured graph.
    pub draft_graph: bool,
    /// Whole rounds replay as one captured graph.
    pub round_graph: bool,
    /// Bursts replay the draft chain as a captured graph.
    pub burst_graph: bool,
    /// The round-graph arm runs its body without capturing it.
    pub body_check: bool,
}

/// The texts that set the loop's tunables.
#[derive(Clone, Copy)]
pub struct SpecSettings<'a> {
    pub adapt: Option<&'a str>,
    pub adapt_floor: Option<&'a str>,
    pub cap_max: Option<&'a str>,
    pub burst_m: Option<&'a str>,
    pub dc: Option<&'a str>,
    pub draft_graph: Option<&'a str>,
    pub round_graph: Option<&'a str>,
    pub burst_graph: Option<&'a str>,
    pub body_check: Option<&'a str>,
}

impl SpecOptions {
    /// The tunables as set: adaptation and device lengths unless switched off, graphs only where
    /// switched on, a depth ceiling of 7 and a floor of 1, and no bursts.
    pub fn from_settings(s: SpecSettings, pmin_zero: bool) -> (r: SpecOptions)
        ensures
            r.adapt == !settings::says(s.adapt, '0'),
            r.adapt_floor == settings::number(s.adapt_floor, 1, usize::MAX as nat),
            r.cap_max == settings::number(s.cap_max, 7, usize::MAX as nat),
            r.burst_m == settings::number(s.burst_m, 0, usize::MAX as nat),
            r.pmin_zero == pmin_zero,
            r.dc == !settings::says(s.dc, '0'),
            r.draft_graph == settings::says(s.draft_graph, '1'),
            r.round_graph == settings::says(s.round_graph, '1'),
            r.burst_graph == settings::says(s.burst_graph, '1'),
            r.body_check == settings::says(s.body_check, '1'),
    {
        SpecOptions {
            adapt: !settings::setting_is(s.adapt, '0'),
            adapt_floor: settings::number_or(s.adapt_floor, 1),
            cap_max: settings::number_or(s.cap_max, 7),
            burst_m: settings::number_or(s.burst_m, 0),
            pmin_zero,
            dc: !settings::setting_is(s.dc, '0'),
            draft_graph: settings::setting_is(s.draft_graph, '1'),
            round_graph: settings::setting_is(s.round_graph, '1'),
            burst_graph: settings::setting_is(s.burst_graph, '1'),
            body_check: settings::setting_is(s.body_check, '1'),
        }
    }
}

/// What the loop needs to know of the two models.
#[derive(Clone, Copy, Debug, PartialEq, Eq, Structural)]
pub struct SpecModel {
    /// Sliding window of the main model, 0 when it has none.
    pub win_main: usize,
    /// Main-model layers that reuse another layer's KV cache.
    pub shared_kv_layers: usize,
    /// The main model is of the E4B family.
    pub e4b: bool,
    /// KV length from which the wide attention kernel takes over.
    pub fa512_min_tkv: usize,
    /// Sliding window of the drafter.
    pub draft_win: usize,
    /// Some drafter layer is windowed.
    pub draft_has_swa: bool,
    /// Main-model layer whose cache the windowed drafter layers read.
    pub kv_target_swa: usize,
}

/// State of a generation between two rounds.
pub struct SpecRun {
    pub opts: SpecOptions,
    pub model: SpecModel,
    pub max_new: usize,
    /// Deepest draft of any round.
    pub k_cap: usize,
    /// Depth of the next adaptive round.
    pub kc: usize,
    /// Tokens emitted so far.
    pub out: Vec<u32>,
    /// The next token to emit: chosen, not yet in the cache.
    pub last: u32,
    /// Tokens in the main model's cache.
    pub pos: usize,
    /// Capacity of the cache.
    pub max_ctx: usize,
    /// Per layer, the rows that its own KV cache holds.
    pub kv_len: Vec<Option<usize>>,
    pub drafted: usize,
    pub accepted: usize,
    pub rounds: usize,
    /// Eager rounds that drafted at least `j + 1` tokens, for `j` below 16.
    pub attempted_at: Vec<usize>,
    /// Eager rounds that accepted at least `j + 1` tokens, for `j` below 16.
    pub accepted_at: Vec<usize>,
    /// Graphs captured so far.
    pub captured: Vec<GraphKey>,
    /// Rounds of a device arm that was begun and not drained yet.
    pub stream_rounds: usize,
}

/// How the next round runs.
#[derive(Clone, Copy, Debug, PartialEq, Eq, Structural)]
pub enum RoundPlan {
    /// One replay of a captured round.
    RoundGraph {
        key: GraphKey,
        /// The graph has to be captured first, which serves two rounds.
        capture: bool,
        /// Rounds that this iteration serves.
        rounds: usize,
        /// Upper bound on the KV length that selects the verification kernels.
        hint: usize,
        /// Depth of the first acceptance walk.
        depth: usize,
    },
    /// Several full-depth rounds, one drain.
    Burst { key: GraphKey, capture: bool },
    /// One round decided on the host.
    Eager { depth: usize, rung: Option<usize>, graph: Option<GraphKey>, capture: bool },
}

/// Outcome of an eager round.
#[derive(Clone, Copy, Debug, PartialEq, Eq, Structural)]
pub struct EagerCommit {
    /// Accepted drafts; also the verification row whose hidden state seeds the next round.
    pub accepted: usize,
    /// Appended cache rows to drop again.
    pub drop_rows: usize,
    /// The generation is over.
    pub ended: bool,
}

/// The deepest draft: the requested depth under the ceiling, at least 1.
pub open spec fn depth_cap(k: nat, cap_max: nat) -> nat {
    let c = if k <= cap_max {
        k
    } else {
        cap_max
    };
    if c == 0 {
        1
    } else {
        c
    }
}

/// Depth of the round after one that accepted `m` drafts: one more than `m`, kept between the
/// floor and the cap, and no deeper than one past the first low-confidence draft.
pub open spec fn next_depth(m: nat, floor: nat, k_cap: nat, first_low: Option<nat>) -> nat {
    let lo = if floor <= k_cap {
        floor
    } else {
        k_cap
    };
    let run = if m + 1 < lo {
        lo
    } else if m + 1 > k_cap {
        k_cap
    } else {
        m + 1
    };
    match first_low {
        None => run,
        Some(fl) => {
            let cut = if fl + 1 < lo {
                lo
            } else {
                fl + 1
            };
            if run <= cut {
                run
            } else {
                cut
            }
        },
    }
}

/// The first of `r`, `2 r`, `4 r`, ... that reaches `n`.
pub open spec fn rung_from(r: nat, n: nat) -> nat
    decreases
            (if r < n {
                n - r
            } else {
                0
            }),
{
    if r >= n || r == 0 {
        r
    } else {
        rung_from(2 * r, n)
    }
}

/// Attention grid size for KV lengths up to `n`: a power of two, at least 512.
pub open spec fn rung(n: nat) -> nat {
    rung_from(512, n)
}

/// The longest KV length of a cache; `None` when no layer has one.
pub open spec fn longest(kv: Seq<Option<usize>>) -> Option<nat>
    decreases kv.len(),
{
    if kv.len() == 0 {
        None
    } else {
        match (longest(kv.drop_last()), kv.last()) {
            (None, None) => None,
            (None, Some(l)) => Some(l as nat),
            (Some(m), None) => Some(m),
            (Some(m), Some(l)) => Some(if m <= l {
                l as nat
            } else {
                m
            }),
        }
    }
}

impl SpecRun {
    /// Tokens that a whole burst may commit.
    pub open spec fn horizon(&self) -> nat {
        (self.opts.burst_m * (self.k_cap + 1)) as nat
    }

    /// Most rounds that one iteration of the loop serves.
    pub open spec fn rounds_bound(&self) -> nat {
        if self.opts.burst_m > 3 {
            self.opts.burst_m as nat
        } else {
            3
        }
    }

    /// The state is consistent, and its counters cannot overflow before the generation ends.
    pub open spec fn wf(&self) -> bool {
        &&& 1 <= self.kc <= self.k_cap
        &&& self.pos <= self.max_ctx
        &&& forall|i: int|
            0 <= i < self.kv_len@.len() ==> (#[trigger] self.kv_len@[i] matches Some(l) ==> l
                <= self.max_ctx)
        &&& self.model.draft_has_swa ==> self.model.kv_target_swa < self.kv_len@.len()
        &&& self.attempted_at@.len() == 16
        &&& self.accepted_at@.len() == 16
        &&& forall|j: int|
            0 <= j < 16 ==> #[trigger] self.accepted_at@[j] <= self.attempted_at@[j]
        &&& forall|j: int| 0 <= j < 16 ==> #[trigger] self.attempted_at@[j] <= self.out@.len()
        &&& self.max_ctx + self.horizon() + 4 * self.k_cap + 16 <= usize::MAX / 4
        &&& self.rounds_bound() * (self.k_cap + 1) * (self.max_new + 1) <= usize::MAX
        &&& self.rounds + self.stream_rounds <= self.rounds_bound() * self.out@.len()
        &&& self.drafted + self.stream_rounds * self.k_cap <= self.rounds_bound() * self.k_cap
            * self.out@.len()
        &&& self.accepted + self.stream_rounds * self.k_cap <= self.rounds_bound() * self.k_cap
            * self.out@.len()
        &&& self.stream_rounds <= self.rounds_bound()
    }

    /// Windowed drafter layers read past their window.
    pub open spec fn over_window(&self) -> bool {
        &&& self.model.draft_has_swa
        &&& self.kv_len@[self.model.kv_target_swa as int] matches Some(l)
        &&& l > self.model.draft_win
    }

    /// `span` further tokens stay on one side of both kernel crossovers.
    pub open spec fn one_sided(&self, span: nat) -> bool {
        let end = self.pos + span + self.k_cap + 4;
        &&& (end < self.model.win_main || self.pos > self.model.win_main)
        &&& (end < self.model.fa512_min_tkv || self.pos + 1 >= self.model.fa512_min_tkv)
    }

    /// A burst may start here; `fa_rows` tells whether the row-attention kernel covers the
    /// position.
    pub open spec fn burst_gate(&self, fa_rows: bool) -> bool {
        &&& self.opts.burst_m >= 1
        &&& self.opts.pmin_zero
        &&& self.model.shared_kv_layers == 0
        &&& self.one_sided(self.horizon())
        &&& fa_rows
        &&& self.pos + self.horizon() + self.k_cap + 2 <= self.max_ctx
        &&& self.out@.len() + self.horizon() <= self.max_new
    }

    /// A captured round may run here.
    pub open spec fn round_gate(&self, fa_rows: bool) -> bool {
        &&& self.opts.round_graph
        &&& self.opts.burst_m == 0
        &&& self.opts.dc
        &&& self.opts.pmin_zero
        &&& self.model.shared_kv_layers == 0
        &&& !self.model.e4b
        &&& self.one_sided((2 * (self.k_cap + 1)) as nat)
        &&& fa_rows
        &&& self.pos + 2 * (self.k_cap + 1) + self.k_cap + 2 <= self.max_ctx
    }

    /// KV length that the next round's attention grid has to cover.
    pub open spec fn grid_need(&self, burst: bool) -> nat {
        let ml = match longest(self.kv_len@) {
            Some(m) => m,
            None => 1,
        };
        ml + (if burst {
            self.horizon()
        } else {
            0
        }) + self.k_cap as nat + 2
    }

    /// Attention grid of the next round.
    pub open spec fn grid(&self, burst: bool) -> nat {
        rung(self.grid_need(burst))
    }

    /// The KV length hint of a captured round: on the live side of both kernel crossovers.
    pub open spec fn round_hint(&self) -> int {
        if self.pos > self.model.win_main {
            self.grid(false) + self.k_cap + 2
        } else if self.pos + 1 >= self.model.fa512_min_tkv {
            self.model.win_main - 2
        } else if self.model.fa512_min_tkv >= self.k_cap + 5 {
            self.model.fa512_min_tkv - (self.k_cap + 5)
        } else {
            0
        }
    }

    /// Depth that the host policy asks of the next round.
    pub open spec fn policy_depth(&self) -> usize {
        if self.opts.adapt {
            self.kc
        } else {
            self.k_cap
        }
    }
}

proof fn lemma_rung_from(r: nat, n: nat)
    requires
        r > 0,
    ensures
        rung_from(r, n) >= n,
        rung_from(r, n) >= r,
        rung_from(r, n) == r || rung_from(r, n) < 2 * n,
    decreases
            (if r < n {
                n - r
            } else {
                0
            }),
{
    if r < n {
        lemma_rung_from(2 * r, n);
    }
}

proof fn lemma_rung_from_is_pow2(e: nat, n: nat)
    ensures
        exists|x: nat|
            x >= e && rung_from(vstd::arithmetic::power2::pow2(e), n)
                == #[trigger] vstd::arithmetic::power2::pow2(x),
    decreases
            (if vstd::arithmetic::power2::pow2(e) < n {
                n - vstd::arithmetic::power2::pow2(e)
            } else {
                0
            }),
{
    let r = vstd::arithmetic::power2::pow2(e);
    vstd::arithmetic::power2::lemma_pow2_pos(e);
    if r < n {
        vstd::arithmetic::power2::lemma_pow2_unfold(e + 1);
        lemma_rung_from_is_pow2(e + 1, n);
    }
}

/// The attention grid covers the length it is asked for, is a power of two of at least 512, and
/// is never twice as large as needed beyond that minimum.
pub proof fn law_rung(n: nat)
    ensures
        rung(n) >= n,
        rung(n) >= 512,
        rung(n) == 512 || rung(n) < 2 * n,
        exists|x: nat| x >= 9 && rung(n) == #[trigger] vstd::arithmetic::power2::pow2(x),
{
    lemma_rung_from(512, n);
    vstd::arithmetic::power2::lemma2_to64();
    lemma_rung_from_is_pow2(9, n);
}

/// The grid size for KV lengths up to `n`.
pub fn grid_rung(n: usize) -> (r: usize)
    requires
        n <= usize::MAX / 2,
    ensures
        r == rung(n as nat),
{
    let mut r: usize = 512;
    while r < n
        invariant
            r >= 512,
            n <= usize::MAX / 2,
            rung_from(r as nat, n as nat) == rung(n as nat),
        decreases
                (if r < n {
                    n - r
                } else {
                    0
                }),
    {
        r = 2 * r;
    }
    r
}

/// The longest KV length of a cache.
pub fn longest_kv(kv: &[Option<usize>]) -> (r: Option<usize>)
    ensures
        longest(kv@) == (match r {
            Some(l) => Some(l as nat),
            None => None,
        }),
        r matches Some(l) ==> kv@.contains(Some(l)),
{
    let mut best: Option<usize> = None;
    let mut i: usize = 0;
    while i < kv.len()
        invariant
            i <= kv.len(),
            longest(kv@.take(i as int)) == (match best {
                Some(l) => Some(l as nat),
                None => None,
            }),
            best matches Some(l) ==> kv@.contains(Some(l)),
        decreases kv.len() - i,
    {
        assert(kv@.take(i + 1).drop_last() =~= kv@.take(i as int));
        assert(kv@.contains(kv@[i as int]));
        if let Some(l) = kv[i] {
            best = match best {
                None => Some(l),
                Some(m) => Some(
                    if m <= l {
                        l
                    } else {
                        m
                    },
                ),
            };
        }
        i += 1;
    }
    assert(kv@.take(kv@.len() as int) =~= kv@);
    best
}

/// Every layer with a cache of its own holds `len` rows.
pub open spec fn lengths_set(kv: Seq<Option<usize>>, len: usize) -> Seq<Option<usize>> {
    kv.map_values(
        |l: Option<usize>|
            match l {
                Some(_) => Some(len),
                None => None,
            },
    )
}

/// Every layer with a cache of its own holds `n` rows more.
pub open spec fn lengths_grown(kv: Seq<Option<usize>>, n: usize) -> Seq<Option<usize>> {
    kv.map_values(
        |l: Option<usize>|
            match l {
                Some(l) => Some((l + n) as usize),
                None => None,
            },
    )
}

fn set_lengths(kv: &mut Vec<Option<usize>>, len: usize)
    ensures
        final(kv)@ == lengths_set(old(kv)@, len),
{
    let mut i: usize = 0;
    while i < kv.len()
        invariant
            i <= kv@.len(),
            kv@.len() == old(kv)@.len(),
            forall|j: int| 0 <= j < i ==> #[trigger] kv@[j] == lengths_set(old(kv)@, len)[j],
            forall|j: int| i <= j < kv@.len() ==> #[trigger] kv@[j] == old(kv)@[j],
        decreases kv.len() - i,
    {
        if kv[i].is_some() {
            kv.set(i, Some(len));
        }
        i += 1;
    }
}

fn grow_lengths(kv: &mut Vec<Option<usize>>, n: usize)
    requires
        forall|i: int|
            0 <= i < old(kv)@.len() ==> (#[trigger] old(kv)@[i] matches Some(l) ==> l + n
                <= usize::MAX),
    ensures
        final(kv)@ == lengths_grown(old(kv)@, n),
{
    let mut i: usize = 0;
    while i < kv.len()
        invariant
            i <= kv@.len(),
            kv@.len() == old(kv)@.len(),
            forall|j: int|
                0 <= j < old(kv)@.len() ==> (#[trigger] old(kv)@[j] matches Some(l) ==> l + n
                    <= usize::MAX),
            forall|j: int| 0 <= j < i ==> #[trigger] kv@[j] == lengths_grown(old(kv)@, n)[j],
            forall|j: int| i <= j < kv@.len() ==> #[trigger] kv@[j] == old(kv)@[j],
        decreases kv.len() - i,
    {
        assert(kv@[i as int] == old(kv)@[i as int]);
        if let Some(l) = kv[i] {
            kv.set(i, Some(l + n));
        }
        i += 1;
    }
}

/// Whether `keys` holds `key`.
fn contains_key(keys: &[GraphKey], key: GraphKey) -> (r: bool)
    ensures
        r == keys@.contains(key),
{
    let mut i: usize = 0;
    while i < keys.len()
        invariant
            i <= keys.len(),
            forall|j: int| 0 <= j < i ==> keys@[j] != key,
        decreases keys.len() - i,
    {
        if keys[i] == key {
            assert(keys@[i as int] == key);
            return true;
        }
        i += 1;
    }
    false
}

impl SpecRun {
    /// Cache capacity that a run with `k` drafts per round needs.
    pub fn max_ctx(prompt_len: usize, max_new: usize, k: usize) -> (r: usize)
        requires
            prompt_len + max_new + k + 8 <= usize::MAX,
        ensures
            r == prompt_len + max_new + k + 8,
    {
        prompt_len + max_new + k + 8
    }

    /// Whether another round is due.
    pub fn running(&self) -> (r: bool)
        ensures
            r == (self.out@.len() < self.max_new),
    {
        self.out.len() < self.max_new
    }

    fn over_window_now(&self) -> (r: bool)
        requires
            self.wf(),
        ensures
            r == self.over_window(),
    {
        if !self.model.draft_has_swa {
            return false;
        }
        match self.kv_len[self.model.kv_target_swa] {
            Some(l) => l > self.model.draft_win,
            None => false,
        }
    }

    fn one_sided_now(&self, span: usize) -> (r: bool)
        requires
            self.wf(),
            span <= self.horizon() || span <= 2 * (self.k_cap + 1),
        ensures
            r == self.one_sided(span as nat),
    {
        let end: usize = self.pos + span + self.k_cap + 4;
        (end < self.model.win_main || self.pos > self.model.win_main) && (end
            < self.model.fa512_min_tkv || self.pos + 1 >= self.model.fa512_min_tkv)
    }

    fn grid_now(&self, burst: bool) -> (r: usize)
        requires
            self.wf(),
        ensures
            r == self.grid(burst),
            r <= usize::MAX / 2,
    {
        let ml: usize = match longest_kv(self.kv_len.as_slice()) {
            Some(m) => m,
            None => 1,
        };
        let slack: usize = if burst {
            self.opts.burst_m * (self.k_cap + 1)
        } else {
            0
        };
        proof {
            if let Some(m) = longest(self.kv_len@) {
                let i = self.kv_len@.index_of(Some(m as usize));
                assert(self.kv_len@.contains(Some(ml)));
                let j = choose|j: int| 0 <= j < self.kv_len@.len() && self.kv_len@[j] == Some(ml);
                assert(self.kv_len@[j] == Some(ml));
            }
            assert(ml <= self.max_ctx + 1);
            law_rung(self.grid_need(burst));
        }
        grid_rung(ml + slack + self.k_cap + 2)
    }

    /// Upper bound on the cache length up to the end of round `r` of a burst that starts here:
    /// every round before it and itself may commit a full chain.
    pub fn burst_hint(&self, r: usize) -> (hint: usize)
        requires
            self.wf(),
            r < self.opts.burst_m,
        ensures
            hint == self.pos + (r + 1) * (self.k_cap + 1) + 2,
    {
        assert((r + 1) * (self.k_cap + 1) <= self.opts.burst_m * (self.k_cap + 1))
            by (nonlinear_arith)
            requires
                r < self.opts.burst_m,
        ;
        self.pos + (r + 1) * (self.k_cap + 1) + 2
    }

    /// Chooses the arm of the next round. `fa_rows` tells whether the row-attention kernel
    /// covers the current position.
    pub fn plan_round(&self, fa_rows: bool) -> (r: RoundPlan)
        requires
            self.wf(),
        ensures
            r is RoundGraph <==> self.round_gate(fa_rows),
            r is Burst <==> !self.round_gate(fa_rows) && self.burst_gate(fa_rows) && self.opts.dc,
            r matches RoundPlan::RoundGraph { key, capture, rounds, hint, depth } ==> {
                &&& key == (GraphKey {
                    depth: (usize::MAX - self.k_cap) as usize,
                    rung: self.grid(false) as usize,
                    over_win: self.over_window(),
                })
                &&& key.rung == self.grid(false)
                &&& capture == (!self.opts.body_check && !self.captured@.contains(key))
                &&& rounds == (if capture {
                    3int
                } else {
                    1int
                })
                &&& hint == self.round_hint()
                &&& depth == self.policy_depth()
            },
            r matches RoundPlan::Burst { key, capture } ==> {
                &&& key == (GraphKey {
                    depth: self.k_cap,
                    rung: self.grid(true) as usize,
                    over_win: self.over_window(),
                })
                &&& key.rung == self.grid(true)
                &&& capture == (self.opts.burst_graph && !self.captured@.contains(key))
            },
            r matches RoundPlan::Eager { depth, rung, graph, capture } ==> {
                &&& depth == (if self.burst_gate(fa_rows) {
                    self.k_cap
                } else {
                    self.policy_depth()
                })
                &&& 1 <= depth <= self.k_cap
                &&& rung is Some <==> self.opts.dc
                &&& rung matches Some(g) ==> g == self.grid(false)
                &&& graph is Some <==> self.opts.draft_graph && self.opts.dc
                &&& graph matches Some(key) ==> key == (GraphKey {
                    depth,
                    rung: self.grid(false) as usize,
                    over_win: self.over_window(),
                }) && key.rung == self.grid(false)
                &&& capture == (graph is Some && !self.captured@.contains(graph->0))
            },
    {
        proof {
            law_rung(self.grid_need(true));
            law_rung(self.grid_need(false));
        }
        let horizon: usize = self.opts.burst_m * (self.k_cap + 1);
        let burst_ok = self.opts.burst_m >= 1 && self.opts.pmin_zero && self.model.shared_kv_layers
            == 0 && self.one_sided_now(horizon) && fa_rows && self.pos + horizon + self.k_cap + 2
            <= self.max_ctx && horizon <= self.max_new && self.out.len() <= self.max_new - horizon;
        let over_win = self.over_window_now();
        let policy: usize = if self.opts.adapt {
            self.kc
        } else {
            self.k_cap
        };
        if self.opts.round_graph && self.opts.burst_m == 0 && self.opts.dc && self.opts.pmin_zero
            && self.model.shared_kv_layers == 0 && !self.model.e4b && self.one_sided_now(
            2 * (self.k_cap + 1),
        ) && fa_rows && self.pos + 2 * (self.k_cap + 1) + self.k_cap + 2 <= self.max_ctx {
            let grid = self.grid_now(false);
            let key = GraphKey { depth: usize::MAX - self.k_cap, rung: grid, over_win };
            let capture = !self.opts.body_check && !contains_key(self.captured.as_slice(), key);
            let hint: usize = if self.pos > self.model.win_main {
                grid + self.k_cap + 2
            } else if self.pos + 1 >= self.model.fa512_min_tkv {
                self.model.win_main - 2
            } else {
                self.model.fa512_min_tkv.saturating_sub(self.k_cap + 5)
            };
            let rounds: usize = if capture {
                3
            } else {
                1
            };
            return RoundPlan::RoundGraph { key, capture, rounds, hint, depth: policy };
        }
        if burst_ok && self.opts.dc {
            let key = GraphKey { depth: self.k_cap, rung: self.grid_now(true), over_win };
            let capture = self.opts.burst_graph && !contains_key(self.captured.as_slice(), key);
            return RoundPlan::Burst { key, capture };
        }
        let depth: usize = if burst_ok {
            self.k_cap
        } else {
            policy
        };
        let rung: Option<usize> = if self.opts.dc {
            Some(self.grid_now(false))
        } else {
            None
        };
        let graph = match rung {
            Some(g) => if self.opts.draft_graph {
                Some(GraphKey { depth, rung: g, over_win })
            } else {
                None
            },
            None => None,
        };
        let capture = match graph {
            Some(key) => !contains_key(self.captured.as_slice(), key),
            None => false,
        };
        RoundPlan::Eager { depth, rung, graph, capture }
    }
}

proof fn lemma_counter_step(q: nat, k: nat, n: nat, rounds: nat, max_new: nat)
    requires
        rounds <= q,
        k >= 1,
        n < max_new,
    ensures
        q * n + rounds <= q * (n + 1),
        q * k * n + rounds * k <= q * k * (n + 1),
        q * k * (n + 1) <= q * (k + 1) * (max_new + 1),
        q * (n + 1) <= q * (k + 1) * (max_new + 1),
{
    assert(q * n + rounds <= q * (n + 1)) by (nonlinear_arith)
        requires
            rounds <= q,
    ;
    assert(rounds * k <= q * k) by (nonlinear_arith)
        requires
            rounds <= q,
    ;
    assert(q * k * (n + 1) == q * k * n + q * k) by (nonlinear_arith);
    assert(q * k * (n + 1) <= q * (k + 1) * (max_new + 1)) by (nonlinear_arith)
        requires
            n < max_new,
    ;
    assert(q * (n + 1) <= q * (k + 1) * (max_new + 1)) by (nonlinear_arith)
        requires
            n < max_new,
            k >= 1,
    ;
}

proof fn lemma_counter_grows(q: nat, k: nat, n: nat, n2: nat)
    requires
        n <= n2,
    ensures
        q * n <= q * n2,
        q * k * n <= q * k * n2,
{
    assert(q * n <= q * n2) by (nonlinear_arith)
        requires
            n <= n2,
    ;
    assert(q * k * n <= q * k * n2) by (nonlinear_arith)
        requires
            n <= n2,
    ;
}

/// How the prompt gets into the cache.
#[derive(Clone, Copy, Debug, PartialEq, Eq, Structural)]
pub enum PrimeRoute {
    /// In one batched pass.
    Batched,
    /// Token by token.
    Tokenwise,
    /// As one verification batch.
    Verify,
}

/// Chooses how the prompt gets into the cache: in one pass from `min` tokens on; below that token
/// by token for E4B models, whose verification would round differently, and as a verification
/// batch for the others.
pub fn prime_route(prompt_len: usize, min: usize, e4b: bool) -> (r: PrimeRoute)
    ensures
        r == (if prompt_len >= min {
            PrimeRoute::Batched
        } else if e4b {
            PrimeRoute::Tokenwise
        } else {
            PrimeRoute::Verify
        }),
{
    if prompt_len >= min {
        PrimeRoute::Batched
    } else if e4b {
        PrimeRoute::Tokenwise
    } else {
        PrimeRoute::Verify
    }
}

/// Whether the hidden state that a route leaves still has to pass the output norm before it seeds
/// the drafter: only a verification batch leaves normalized states.
pub fn seed_needs_norm(route: PrimeRoute) -> (r: bool)
    ensures
        r == (route != PrimeRoute::Verify),
{
    match route {
        PrimeRoute::Verify => false,
        _ => true,
    }
}

/// The draft depth cap for a requested depth `k`.
pub fn draft_depth_cap(k: usize, cap_max: usize) -> (r: usize)
    ensures
        r == depth_cap(k as nat, cap_max as nat),
{
    let c: usize = if k <= cap_max {
        k
    } else {
        cap_max
    };
    if c == 0 {
        1
    } else {
        c
    }
}

/// The depth of the round after one that accepted `m` drafts.
pub fn adapt_depth(m: usize, floor: usize, k_cap: usize, first_low: Option<usize>) -> (r: usize)
    requires
        m < usize::MAX,
        first_low matches Some(fl) ==> fl < usize::MAX,
    ensures
        r == next_depth(
            m as nat,
            floor as nat,
            k_cap as nat,
            match first_low {
                Some(fl) => Some(fl as nat),
                None => None,
            },
        ),
{
    let lo: usize = if floor <= k_cap {
        floor
    } else {
        k_cap
    };
    let run: usize = if m + 1 < lo {
        lo
    } else if m + 1 > k_cap {
        k_cap
    } else {
        m + 1
    };
    match first_low {
        None => run,
        Some(fl) => {
            let cut: usize = if fl + 1 < lo {
                lo
            } else {
                fl + 1
            };
            if run <= cut {
                run
            } else {
                cut
            }
        },
    }
}

/// Adaptive depths stay between 1 and the cap.
pub proof fn law_adaptive_depth_is_bounded(
    m: nat,
    floor: nat,
    k_cap: nat,
    first_low: Option<nat>,
)
    requires
        k_cap >= 1,
    ensures
        1 <= next_depth(m, floor, k_cap, first_low) <= k_cap,
{
}

impl SpecRun {
    /// The state after the prompt was fed: `last` is the greedy choice after it, and `kv_len`
    /// the row counts of the cache.
    pub fn start(
        opts: SpecOptions,
        model: SpecModel,
        k: usize,
        max_new: usize,
        last: u32,
        pos: usize,
        max_ctx: usize,
        kv_len: Vec<Option<usize>>,
    ) -> (r: SpecRun)
        requires
            k >= 1,
            pos <= max_ctx,
            forall|i: int|
                0 <= i < kv_len@.len() ==> (#[trigger] kv_len@[i] matches Some(l) ==> l
                    <= max_ctx),
            model.draft_has_swa ==> model.kv_target_swa < kv_len@.len(),
            max_ctx + opts.burst_m * (depth_cap(k as nat, opts.cap_max as nat) + 1) + 4
                * depth_cap(k as nat, opts.cap_max as nat) + 16 <= usize::MAX / 4,
            (if opts.burst_m > 3 {
                opts.burst_m as int
            } else {
                3
            }) * (depth_cap(k as nat, opts.cap_max as nat) + 1) * (max_new + 1) <= usize::MAX,
        ensures
            r.wf(),
            r.opts == opts,
            r.model == model,
            r.max_new == max_new,
            r.k_cap == depth_cap(k as nat, opts.cap_max as nat),
            r.kc == r.k_cap,
            r.out@ == Seq::<u32>::empty(),
            r.last == last,
            r.pos == pos,
            r.max_ctx == max_ctx,
            r.kv_len@ == kv_len@,
            r.drafted == 0,
            r.accepted == 0,
            r.rounds == 0,
            r.attempted_at@ == Seq::new(16, |j: int| 0usize),
            r.accepted_at@ == Seq::new(16, |j: int| 0usize),
            r.captured@ == Seq::<GraphKey>::empty(),
            r.stream_rounds == 0,
    {
        let k_cap = draft_depth_cap(k, opts.cap_max);
        let attempted_at: Vec<usize> = vec![0; 16];
        let accepted_at: Vec<usize> = vec![0; 16];
        assert(attempted_at@ =~= Seq::new(16, |j: int| 0usize));
        assert(accepted_at@ =~= Seq::new(16, |j: int| 0usize));
        SpecRun {
            opts,
            model,
            max_new,
            k_cap,
            kc: k_cap,
            out: Vec::new(),
            last,
            pos,
            max_ctx,
            kv_len,
            drafted: 0,
            accepted: 0,
            rounds: 0,
            attempted_at,
            accepted_at,
            captured: Vec::new(),
            stream_rounds: 0,
        }
    }

    /// Records that the graph of `key` was captured.
    pub fn note_captured(&mut self, key: GraphKey)
        requires
            old(self).wf(),
        ensures
            final(self).wf(),
            final(self).captured@ == old(self).captured@.push(key),
            *final(self) == (SpecRun { captured: final(self).captured, ..*old(self) }),
    {
        self.captured.push(key);
    }

    /// Begins a device arm of `rounds` rounds: the pending token is emitted. Tells whether that
    /// ended the generation.
    pub fn begin_stream(&mut self, rounds: usize, eos: &[u32]) -> (ended: bool)
        requires
            old(self).wf(),
            old(self).out@.len() < old(self).max_new,
            old(self).stream_rounds == 0,
            1 <= rounds <= old(self).rounds_bound(),
        ensures
            final(self).wf(),
            (final(self).out@, ended) == emit_run(
                old(self).out@,
                seq![old(self).last],
                eos@,
                old(self).max_new as nat,
            ),
            final(self).stream_rounds == (if ended {
                0
            } else {
                rounds
            }),
            *final(self) == (SpecRun {
                out: final(self).out,
                stream_rounds: final(self).stream_rounds,
                ..*old(self)
            }),
    {
        let tok = self.last;
        proof {
            lemma_counter_step(
                self.rounds_bound(),
                self.k_cap as nat,
                self.out@.len(),
                rounds as nat,
                self.max_new as nat,
            );
            assert(0 * self.k_cap == 0);
            assert(seq![tok].skip(1) =~= Seq::<u32>::empty());
            assert(seq![tok][0] == tok);
            reveal_with_fuel(emit_run, 2);
        }
        self.out.push(tok);
        let ended = contains_token(eos, tok) || self.out.len() >= self.max_new;
        self.stream_rounds = if ended {
            0
        } else {
            rounds
        };
        ended
    }

    /// Drains a device arm: `toks` are the tokens that its rounds committed, and `pos` is the
    /// position that the device counted. The last token stays pending. Tells whether the
    /// generation is over.
    pub fn drain(&mut self, toks: &[u32], pos: usize, eos: &[u32]) -> (ended: bool)
        requires
            old(self).wf(),
            old(self).out@.len() < old(self).max_new,
            old(self).stream_rounds >= 1,
            1 <= toks@.len() <= old(self).stream_rounds * (old(self).k_cap + 1),
            pos <= old(self).max_ctx,
        ensures
            final(self).wf(),
            (final(self).out@, ended) == emit_run(
                old(self).out@,
                toks@.drop_last(),
                eos@,
                old(self).max_new as nat,
            ),
            final(self).last == toks@.last(),
            final(self).pos == pos,
            final(self).kc == old(self).k_cap,
            final(self).kv_len@ == lengths_set(old(self).kv_len@, pos),
            final(self).drafted == old(self).drafted + old(self).stream_rounds * old(self).k_cap,
            final(self).rounds == old(self).rounds + old(self).stream_rounds,
            final(self).accepted == old(self).accepted + (if toks@.len()
                >= old(self).stream_rounds {
                toks@.len() - old(self).stream_rounds
            } else {
                0
            }),
            final(self).stream_rounds == 0,
            final(self).opts == old(self).opts,
            final(self).model == old(self).model,
            final(self).max_new == old(self).max_new,
            final(self).k_cap == old(self).k_cap,
            final(self).max_ctx == old(self).max_ctx,
            final(self).captured@ == old(self).captured@,
            final(self).attempted_at@ == old(self).attempted_at@,
            final(self).accepted_at@ == old(self).accepted_at@,
    {
        let ghost n0 = self.out@.len();
        let ghost q = self.rounds_bound();
        let ghost kk = self.k_cap as nat;
        let served = self.stream_rounds;
        proof {
            let sr = served as nat;
            assert(sr * (kk + 1) == sr * kk + sr) by (nonlinear_arith);
            assert(q * kk * n0 <= q * (kk + 1) * (self.max_new + 1)) by (nonlinear_arith)
                requires
                    n0 <= self.max_new,
            ;
            assert(q * n0 <= q * (kk + 1) * (self.max_new + 1)) by (nonlinear_arith)
                requires
                    n0 <= self.max_new,
            ;
            assert(sr * kk == served * self.k_cap);
            lemma_emit_run(self.out@, toks@.drop_last(), eos@, self.max_new as nat);
            let n2 = emit_run(self.out@, toks@.drop_last(), eos@, self.max_new as nat).0.len();
            lemma_counter_grows(q, kk, n0, n2);
        }
        let body = vstd::slice::slice_subrange(toks, 0, toks.len() - 1);
        assert(body@ =~= toks@.drop_last());
        self.drafted = self.drafted + served * self.k_cap;
        self.rounds = self.rounds + served;
        self.accepted = self.accepted + toks.len().saturating_sub(served);
        let ended = emit_tokens(&mut self.out, body, eos, self.max_new);
        self.last = toks[toks.len() - 1];
        self.pos = pos;
        set_lengths(&mut self.kv_len, pos);
        self.kc = self.k_cap;
        self.stream_rounds = 0;
        ended
    }
}

/// The first `n` counters, one higher.
pub open spec fn bumped(counts: Seq<usize>, n: nat) -> Seq<usize> {
    counts.map(
        |j: int, c: usize|
            if j < n {
                (c + 1) as usize
            } else {
                c
            },
    )
}

fn bump(counts: &mut Vec<usize>, n: usize)
    requires
        forall|j: int| 0 <= j < old(counts)@.len() ==> #[trigger] old(counts)@[j] < usize::MAX,
    ensures
        final(counts)@ == bumped(old(counts)@, n as nat),
{
    let mut j: usize = 0;
    while j < counts.len() && j < n
        invariant
            j <= counts@.len(),
            j <= n,
            counts@.len() == old(counts)@.len(),
            forall|i: int|
                0 <= i < old(counts)@.len() ==> #[trigger] old(counts)@[i] < usize::MAX,
            forall|i: int|
                0 <= i < j ==> #[trigger] counts@[i] == bumped(old(counts)@, n as nat)[i],
            forall|i: int| j <= i < counts@.len() ==> #[trigger] counts@[i] == old(counts)@[i],
        decreases counts.len() - j,
    {
        assert(counts@[j as int] == old(counts)@[j as int]);
        let c: usize = counts[j];
        counts.set(j, c + 1);
        j += 1;
    }
}

impl SpecRun {
    /// Commits an eager round: `dtoks` were drafted after the pending token, and `vam[j]` is the
    /// main model's greedy choice after the pending token and the first `j` drafts. `first_low`
    /// is the first draft below the confidence threshold.
    pub fn commit_eager(
        &mut self,
        dtoks: &[u32],
        vam: &[u32],
        first_low: Option<usize>,
        eos: &[u32],
    ) -> (r: EagerCommit)
        requires
            old(self).wf(),
            old(self).stream_rounds == 0,
            old(self).out@.len() < old(self).max_new,
            1 <= dtoks@.len() <= old(self).k_cap,
            vam@.len() == dtoks@.len() + 1,
            first_low matches Some(fl) ==> fl < dtoks@.len(),
            old(self).pos + dtoks@.len() + 1 <= old(self).max_ctx,
            forall|i: int|
                0 <= i < old(self).kv_len@.len() ==> (#[trigger] old(self).kv_len@[i] matches Some(
                    l,
                ) ==> l + dtoks@.len() + 1 <= old(self).max_ctx),
        ensures
            final(self).wf(),
            r.accepted == crate::greedy::accepted_len(dtoks@, vam@),
            r.drop_rows == dtoks@.len() - r.accepted,
            (final(self).out@, r.ended) == emit_eager(
                old(self).out@,
                old(self).last,
                dtoks@.take(r.accepted as int),
                eos@,
                old(self).max_new as nat,
            ),
            final(self).drafted == old(self).drafted + dtoks@.len(),
            final(self).rounds == old(self).rounds + 1,
            final(self).accepted == old(self).accepted + r.accepted,
            final(self).attempted_at@ == bumped(old(self).attempted_at@, dtoks@.len()),
            final(self).accepted_at@ == bumped(old(self).accepted_at@, r.accepted as nat),
            r.ended ==> {
                &&& final(self).last == old(self).last
                &&& final(self).pos == old(self).pos
                &&& final(self).kv_len@ == old(self).kv_len@
                &&& final(self).kc == old(self).kc
            },
            !r.ended ==> {
                &&& final(self).last == vam@[r.accepted as int]
                &&& final(self).pos == old(self).pos + r.accepted + 1
                &&& final(self).kv_len@ == lengths_grown(
                    old(self).kv_len@,
                    (r.accepted + 1) as usize,
                )
                &&& final(self).kc == (if old(self).opts.adapt {
                    next_depth(
                        r.accepted as nat,
                        old(self).opts.adapt_floor as nat,
                        old(self).k_cap as nat,
                        match first_low {
                            Some(fl) => Some(fl as nat),
                            None => None,
                        },
                    )
                } else {
                    old(self).kc as nat
                })
            },
            final(self).stream_rounds == 0,
            final(self).opts == old(self).opts,
            final(self).model == old(self).model,
            final(self).max_new == old(self).max_new,
            final(self).k_cap == old(self).k_cap,
            final(self).max_ctx == old(self).max_ctx,
            final(self).captured@ == old(self).captured@,
    {
        let m = accepted_prefix(dtoks, vam);
        let ghost n0 = self.out@.len();
        let ghost q = self.rounds_bound();
        let ghost kk = self.k_cap as nat;
        proof {
            lemma_counter_step(q, kk, n0, 1, self.max_new as nat);
            let o1 = self.out@.push(self.last);
            lemma_emit_run(o1, dtoks@.take(m as int), eos@, self.max_new as nat);
            let n2 = emit_eager(
                self.out@,
                self.last,
                dtoks@.take(m as int),
                eos@,
                self.max_new as nat,
            ).0.len();
            lemma_counter_grows(q, kk, n0 + 1, n2);
            assert(q * kk >= kk) by (nonlinear_arith)
                requires
                    q >= 1,
            ;
            assert(q * kk * (n0 + 1) == q * kk * n0 + q * kk) by (nonlinear_arith);
            assert(0 * self.k_cap == 0);
        }
        self.drafted = self.drafted + dtoks.len();
        self.rounds = self.rounds + 1;
        self.accepted = self.accepted + m;
        bump(&mut self.attempted_at, dtoks.len());
        bump(&mut self.accepted_at, m);
        let tok = self.last;
        self.out.push(tok);
        let drop_rows: usize = dtoks.len() - m;
        if contains_token(eos, tok) {
            return EagerCommit { accepted: m, drop_rows, ended: true };
        }
        let run = vstd::slice::slice_subrange(dtoks, 0, m);
        assert(run@ =~= dtoks@.take(m as int));
        if emit_tokens(&mut self.out, run, eos, self.max_new) {
            return EagerCommit { accepted: m, drop_rows, ended: true };
        }
        self.last = vam[m];
        self.pos = self.pos + (m + 1);
        grow_lengths(&mut self.kv_len, m + 1);
        if self.opts.adapt {
            self.kc = adapt_depth(m, self.opts.adapt_floor, self.k_cap, first_low);
        }
        EagerCommit { accepted: m, drop_rows, ended: false }
    }
}

/// One round as the device runs it: the acceptance walk looks at no more than `depth` drafts.
pub ghost struct DeviceRound {
    pub drafts: Seq<u32>,
    pub preds: Seq<u32>,
    pub depth: nat,
}

impl DeviceRound {
    /// Drafts that the walk accepts.
    pub open spec fn walked(self) -> nat {
        let m = crate::greedy::accepted_len(self.drafts, self.preds);
        if m <= self.depth {
            m
        } else {
            self.depth
        }
    }

    /// What the round commits to the ring.
    pub open spec fn committed(self) -> Seq<u32> {
        self.drafts.take(self.walked() as int).push(self.preds[self.walked() as int])
    }
}

/// The ring after `rounds`.
pub open spec fn ring_after(rounds: Seq<DeviceRound>) -> Seq<u32>
    decreases rounds.len(),
{
    if rounds.len() == 0 {
        Seq::empty()
    } else {
        ring_after(rounds.drop_last()) + rounds.last().committed()
    }
}

/// Every device round was verified after the tokens that the earlier ones committed.
pub open spec fn honest_device_rounds(
    f: spec_fn(Seq<u32>) -> u32,
    ctx: Seq<u32>,
    rounds: Seq<DeviceRound>,
) -> bool
    decreases rounds.len(),
{
    rounds.len() > 0 ==> {
        let before = rounds.drop_last();
        &&& honest_device_rounds(f, ctx, before)
        &&& crate::greedy::verifies(
            f,
            ctx + ring_after(before),
            rounds.last().drafts,
            rounds.last().preds,
        )
    }
}

/// The ring of a device arm holds the greedy continuation of its starting context, one token or
/// more per round.
pub proof fn law_ring_is_greedy(
    f: spec_fn(Seq<u32>) -> u32,
    ctx: Seq<u32>,
    rounds: Seq<DeviceRound>,
)
    requires
        honest_device_rounds(f, ctx, rounds),
    ensures
        ring_after(rounds) == crate::greedy::greedy_stream(f, ctx, ring_after(rounds).len()),
        ring_after(rounds).len() >= rounds.len(),
    decreases rounds.len(),
{
    if rounds.len() == 0 {
    } else {
        let before = rounds.drop_last();
        let r = rounds.last();
        law_ring_is_greedy(f, ctx, before);
        let ring = ring_after(before);
        crate::greedy::lemma_accepted_len(r.drafts, r.preds);
        crate::greedy::law_shallow_walk_is_greedy(f, ctx + ring, r.drafts, r.preds, r.walked());
        crate::greedy::law_greedy_stream_resumes(f, ctx, ring.len(), r.committed().len());
    }
}

/// One iteration of the loop.
pub ghost enum Step {
    /// An eager round.
    Eager { drafts: Seq<u32>, preds: Seq<u32> },
    /// A device arm that drained `toks`.
    Stream { toks: Seq<u32> },
}

/// Emitted tokens, pending token, and whether the generation is over.
pub ghost struct Emission {
    pub out: Seq<u32>,
    pub last: u32,
    pub ended: bool,
}

/// The effect of one iteration on what is emitted.
pub open spec fn step_emission(e: Emission, step: Step, eos: Seq<u32>, max_new: nat) -> Emission {
    match step {
        Step::Eager { drafts, preds } => {
            let m = crate::greedy::accepted_len(drafts, preds) as int;
            let (out, ended) = emit_eager(e.out, e.last, drafts.take(m), eos, max_new);
            Emission {
                out,
                last: if ended {
                    e.last
                } else {
                    preds[m]
                },
                ended,
            }
        },
        Step::Stream { toks } => {
            let (first, over) = emit_run(e.out, seq![e.last], eos, max_new);
            if over {
                Emission { out: first, last: e.last, ended: true }
            } else {
                let (out, ended) = emit_run(first, toks.drop_last(), eos, max_new);
                Emission { out, last: toks.last(), ended }
            }
        },
    }
}

/// The iteration ran while tokens were still wanted, on a main model that decides by `f`.
pub open spec fn honest_step(
    f: spec_fn(Seq<u32>) -> u32,
    prompt: Seq<u32>,
    e: Emission,
    step: Step,
    max_new: nat,
) -> bool {
    let ctx = prompt + e.out.push(e.last);
    &&& !e.ended
    &&& e.out.len() < max_new
    &&& match step {
        Step::Eager { drafts, preds } => crate::greedy::verifies(f, ctx, drafts, preds),
        Step::Stream { toks } => toks.len() >= 1 && toks == crate::greedy::greedy_stream(
            f,
            ctx,
            toks.len(),
        ),
    }
}

/// What holds between two iterations: the output is greedy, and it stopped where plain greedy
/// decoding stops or runs on.
pub open spec fn exact(
    f: spec_fn(Seq<u32>) -> u32,
    prompt: Seq<u32>,
    e: Emission,
    eos: Seq<u32>,
    max_new: nat,
) -> bool {
    &&& e.out == crate::greedy::greedy_stream(f, prompt, e.out.len())
    &&& !e.ended ==> e.last == f(prompt + e.out)
    &&& e.out.len() <= max_new + 1
    &&& forall|i: int|
        0 <= i < e.out.len() && (i < e.out.len() - 1 || !e.ended) ==> !eos.contains(
            #[trigger] e.out[i],
        )
    &&& e.ended ==> e.out.len() >= 1 && (eos.contains(e.out.last()) || e.out.len() >= max_new)
    &&& !e.ended ==> e.out.len() <= max_new
}

proof fn lemma_emit_prefix_is_greedy(
    f: spec_fn(Seq<u32>) -> u32,
    prompt: Seq<u32>,
    out: Seq<u32>,
    items: Seq<u32>,
    n: int,
)
    requires
        out == crate::greedy::greedy_stream(f, prompt, out.len()),
        items == crate::greedy::greedy_stream(f, prompt + out, items.len()),
        0 <= n <= items.len(),
    ensures
        out + items.take(n) == crate::greedy::greedy_stream(f, prompt, (out.len() + n) as nat),
        n < items.len() ==> items[n] == f(prompt + (out + items.take(n))),
{
    crate::greedy::law_greedy_stream_prefix(f, prompt + out, n as nat, items.len());
    crate::greedy::law_greedy_stream_resumes(f, prompt, out.len(), n as nat);
    crate::greedy::lemma_greedy_stream(f, prompt + out, items.len());
    assert(prompt + (out + items.take(n)) =~= (prompt + out) + items.take(n));
}

/// Every iteration, in whichever arm, keeps the output exact.
pub proof fn law_step_is_exact(
    f: spec_fn(Seq<u32>) -> u32,
    prompt: Seq<u32>,
    e: Emission,
    step: Step,
    eos: Seq<u32>,
    max_new: nat,
)
    requires
        exact(f, prompt, e, eos, max_new),
        honest_step(f, prompt, e, step, max_new),
    ensures
        exact(f, prompt, step_emission(e, step, eos, max_new), eos, max_new),
        step_emission(e, step, eos, max_new).out.len() > e.out.len(),
{
    let next = step_emission(e, step, eos, max_new);
    let one = e.out.push(e.last);
    assert(one == crate::greedy::greedy_stream(f, prompt, one.len()));
    let ctx = prompt + one;
    // the tokens that follow the pending one, with the next pending token at the end
    let items = match step {
        Step::Eager { drafts, preds } => {
            crate::greedy::accepted_run(drafts, preds)
        },
        Step::Stream { toks } => toks,
    };
    match step {
        Step::Eager { drafts, preds } => {
            crate::greedy::lemma_accepted_len(drafts, preds);
            crate::greedy::law_accepted_run_is_greedy(f, ctx, drafts, preds);
            let m = crate::greedy::accepted_len(drafts, preds) as int;
            assert(items.drop_last() =~= drafts.take(m));
        },
        Step::Stream { toks } => {
            assert(seq![e.last].skip(1) =~= Seq::<u32>::empty());
            assert(seq![e.last][0] == e.last);
            reveal_with_fuel(emit_run, 2);
        },
    }
    let body = items.drop_last();
    lemma_emit_run(one, body, eos, max_new);
    let n = emit_run(one, body, eos, max_new).0.len() - one.len();
    assert(items.take(n) =~= body.take(n));
    lemma_emit_prefix_is_greedy(f, prompt, one, items, n);
    assert forall|i: int|
        0 <= i < next.out.len() && (i < next.out.len() - 1 || !next.ended) implies !eos.contains(
        #[trigger] next.out[i],
    ) by {
        if i < e.out.len() {
            assert(next.out[i] == e.out[i]);
        } else if i > e.out.len() {
            assert(next.out[i] == body[i - one.len()]);
        }
    }
    if next.out.len() > one.len() {
        assert(next.out.last() == body[n - 1]);
        if n >= 2 {
            assert(!eos.contains(body[n - 2]));
        }
    }
}

/// The emission after `steps`, starting from the greedy choice `first` after the prompt.
pub open spec fn emission_after(
    first: u32,
    steps: Seq<Step>,
    eos: Seq<u32>,
    max_new: nat,
) -> Emission
    decreases steps.len(),
{
    if steps.len() == 0 {
        Emission { out: Seq::empty(), last: first, ended: false }
    } else {
        step_emission(
            emission_after(first, steps.drop_last(), eos, max_new),
            steps.last(),
            eos,
            max_new,
        )
    }
}

/// Every iteration of the run was honest.
pub open spec fn honest_run(
    f: spec_fn(Seq<u32>) -> u32,
    prompt: Seq<u32>,
    steps: Seq<Step>,
    eos: Seq<u32>,
    max_new: nat,
) -> bool
    decreases steps.len(),
{
    steps.len() > 0 ==> {
        &&& honest_run(f, prompt, steps.drop_last(), eos, max_new)
        &&& honest_step(
            f,
            prompt,
            emission_after(f(prompt), steps.drop_last(), eos, max_new),
            steps.last(),
            max_new,
        )
    }
}

proof fn lemma_run_is_exact(
    f: spec_fn(Seq<u32>) -> u32,
    prompt: Seq<u32>,
    steps: Seq<Step>,
    eos: Seq<u32>,
    max_new: nat,
)
    requires
        honest_run(f, prompt, steps, eos, max_new),
    ensures
        exact(f, prompt, emission_after(f(prompt), steps, eos, max_new), eos, max_new),
    decreases steps.len(),
{
    if steps.len() == 0 {
        assert(prompt + Seq::<u32>::empty() =~= prompt);
    } else {
        lemma_run_is_exact(f, prompt, steps.drop_last(), eos, max_new);
        law_step_is_exact(
            f,
            prompt,
            emission_after(f(prompt), steps.drop_last(), eos, max_new),
            steps.last(),
            eos,
            max_new,
        );
    }
}

/// Speculation changes nothing but speed: a finished run emitted exactly what plain greedy
/// decoding emits up to an end-of-sequence token or `max_new` tokens. At most one further
/// greedy token follows, when an eager round crosses the limit.
pub proof fn law_run_is_plain_greedy(
    f: spec_fn(Seq<u32>) -> u32,
    prompt: Seq<u32>,
    steps: Seq<Step>,
    eos: Seq<u32>,
    max_new: nat,
)
    requires
        honest_run(f, prompt, steps, eos, max_new),
        ({
            let e = emission_after(f(prompt), steps, eos, max_new);
            e.ended || e.out.len() >= max_new
        }),
    ensures
        ({
            let out = emission_after(f(prompt), steps, eos, max_new).out;
            let plain = emit_run(
                Seq::empty(),
                crate::greedy::greedy_stream(f, prompt, max_new),
                eos,
                max_new,
            ).0;
            &&& out == crate::greedy::greedy_stream(f, prompt, out.len())
            &&& out.len() <= max_new + 1
            &&& out.len() <= max_new ==> out == plain
            &&& out.len() > max_new ==> out.drop_last() == plain
        }),
{
    lemma_run_is_exact(f, prompt, steps, eos, max_new);
    let e = emission_after(f(prompt), steps, eos, max_new);
    let out = e.out;
    let all = crate::greedy::greedy_stream(f, prompt, max_new);
    crate::greedy::lemma_greedy_stream(f, prompt, max_new);
    lemma_emit_run(Seq::empty(), all, eos, max_new);
    let plain = emit_run(Seq::empty(), all, eos, max_new).0;
    assert(Seq::<u32>::empty() + all.take(plain.len() as int) =~= all.take(plain.len() as int));
    let cut = if out.len() <= max_new {
        out
    } else {
        out.drop_last()
    };
    if out.len() <= max_new {
        crate::greedy::law_greedy_stream_prefix(f, prompt, out.len(), max_new);
    } else {
        crate::greedy::law_greedy_stream_prefix(f, prompt, max_new, out.len());
        assert(out.take(max_new as int) =~= out.drop_last());
    }
    assert(cut == all.take(cut.len() as int));
    if plain.len() < cut.len() {
        let i = plain.len() - 1;
        if plain.len() >= 1 {
            assert(eos.contains(all[i]) || plain.len() >= max_new);
            assert(out[i] == all[i]);
        }
        assert(false);
    }
    if cut.len() < plain.len() {
        assert(cut == out);
        if cut.len() >= 1 {
            assert(all[cut.len() - 1] == out.last());
            assert(!eos.contains(all[cut.len() - 1]));
        }
        assert(false);
    }
    assert(plain =~= cut);
}

/// Graphs of different arms never share a key: a captured round and a captured draft chain are
/// told apart by their depth.
pub proof fn law_round_keys_are_apart(run: SpecRun, depth: usize)
    requires
        run.wf(),
        depth <= run.k_cap,
    ensures
        (usize::MAX - run.k_cap) as usize != depth,
{
}

/// The hint of a captured round of `t = k_cap + 1` rows selects the kernels that the live
/// lengths select. Past the window it stays past the window and past the wide-attention
/// crossover if the position is; between the two it stays between them; below both it stays
/// below the crossover, and below the window unless the window lies further below the
/// crossover than the margin.
pub proof fn law_round_hint_keeps_sides(run: SpecRun, fa_rows: bool)
    requires
        run.wf(),
        run.round_gate(fa_rows),
        longest(run.kv_len@) matches Some(l) && l >= run.pos,
    ensures
        ({
            let t = run.k_cap + 1;
            let win = run.model.win_main;
            let f512 = run.model.fa512_min_tkv;
            let hint = run.round_hint();
            &&& run.pos > win ==> hint + 1 >= win
            &&& run.pos > win && run.pos + 1 >= f512 ==> hint + t >= f512
            &&& run.pos <= win && run.pos + 1 >= f512 ==> hint + 1 < win && hint + t >= f512
            &&& run.pos <= win && run.pos + 1 < f512 ==> hint + t < f512
            &&& run.pos <= win && run.pos + 1 < f512 && f512 < win + run.k_cap + 4 ==> hint + 1
                < win
        }),
{
    law_rung(run.grid_need(false));
}

/// A span is one-sided exactly where neither crossover lies within what it reaches, and every
/// position of it is on the side of the first.
pub proof fn law_one_sided(run: SpecRun, span: nat, p: int)
    ensures
        ({
            let end = run.pos + span + run.k_cap + 4;
            run.one_sided(span) <==> !(run.pos <= run.model.win_main <= end) && !(run.pos + 1
                < run.model.fa512_min_tkv <= end)
        }),
        run.one_sided(span) && run.pos <= p < run.pos + span + run.k_cap + 4 ==> {
            &&& p > run.model.win_main <==> run.pos > run.model.win_main
            &&& p + 1 >= run.model.fa512_min_tkv <==> run.pos + 1 >= run.model.fa512_min_tkv
        },
{
}

/// A burst that may start runs to its end: after any of its rounds, whatever they committed, the
/// next round still has room in the context and in what is asked for, with the same kernels.
pub proof fn law_burst_stays_inside(run: SpecRun, fa_rows: bool, rounds: nat, committed: nat)
    requires
        run.burst_gate(fa_rows),
        rounds < run.opts.burst_m,
        committed <= rounds * (run.k_cap + 1),
    ensures
        run.pos + committed + run.k_cap + 1 + run.k_cap + 2 <= run.max_ctx,
        run.out@.len() + committed + run.k_cap + 1 <= run.max_new,
        run.pos + committed > run.model.win_main <==> run.pos > run.model.win_main,
        fa_rows && run.opts.pmin_zero && run.model.shared_kv_layers == 0,
{
    let k = run.k_cap + 1;
    assert(rounds * k + k <= run.opts.burst_m * k) by (nonlinear_arith)
        requires
            rounds + 1 <= run.opts.burst_m,
            0 <= k,
    ;
    law_one_sided(run, run.horizon(), run.pos + committed);
}

/// A captured round that may run serves two rounds within the context, with the same kernels.
pub proof fn law_round_stays_inside(run: SpecRun, fa_rows: bool, committed: nat)
    requires
        run.round_gate(fa_rows),
        committed <= 2 * (run.k_cap + 1),
    ensures
        run.pos + committed + run.k_cap + 2 <= run.max_ctx,
        run.pos + committed > run.model.win_main <==> run.pos > run.model.win_main,
        run.opts.burst_m == 0 && run.opts.round_graph && run.opts.dc,
        fa_rows && run.opts.pmin_zero && run.model.shared_kv_layers == 0 && !run.model.e4b,
{
    law_one_sided(run, (2 * (run.k_cap + 1)) as nat, run.pos + committed);
}

/// The longest length is one of them, and none is longer.
pub proof fn law_longest(kv: Seq<Option<usize>>)
    ensures
        match longest(kv) {
            Some(m) => {
                &&& forall|i: int|
                    0 <= i < kv.len() ==> (#[trigger] kv[i] matches Some(l) ==> l <= m)
                &&& exists|i: int|
                    0 <= i < kv.len() && (#[trigger] kv[i] matches Some(l) && l == m)
            },
            None => forall|i: int| 0 <= i < kv.len() ==> #[trigger] kv[i] is None,
        },
    decreases kv.len(),
{
    if kv.len() > 0 {
        let d = kv.drop_last();
        let n = kv.len() - 1;
        law_longest(d);
        assert forall|i: int| 0 <= i < n implies #[trigger] kv[i] == d[i] by {}
        assert(kv[n] == kv.last());
        match longest(d) {
            Some(m) => {
                let i = choose|i: int|
                    0 <= i < d.len() && (#[trigger] d[i] matches Some(l) && l == m);
                assert(kv[i] == d[i]);
                assert forall|j: int| 0 <= j < kv.len() implies (#[trigger] kv[j] matches Some(l)
                    ==> l <= longest(kv)->0) by {
                    if j < n {
                        assert(kv[j] == d[j]);
                    }
                }
            },
            None => {
                assert forall|j: int| 0 <= j < n implies #[trigger] kv[j] is None by {
                    assert(kv[j] == d[j]);
                }
            },
        }
    }
}

/// The grid of a round covers every cache at its longest: its rows, what a burst may commit, and
/// the drafts of a round.
pub proof fn law_grid_covers(run: SpecRun, burst: bool, i: int)
    requires
        0 <= i < run.kv_len@.len(),
        run.kv_len@[i] is Some,
    ensures
        run.grid(burst) >= run.kv_len@[i]->0 + run.k_cap + 2,
        burst ==> run.grid(true) >= run.kv_len@[i]->0 + run.opts.burst_m * (run.k_cap + 1)
            + run.k_cap + 2,
{
    law_longest(run.kv_len@);
    law_rung(run.grid_need(burst));
    assert(0 <= run.opts.burst_m * (run.k_cap + 1)) by (nonlinear_arith);
}

/// The depth follows what was accepted: one more than that where floor and cap allow it, never
/// less after more, and never deeper for a doubt.
pub proof fn law_depth_follows_acceptance(
    m: nat,
    more: nat,
    floor: nat,
    k_cap: nat,
    low: Option<nat>,
)
    requires
        m <= more,
    ensures
        floor <= m + 1 <= k_cap ==> next_depth(m, floor, k_cap, None) == m + 1,
        next_depth(m, floor, k_cap, low) <= next_depth(more, floor, k_cap, low),
        next_depth(m, floor, k_cap, low) <= next_depth(m, floor, k_cap, None),
        low matches Some(f) ==> floor <= f + 1 ==> next_depth(m, floor, k_cap, low) <= f + 1,
{
}

/// The deepest draft is the lesser of what is asked for and the ceiling, and at least one.
pub proof fn law_depth_cap(k: nat, cap_max: nat)
    ensures
        depth_cap(k, cap_max) >= 1,
        k >= 1 && cap_max >= 1 ==> depth_cap(k, cap_max) <= k && depth_cap(k, cap_max) <= cap_max
            && (depth_cap(k, cap_max) == k || depth_cap(k, cap_max) == cap_max),
        k == 0 || cap_max == 0 ==> depth_cap(k, cap_max) == 1,
{
}

/// Every cache holds as many rows as the main model has tokens.
pub open spec fn in_step(kv: Seq<Option<usize>>, pos: int) -> bool {
    forall|i: int| 0 <= i < kv.len() ==> (#[trigger] kv[i] matches Some(l) ==> l == pos)
}

/// Caches stay in step with the position: a round that moves it by `n` adds `n` rows to each, and
/// one that the device counted sets each to what it counted. Layers without a cache get none.
pub proof fn law_lengths_stay_in_step(kv: Seq<Option<usize>>, pos: usize, n: usize)
    requires
        pos + n <= usize::MAX,
    ensures
        in_step(kv, pos as int) ==> in_step(lengths_grown(kv, n), pos + n),
        in_step(lengths_set(kv, pos), pos as int),
        lengths_grown(kv, n).len() == kv.len(),
        lengths_set(kv, pos).len() == kv.len(),
        forall|i: int|
            0 <= i < kv.len() ==> (#[trigger] kv[i] is Some <==> lengths_grown(kv, n)[i] is Some)
                && (kv[i] is Some <==> lengths_set(kv, pos)[i] is Some),
{
    if in_step(kv, pos as int) {
        let g = lengths_grown(kv, n);
        assert forall|i: int| 0 <= i < g.len() implies (#[trigger] g[i] matches Some(l) ==> l == pos
            + n) by {
            assert(kv[i] matches Some(l) ==> l == pos);
        }
    }
}

/// A round counts once at each place that it reached, and nowhere else.
pub proof fn law_bumped(counts: Seq<usize>, n: nat, j: int)
    requires
        0 <= j < counts.len(),
        counts[j] < usize::MAX,
    ensures
        bumped(counts, n).len() == counts.len(),
        j < n ==> bumped(counts, n)[j] == counts[j] + 1,
        j >= n ==> bumped(counts, n)[j] == counts[j],
{
}

} // verus!
