//! Checks that compare two ways of computing the same, and the measures of a replay.

use vstd::prelude::*;
use vstd::slice::slice_subrange;

use crate::floats;
use crate::greedy;
use crate::greedy::{accepted_prefix, first_divergence};
use crate::settings;

verus! {

/// One scored position of a replay: what was drafted there, and what the model itself picks.
pub struct ReplayRow {
    pub pos: usize,
    pub drafts: Vec<u32>,
    pub targets: Vec<u32>,
}

/// Number of depth buckets.
pub const N_BUCKETS: usize = 7;

/// Where bucket `i` starts; the one before it ends there.
pub open spec fn edge(i: int) -> int {
    if i <= 0 {
        0
    } else if i == 1 {
        512
    } else if i == 2 {
        2048
    } else if i == 3 {
        8192
    } else if i == 4 {
        16384
    } else if i == 5 {
        32768
    } else if i == 6 {
        65536
    } else {
        usize::MAX as int
    }
}

fn edge_at(i: usize) -> (r: usize)
    ensures
        r == edge(i as int),
{
    if i == 0 {
        0
    } else if i == 1 {
        512
    } else if i == 2 {
        2048
    } else if i == 3 {
        8192
    } else if i == 4 {
        16384
    } else if i == 5 {
        32768
    } else if i == 6 {
        65536
    } else {
        usize::MAX
    }
}

/// The positions of bucket `i`: from the first up to, not including, the second.
pub fn bucket(i: usize) -> (r: (usize, usize))
    requires
        i < N_BUCKETS,
    ensures
        r.0 == edge(i as int),
        r.1 == edge(i + 1),
{
    (edge_at(i), edge_at(i + 1))
}

/// Position `p` lies in bucket `b`.
pub open spec fn lies_in(p: int, b: int) -> bool {
    edge(b) <= p < edge(b + 1)
}

/// Every position but the largest lies in exactly one bucket.
pub proof fn law_buckets_partition(p: usize)
    requires
        p < usize::MAX,
    ensures
        exists|b: int| 0 <= b < N_BUCKETS && #[trigger] lies_in(p as int, b),
        forall|a: int, b: int|
            0 <= a < N_BUCKETS && 0 <= b < N_BUCKETS && #[trigger] lies_in(p as int, a)
                && #[trigger] lies_in(p as int, b) ==> a == b,
{
    let b: int = if p < 512 {
        0
    } else if p < 2048 {
        1
    } else if p < 8192 {
        2
    } else if p < 16384 {
        3
    } else if p < 32768 {
        4
    } else if p < 65536 {
        5
    } else {
        6
    };
    assert(lies_in(p as int, b));
}

/// How many rows lie between `lo` and `hi`.
pub open spec fn rows_between(rows: Seq<ReplayRow>, lo: int, hi: int) -> nat
    decreases rows.len(),
{
    if rows.len() == 0 {
        0
    } else {
        rows_between(rows.drop_last(), lo, hi) + (if lo <= rows.last().pos < hi {
            1nat
        } else {
            0nat
        })
    }
}

/// How many of them drafted token `j` right.
pub open spec fn hits_between(rows: Seq<ReplayRow>, lo: int, hi: int, j: int) -> nat
    decreases rows.len(),
{
    if rows.len() == 0 {
        0
    } else {
        hits_between(rows.drop_last(), lo, hi, j) + (if lo <= rows.last().pos < hi
            && rows.last().drafts@[j] == rows.last().targets@[j] {
            1nat
        } else {
            0nat
        })
    }
}

/// The tokens that they drafted right before the first wrong one, of the first `k`.
pub open spec fn chain_between(rows: Seq<ReplayRow>, lo: int, hi: int, k: int) -> nat
    decreases rows.len(),
{
    if rows.len() == 0 {
        0
    } else {
        chain_between(rows.drop_last(), lo, hi, k) + (if lo <= rows.last().pos < hi {
            greedy::accepted_len(rows.last().drafts@.take(k), rows.last().targets@.take(k))
        } else {
            0nat
        })
    }
}

/// Measures of the rows of one bucket.
pub struct BucketStats {
    /// Rows.
    pub n: usize,
    /// Rows that drafted token `j` right.
    pub slot_hits: Vec<usize>,
    /// Tokens drafted right before the first wrong one.
    pub chain: usize,
}

proof fn lemma_rows_bound(rows: Seq<ReplayRow>, lo: int, hi: int)
    ensures
        rows_between(rows, lo, hi) <= rows.len(),
    decreases rows.len(),
{
    if rows.len() > 0 {
        lemma_rows_bound(rows.drop_last(), lo, hi);
    }
}

proof fn lemma_hits_bound(rows: Seq<ReplayRow>, lo: int, hi: int, j: int)
    ensures
        hits_between(rows, lo, hi, j) <= rows.len(),
    decreases rows.len(),
{
    if rows.len() > 0 {
        lemma_hits_bound(rows.drop_last(), lo, hi, j);
    }
}

/// The measures of the rows between `lo` and `hi`, for chains of `k` drafts.
pub fn bucket_stats(rows: &[ReplayRow], lo: usize, hi: usize, k: usize) -> (r: BucketStats)
    requires
        forall|i: int|
            0 <= i < rows@.len() ==> #[trigger] rows@[i].drafts@.len() >= k
                && rows@[i].targets@.len() >= k,
        rows@.len() * k <= usize::MAX,
    ensures
        r.n == rows_between(rows@, lo as int, hi as int),
        r.slot_hits@.len() == k,
        forall|j: int|
            0 <= j < k ==> #[trigger] r.slot_hits@[j] == hits_between(
                rows@,
                lo as int,
                hi as int,
                j,
            ),
        r.chain == chain_between(rows@, lo as int, hi as int, k as int),
{
    let mut n: usize = 0;
    let mut slot_hits: Vec<usize> = vec![0usize; k];
    let mut chain: usize = 0;
    let mut i: usize = 0;
    let len = rows.len();
    while i < len
        invariant
            i <= len,
            len == rows@.len(),
            len * k <= usize::MAX,
            forall|i: int|
                0 <= i < rows@.len() ==> #[trigger] rows@[i].drafts@.len() >= k
                    && rows@[i].targets@.len() >= k,
            n == rows_between(rows@.take(i as int), lo as int, hi as int),
            slot_hits@.len() == k,
            forall|j: int|
                0 <= j < k ==> #[trigger] slot_hits@[j] == hits_between(
                    rows@.take(i as int),
                    lo as int,
                    hi as int,
                    j,
                ),
            chain == chain_between(rows@.take(i as int), lo as int, hi as int, k as int),
            chain <= i * k,
        decreases len - i,
    {
        let row = &rows[i];
        let ghost t = rows@.take(i + 1);
        let ghost t0 = rows@.take(i as int);
        proof {
            assert(t.drop_last() =~= t0);
            assert(t.last() == rows@[i as int]);
            assert(rows@[i as int].drafts@.len() >= k);
            lemma_rows_bound(t0, lo as int, hi as int);
            assert(i * k + k == (i + 1) * k) by (nonlinear_arith);
            assert((i + 1) * k <= len * k) by (nonlinear_arith)
                requires
                    i < len,
            ;
        }
        if lo <= row.pos && row.pos < hi {
            n += 1;
            let mut j: usize = 0;
            while j < k
                invariant
                    j <= k,
                    k <= row.drafts@.len(),
                    k <= row.targets@.len(),
                    slot_hits@.len() == k,
                    t0.len() == i,
                    i < usize::MAX,
                    forall|m: int|
                        0 <= m < j ==> #[trigger] slot_hits@[m] == hits_between(
                            t0,
                            lo as int,
                            hi as int,
                            m,
                        ) + (if row.drafts@[m] == row.targets@[m] {
                            1nat
                        } else {
                            0nat
                        }),
                    forall|m: int|
                        j <= m < k ==> #[trigger] slot_hits@[m] == hits_between(
                            t0,
                            lo as int,
                            hi as int,
                            m,
                        ),
                decreases k - j,
            {
                if row.drafts[j] == row.targets[j] {
                    proof {
                        lemma_hits_bound(t0, lo as int, hi as int, j as int);
                    }
                    let h = slot_hits[j];
                    slot_hits.set(j, h + 1);
                }
                j += 1;
            }
            let d = slice_subrange(row.drafts.as_slice(), 0, k);
            let g = slice_subrange(row.targets.as_slice(), 0, k);
            assert(d@ =~= row.drafts@.take(k as int));
            assert(g@ =~= row.targets@.take(k as int));
            let c = accepted_prefix(d, g);
            chain += c;
        }
        i += 1;
    }
    assert(rows@.take(len as int) =~= rows@);
    BucketStats { n, slot_hits, chain }
}

/// How many of the places from `from` up to `to` hold different tokens.
pub open spec fn differing(a: Seq<u32>, b: Seq<u32>, from: int, to: int) -> nat
    decreases to - from,
{
    if to <= from {
        0
    } else {
        differing(a, b, from, to - 1) + (if a[to - 1] != b[to - 1] {
            1nat
        } else {
            0nat
        })
    }
}

/// The rows whose whole chain lies within the first `n` positions.
pub open spec fn rows_within(rows: Seq<ReplayRow>, k: int, n: int) -> Seq<ReplayRow>
    decreases rows.len(),
{
    if rows.len() == 0 {
        Seq::empty()
    } else {
        let rest = rows_within(rows.drop_last(), k, n);
        if rows.last().pos + k <= n {
            rest.push(rows.last())
        } else {
            rest
        }
    }
}

/// How many of the first `m` pairs are of different positions or hold different drafts.
pub open spec fn unlike(a: Seq<ReplayRow>, b: Seq<ReplayRow>, m: int) -> nat
    decreases m,
{
    if m <= 0 {
        0
    } else {
        unlike(a, b, m - 1) + (if a[m - 1].pos != b[m - 1].pos || a[m - 1].drafts@ != b[m
            - 1].drafts@ {
            1nat
        } else {
            0nat
        })
    }
}

/// The smaller of two lengths.
pub open spec fn shorter(a: int, b: int) -> int {
    if a <= b {
        a
    } else {
        b
    }
}

proof fn lemma_unlike_prefix(a: Seq<ReplayRow>, x: ReplayRow, b: Seq<ReplayRow>, m: int)
    requires
        0 <= m <= a.len(),
    ensures
        unlike(a.push(x), b, m) == unlike(a, b, m),
        unlike(a, b, m) <= m,
    decreases m,
{
    if m > 0 {
        lemma_unlike_prefix(a, x, b, m - 1);
        assert(a.push(x)[m - 1] == a[m - 1]);
    }
}

proof fn lemma_differing_bound(a: Seq<u32>, b: Seq<u32>, from: int, to: int)
    requires
        from <= to,
    ensures
        differing(a, b, from, to) <= to - from,
    decreases to - from,
{
    if from < to {
        lemma_differing_bound(a, b, from, to - 1);
    }
}

/// Counts the mismatches of two replays of the first `n` positions with different chunk sizes:
/// the model's own picks, and the drafts of every position whose chain lies within the prefix.
pub fn chunk_mismatches(
    picks: &[u32],
    picks_again: &[u32],
    n: usize,
    rows: &[ReplayRow],
    rows_again: &[ReplayRow],
    k: usize,
) -> (bad: usize)
    requires
        n <= picks@.len() + 1,
        n <= picks_again@.len() + 1,
        n + rows_again@.len() <= usize::MAX,
        forall|i: int| 0 <= i < rows@.len() ==> #[trigger] rows@[i].pos + k <= usize::MAX,
    ensures
        bad == differing(picks@, picks_again@, 1, n - 1) + unlike(
            rows_within(rows@, k as int, n as int),
            rows_again@,
            shorter(
                rows_within(rows@, k as int, n as int).len() as int,
                rows_again@.len() as int,
            ),
        ),
{
    let mut bad: usize = 0;
    let mut i: usize = 1;
    while i < n && i < n - 1
        invariant
            1 <= i,
            i <= n - 1 || (n <= 1 && i == 1),
            n <= picks@.len() + 1,
            n <= picks_again@.len() + 1,
            bad == differing(picks@, picks_again@, 1, i as int),
            bad <= i,
        decreases n - i,
    {
        if picks[i] != picks_again[i] {
            bad += 1;
        }
        i += 1;
    }
    let ghost base = bad;
    proof {
        lemma_differing_bound(picks@, picks_again@, 1, i as int);
        assert(bad == differing(picks@, picks_again@, 1, n - 1));
        assert(base <= n);
    }
    let mut j: usize = 0;
    let mut p: usize = 0;
    let m = rows_again.len();
    while p < rows.len()
        invariant
            p <= rows@.len(),
            m == rows_again@.len(),
            j <= m,
            base <= n,
            n + m <= usize::MAX,
            forall|i: int| 0 <= i < rows@.len() ==> #[trigger] rows@[i].pos + k <= usize::MAX,
            j == shorter(
                rows_within(rows@.take(p as int), k as int, n as int).len() as int,
                m as int,
            ),
            bad == base + unlike(
                rows_within(rows@.take(p as int), k as int, n as int),
                rows_again@,
                j as int,
            ),
            bad <= base + j,
        decreases rows@.len() - p,
    {
        let row = &rows[p];
        let ghost t0 = rows@.take(p as int);
        let ghost kept = rows_within(t0, k as int, n as int);
        proof {
            assert(rows@.take(p + 1).drop_last() =~= t0);
            assert(rows@.take(p + 1).last() == rows@[p as int]);
            assert(rows@[p as int].pos + k <= usize::MAX);
            lemma_unlike_prefix(kept, rows@[p as int], rows_again@, j as int);
        }
        if row.pos + k <= n {
            if j < m {
                let other = &rows_again[j];
                let same = first_divergence(row.drafts.as_slice(), other.drafts.as_slice());
                assert(kept.push(rows@[p as int])[j as int] == rows@[p as int]);
                if row.pos != other.pos || same.is_some() {
                    bad += 1;
                }
                j += 1;
            }
        }
        p += 1;
    }
    assert(rows@.take(rows@.len() as int) =~= rows@);
    bad
}

/// Whether all streams are the same.
pub fn streams_identical(streams: &[Vec<u32>]) -> (r: bool)
    ensures
        r == forall|a: int, b: int|
            0 <= a < streams@.len() && 0 <= b < streams@.len() ==> #[trigger] streams@[a]@
                == #[trigger] streams@[b]@,
{
    let n = streams.len();
    if n == 0 {
        return true;
    }
    let mut i: usize = 1;
    while i < n
        invariant
            1 <= i <= n,
            n == streams@.len(),
            forall|a: int| 0 <= a < i ==> #[trigger] streams@[a]@ == streams@[0]@,
        decreases n - i,
    {
        if first_divergence(streams[i - 1].as_slice(), streams[i].as_slice()).is_some() {
            assert(streams@[i - 1]@ != streams@[i as int]@);
            return false;
        }
        assert(streams@[i - 1]@ == streams@[0]@);
        i += 1;
    }
    true
}

/// The number of lockstep streams: as set, from 1 to 16, and otherwise 2.
pub fn stream_count(setting: Option<&str>) -> (r: usize)
    ensures
        r == ({
            let n = settings::number(setting, 2, usize::MAX as nat);
            if 1 <= n <= 16 {
                n
            } else {
                2
            }
        }),
{
    let n = settings::number_or(setting, 2);
    if 1 <= n && n <= 16 {
        n
    } else {
        2
    }
}

/// Steps within which the two decoding paths must pick the same tokens.
pub const DRIFT_FREE_STEPS: usize = 16;

/// A strict comparison gives up after this many differing steps.
pub const MAX_BIT_FAILS: usize = 3;

/// The comparison of batches of one with plain decoding steps, so far.
#[derive(Clone, Copy, Debug, PartialEq, Eq, Structural)]
pub struct FirstGate {
    pub fails: usize,
    /// No further step is compared.
    pub over: bool,
    /// The paths parted late enough to be accepted.
    pub drifted: bool,
}

/// The comparison after step `s`, with the logits of both paths.
pub open spec fn gate_after(
    g: FirstGate,
    strict: bool,
    s: int,
    plain: Seq<u32>,
    batched: Seq<u32>,
) -> FirstGate {
    let bits = strict && plain != batched;
    let fails = g.fails + (if bits {
        1int
    } else {
        0int
    });
    if bits && fails > MAX_BIT_FAILS {
        FirstGate { fails: fails as usize, over: true, ..g }
    } else if floats::argmax_of(plain) != floats::argmax_of(batched) {
        if strict || s < DRIFT_FREE_STEPS {
            FirstGate { fails: (fails + 1) as usize, over: true, ..g }
        } else {
            FirstGate { fails: fails as usize, over: true, drifted: true }
        }
    } else {
        FirstGate { fails: fails as usize, ..g }
    }
}

impl FirstGate {
    /// A comparison before its first step.
    pub fn new() -> (r: FirstGate)
        ensures
            r == (FirstGate { fails: 0, over: false, drifted: false }),
    {
        FirstGate { fails: 0, over: false, drifted: false }
    }

    /// Compares step `s`: a strict comparison asks for the same bits and the same token, another
    /// for the same token within the first steps. Returns the token to go on with.
    pub fn compare(&mut self, strict: bool, s: usize, plain: &[u32], batched: &[u32]) -> (r: Option<
        usize,
    >)
        requires
            old(self).fails <= MAX_BIT_FAILS,
            !old(self).over,
        ensures
            *final(self) == gate_after(*old(self), strict, s as int, plain@, batched@),
            final(self).fails <= MAX_BIT_FAILS + 2,
            r is None <==> final(self).over,
            r matches Some(t) ==> t == floats::argmax_of(plain@) && final(self).fails
                <= MAX_BIT_FAILS,
    {
        let same = first_divergence(plain, batched).is_none();
        if strict && !same {
            self.fails += 1;
            if self.fails > MAX_BIT_FAILS {
                self.over = true;
                return None;
            }
        }
        let (a, b) = (floats::argmax(plain), floats::argmax(batched));
        if a != b {
            if strict || s < DRIFT_FREE_STEPS {
                self.fails += 1;
            } else {
                self.drifted = true;
            }
            self.over = true;
            return None;
        }
        Some(a)
    }

    /// Whether the comparison found nothing to object to.
    pub fn passes(&self) -> (r: bool)
        ensures
            r == (self.fails == 0),
    {
        self.fails == 0
    }
}

/// Compares one sequence of a batch with its isolated run. The token must be the same. A strict
/// comparison is with plain decoding steps and asks no more; any other is with batches of one and
/// asks for every bit of the logits too. Returns the token and whether the comparison holds.
pub fn second_gate(strict: bool, logits: &[u32], alone_token: usize, alone: &[u32]) -> (r: (
    usize,
    bool,
))
    ensures
        r.0 == floats::argmax_of(logits@),
        r.1 == (r.0 == alone_token && (strict || logits@ == alone@)),
{
    let t = floats::argmax(logits);
    let same = first_divergence(logits, alone).is_none();
    (t, t == alone_token && (strict || same))
}

/// The comparison of batchmates with isolated runs gives up after a step that leaves more than this
/// many differences.
pub const MAX_SEQ_FAILS: usize = 6;

/// The comparison of batchmates with isolated runs, so far.
#[derive(Clone, Copy, Debug, PartialEq, Eq, Structural)]
pub struct SecondGate {
    pub fails: usize,
}

impl SecondGate {
    /// A comparison before its first step.
    pub fn new() -> (r: SecondGate)
        ensures
            r.fails == 0,
    {
        SecondGate { fails: 0 }
    }

    /// Compares one sequence of a step as `second_gate` does, and counts it where it differs.
    pub fn compare(
        &mut self,
        strict: bool,
        logits: &[u32],
        alone_token: usize,
        alone: &[u32],
    ) -> (r: (usize, bool))
        requires
            old(self).fails < usize::MAX,
        ensures
            r.0 == floats::argmax_of(logits@),
            r.1 == (r.0 == alone_token && (strict || logits@ == alone@)),
            final(self).fails == old(self).fails + (if r.1 {
                0int
            } else {
                1int
            }),
    {
        let r = second_gate(strict, logits, alone_token, alone);
        if !r.1 {
            self.fails += 1;
        }
        r
    }

    /// Whether no further step is compared.
    pub fn over(&self) -> (r: bool)
        ensures
            r == (self.fails > MAX_SEQ_FAILS),
    {
        self.fails > MAX_SEQ_FAILS
    }

    /// Whether the comparison found nothing to object to.
    pub fn passes(&self) -> (r: bool)
        ensures
            r == (self.fails == 0),
    {
        self.fails == 0
    }
}

/// A batch that keeps its sequences apart passes: the same logits give the same tokens.
pub proof fn law_same_logits_pass(g: FirstGate, strict: bool, s: int, logits: Seq<u32>)
    ensures
        gate_after(g, strict, s, logits, logits) == g,
{
}

/// Nothing is counted as different exactly where nothing is.
pub proof fn law_no_difference(a: Seq<u32>, b: Seq<u32>, from: int, to: int)
    ensures
        differing(a, b, from, to) == 0 <==> forall|i: int| from <= i < to ==> a[i] == b[i],
    decreases to - from,
{
    if from < to {
        law_no_difference(a, b, from, to - 1);
        if differing(a, b, from, to) != 0 && a[to - 1] == b[to - 1] {
            let i = choose|i: int| from <= i < to - 1 && a[i] != b[i];
            assert(a[i] != b[i]);
        }
    }
}

/// Two replays' rows are counted as unlike exactly where a position or a draft differs.
pub proof fn law_no_unlike_rows(a: Seq<ReplayRow>, b: Seq<ReplayRow>, m: int)
    ensures
        unlike(a, b, m) == 0 <==> forall|i: int|
            0 <= i < m ==> (#[trigger] a[i]).pos == b[i].pos && a[i].drafts@ == b[i].drafts@,
    decreases m,
{
    if m > 0 {
        law_no_unlike_rows(a, b, m - 1);
        let x = a[m - 1];
        if unlike(a, b, m) != 0 && x.pos == b[m - 1].pos && x.drafts@ == b[m - 1].drafts@ {
            let i = choose|i: int|
                0 <= i < m - 1 && !((#[trigger] a[i]).pos == b[i].pos && a[i].drafts@
                    == b[i].drafts@);
            assert(a[i].pos != b[i].pos || a[i].drafts@ != b[i].drafts@);
        }
    }
}

/// The rows that are compared are those whose last draft still lies within the prefix.
pub proof fn law_rows_within(rows: Seq<ReplayRow>, k: int, n: int, x: ReplayRow)
    ensures
        rows_within(rows, k, n).contains(x) <==> rows.contains(x) && x.pos + k <= n,
    decreases rows.len(),
{
    if rows.len() > 0 {
        let d = rows.drop_last();
        law_rows_within(d, k, n, x);
        broadcast use vstd::seq_lib::group_seq_properties;

        assert(rows =~= d.push(rows.last()));
        assert(rows.contains(x) <==> d.contains(x) || x == rows.last());
    }
}

/// The buckets count every row, and each once.
pub proof fn law_buckets_count_all(rows: Seq<ReplayRow>)
    requires
        forall|i: int| 0 <= i < rows.len() ==> (#[trigger] rows[i]).pos < usize::MAX,
    ensures
        rows_between(rows, edge(0), edge(1)) + rows_between(rows, edge(1), edge(2)) + rows_between(
            rows,
            edge(2),
            edge(3),
        ) + rows_between(rows, edge(3), edge(4)) + rows_between(rows, edge(4), edge(5))
            + rows_between(rows, edge(5), edge(6)) + rows_between(rows, edge(6), edge(7))
            == rows.len(),
    decreases rows.len(),
{
    if rows.len() > 0 {
        let d = rows.drop_last();
        assert forall|i: int| 0 <= i < d.len() implies (#[trigger] d[i]).pos < usize::MAX by {
            assert(d[i] == rows[i]);
        }
        assert(rows.last().pos < usize::MAX) by {
            assert(rows[rows.len() - 1].pos < usize::MAX);
        }
        law_buckets_count_all(d);
    }
}

/// Where every draft is what the model picks, each slot counts every row of the bucket, and each
/// row adds a whole chain.
pub proof fn law_right_drafts(rows: Seq<ReplayRow>, lo: int, hi: int, k: int)
    requires
        0 <= k,
        forall|i: int|
            0 <= i < rows.len() ==> (#[trigger] rows[i]).drafts@.len() >= k && rows[i].targets@
                == rows[i].drafts@,
    ensures
        forall|j: int|
            0 <= j < k ==> #[trigger] hits_between(rows, lo, hi, j) == rows_between(rows, lo, hi),
        chain_between(rows, lo, hi, k) == k * rows_between(rows, lo, hi),
    decreases rows.len(),
{
    if rows.len() > 0 {
        let d = rows.drop_last();
        let x = rows.last();
        assert(x == rows[rows.len() - 1]);
        assert forall|i: int| 0 <= i < d.len() implies (#[trigger] d[i]).drafts@.len() >= k
            && d[i].targets@ == d[i].drafts@ by {
            assert(d[i] == rows[i]);
        }
        law_right_drafts(d, lo, hi, k);
        let t = x.drafts@.take(k);
        greedy::lemma_accepted_len(t, t);
        assert(greedy::agrees_for(t, t, k));
        let r = rows_between(d, lo, hi);
        assert(k * (r + 1) == k * r + k) by (nonlinear_arith);
        assert forall|j: int| 0 <= j < k implies #[trigger] hits_between(rows, lo, hi, j)
            == rows_between(rows, lo, hi) by {
            assert(hits_between(d, lo, hi, j) == rows_between(d, lo, hi));
        }
    } else {
        assert(k * 0 == 0);
    }
}

/// A slot that is never drafted right has no hits, and rows whose first draft is wrong add
/// nothing to the chains.
pub proof fn law_wrong_drafts(rows: Seq<ReplayRow>, lo: int, hi: int, k: int, j: int)
    requires
        0 <= j < k,
        forall|i: int|
            0 <= i < rows.len() ==> (#[trigger] rows[i]).drafts@.len() >= k
                && rows[i].targets@.len() >= k && rows[i].drafts@[j] != rows[i].targets@[j],
    ensures
        hits_between(rows, lo, hi, j) == 0,
        j == 0 ==> chain_between(rows, lo, hi, k) == 0,
    decreases rows.len(),
{
    if rows.len() > 0 {
        let d = rows.drop_last();
        let x = rows.last();
        assert(x == rows[rows.len() - 1]);
        assert forall|i: int| 0 <= i < d.len() implies (#[trigger] d[i]).drafts@.len() >= k
            && d[i].targets@.len() >= k && d[i].drafts@[j] != d[i].targets@[j] by {
            assert(d[i] == rows[i]);
        }
        law_wrong_drafts(d, lo, hi, k, j);
    }
}

/// What a comparison objects to: a token that differs, unless the paths may have drifted by then,
/// and with a strict one any bit. A differing token ends it, and so do too many differing bits;
/// nothing is taken back.
pub proof fn law_comparison(
    g: FirstGate,
    strict: bool,
    s: int,
    plain: Seq<u32>,
    batched: Seq<u32>,
)
    requires
        !g.over,
        !g.drifted,
        g.fails <= MAX_BIT_FAILS,
    ensures
        ({
            let h = gate_after(g, strict, s, plain, batched);
            let same_token = floats::argmax_of(plain) == floats::argmax_of(batched);
            let same_bits = plain == batched;
            &&& h.fails >= g.fails
            &&& h.fails == g.fails <==> (same_token || !strict && s >= DRIFT_FREE_STEPS) && (
            same_bits || !strict)
            &&& !same_token ==> h.over
            &&& h.over && same_token ==> strict && !same_bits && g.fails == MAX_BIT_FAILS
            &&& h.drifted ==> !same_token && !strict && s >= DRIFT_FREE_STEPS && h.fails == g.fails
        }),
{
}

} // verus!
