//! Ranked draft vocabularies: counting tokens, ranking them, and the file that holds a ranking.

use vstd::prelude::*;
use vstd::slice::{slice_subrange, slice_to_vec};
use vstd::string::*;

use crate::bytes;
use crate::draft_head;
use crate::json;
use crate::text;

verus! {

/// How often `v` occurs in `ids`.
pub open spec fn occurrences(ids: Seq<u32>, v: int) -> nat
    decreases ids.len(),
{
    if ids.len() == 0 {
        0
    } else {
        occurrences(ids.drop_last(), v) + (if ids.last() == v {
            1nat
        } else {
            0nat
        })
    }
}

/// How many of `ids` are tokens below `vocab`.
pub open spec fn known(ids: Seq<u32>, vocab: int) -> nat
    decreases ids.len(),
{
    if ids.len() == 0 {
        0
    } else {
        known(ids.drop_last(), vocab) + (if ids.last() < vocab {
            1nat
        } else {
            0nat
        })
    }
}

proof fn lemma_occurrences_bound(ids: Seq<u32>, v: int)
    ensures
        occurrences(ids, v) <= ids.len(),
    decreases ids.len(),
{
    if ids.len() > 0 {
        lemma_occurrences_bound(ids.drop_last(), v);
    }
}

proof fn lemma_known_bound(ids: Seq<u32>, vocab: int)
    ensures
        known(ids, vocab) <= ids.len(),
    decreases ids.len(),
{
    if ids.len() > 0 {
        lemma_known_bound(ids.drop_last(), vocab);
    }
}

/// Counts the tokens of `ids`; ids beyond the vocabulary are passed over. Returns how many were
/// counted.
pub fn count_tokens(counts: &mut Vec<u64>, ids: &[u32]) -> (total: u64)
    requires
        ids@.len() <= u64::MAX,
        forall|v: int|
            0 <= v < old(counts)@.len() ==> #[trigger] old(counts)@[v] + ids@.len() <= u64::MAX,
    ensures
        final(counts)@.len() == old(counts)@.len(),
        forall|v: int|
            0 <= v < old(counts)@.len() ==> #[trigger] final(counts)@[v] == old(counts)@[v]
                + occurrences(ids@, v),
        total == known(ids@, old(counts)@.len() as int),
{
    let ghost c0 = counts@;
    let mut total: u64 = 0;
    let mut i: usize = 0;
    while i < ids.len()
        invariant
            i <= ids@.len() <= u64::MAX,
            counts@.len() == c0.len(),
            forall|v: int|
                0 <= v < c0.len() ==> #[trigger] c0[v] + ids@.len() <= u64::MAX,
            forall|v: int|
                0 <= v < c0.len() ==> #[trigger] counts@[v] == c0[v] + occurrences(
                    ids@.take(i as int),
                    v,
                ),
            total == known(ids@.take(i as int), c0.len() as int),
        decreases ids@.len() - i,
    {
        let id = ids[i] as usize;
        let ghost t = ids@.take(i + 1);
        proof {
            assert(t.drop_last() =~= ids@.take(i as int));
            assert(t.last() == ids@[i as int]);
            lemma_known_bound(ids@.take(i as int), c0.len() as int);
        }
        if id < counts.len() {
            proof {
                lemma_occurrences_bound(ids@.take(i as int), id as int);
                assert(c0[id as int] + ids@.len() <= u64::MAX);
                assert(counts@[id as int] == c0[id as int] + occurrences(
                    ids@.take(i as int),
                    id as int,
                ));
            }
            let c = counts[id];
            counts.set(id, c + 1);
            total += 1;
        }
        i += 1;
    }
    assert(ids@.take(ids@.len() as int) =~= ids@);
    total
}

/// Token `a` ranks before token `b`: it is more frequent, or as frequent with a smaller id.
pub open spec fn before(counts: Seq<u64>, a: u32, b: u32) -> bool {
    counts[a as int] > counts[b as int] || (counts[a as int] == counts[b as int] && a < b)
}

/// Every token ranks before those after it.
pub open spec fn ranked(counts: Seq<u64>, s: Seq<u32>) -> bool {
    forall|i: int, j: int| 0 <= i < j < s.len() ==> before(counts, #[trigger] s[i], #[trigger] s[j])
}

/// `s` holds exactly the tokens from `lo` up to `hi`.
pub open spec fn holds_range(s: Seq<u32>, lo: int, hi: int) -> bool {
    forall|x: u32| #[trigger] s.contains(x) <==> lo <= x < hi
}

/// `s` is the whole vocabulary in the order of its ranks.
pub open spec fn is_ranking(counts: Seq<u64>, s: Seq<u32>) -> bool {
    s.len() == counts.len() && ranked(counts, s) && holds_range(s, 0, counts.len() as int)
}

fn comes_before(counts: &[u64], a: u32, b: u32) -> (r: bool)
    requires
        a < counts@.len(),
        b < counts@.len(),
    ensures
        r == before(counts@, a, b),
{
    let (ca, cb) = (counts[a as usize], counts[b as usize]);
    ca > cb || (ca == cb && a < b)
}

fn merge(
    counts: &[u64],
    a: &Vec<u32>,
    b: &Vec<u32>,
    Ghost(lo): Ghost<int>,
    Ghost(mid): Ghost<int>,
    Ghost(hi): Ghost<int>,
) -> (r: Vec<u32>)
    requires
        0 <= lo <= mid <= hi <= counts@.len(),
        a@.len() + b@.len() <= usize::MAX,
        ranked(counts@, a@),
        ranked(counts@, b@),
        holds_range(a@, lo, mid),
        holds_range(b@, mid, hi),
    ensures
        r@.len() == a@.len() + b@.len(),
        ranked(counts@, r@),
        holds_range(r@, lo, hi),
{
    let mut out: Vec<u32> = Vec::new();
    let mut i: usize = 0;
    let mut j: usize = 0;
    proof {
        assert forall|k: int| 0 <= k < a@.len() implies lo <= #[trigger] a@[k] < mid by {
            assert(a@.contains(a@[k]));
        }
        assert forall|k: int| 0 <= k < b@.len() implies mid <= #[trigger] b@[k] < hi by {
            assert(b@.contains(b@[k]));
        }
    }
    while i < a.len() || j < b.len()
        invariant
            i <= a@.len(),
            j <= b@.len(),
            0 <= lo <= mid <= hi <= counts@.len(),
            a@.len() + b@.len() <= usize::MAX,
            ranked(counts@, a@),
            ranked(counts@, b@),
            forall|k: int| 0 <= k < a@.len() ==> lo <= #[trigger] a@[k] < mid,
            forall|k: int| 0 <= k < b@.len() ==> mid <= #[trigger] b@[k] < hi,
            out@.len() == i + j,
            ranked(counts@, out@),
            forall|p: int, k: int|
                0 <= p < out@.len() && i <= k < a@.len() ==> before(
                    counts@,
                    #[trigger] out@[p],
                    #[trigger] a@[k],
                ),
            forall|p: int, k: int|
                0 <= p < out@.len() && j <= k < b@.len() ==> before(
                    counts@,
                    #[trigger] out@[p],
                    #[trigger] b@[k],
                ),
            forall|k: int| 0 <= k < i ==> out@.contains(#[trigger] a@[k]),
            forall|k: int| 0 <= k < j ==> out@.contains(#[trigger] b@[k]),
            forall|p: int| 0 <= p < out@.len() ==> lo <= #[trigger] out@[p] < hi,
        decreases a@.len() - i + b@.len() - j,
    {
        let from_a = if i < a.len() {
            if j < b.len() {
                comes_before(counts, a[i], b[j])
            } else {
                true
            }
        } else {
            false
        };
        let ghost o0 = out@;
        let x = if from_a {
            a[i]
        } else {
            b[j]
        };
        out.push(x);
        proof {
            assert(out@[o0.len() as int] == x);
            assert forall|k: int| 0 <= k < i implies out@.contains(#[trigger] a@[k]) by {
                assert(o0.contains(a@[k]));
                let q = choose|q: int| 0 <= q < o0.len() && o0[q] == a@[k];
                assert(out@[q] == a@[k]);
            }
            assert forall|k: int| 0 <= k < j implies out@.contains(#[trigger] b@[k]) by {
                assert(o0.contains(b@[k]));
                let q = choose|q: int| 0 <= q < o0.len() && o0[q] == b@[k];
                assert(out@[q] == b@[k]);
            }
            assert(out@.contains(x));
            assert forall|p: int, q: int| 0 <= p < q < out@.len() implies before(
                counts@,
                #[trigger] out@[p],
                #[trigger] out@[q],
            ) by {
                assert(out@[p] == o0[p]);
                if q < o0.len() {
                    assert(out@[q] == o0[q]);
                }
            }
        }
        if from_a {
            i += 1;
        } else {
            j += 1;
        }
        proof {
            assert forall|p: int, k: int|
                0 <= p < out@.len() && i <= k < a@.len() implies before(
                counts@,
                #[trigger] out@[p],
                #[trigger] a@[k],
            ) by {
                if p < o0.len() {
                    assert(out@[p] == o0[p]);
                }
            }
            assert forall|p: int, k: int|
                0 <= p < out@.len() && j <= k < b@.len() implies before(
                counts@,
                #[trigger] out@[p],
                #[trigger] b@[k],
            ) by {
                if p < o0.len() {
                    assert(out@[p] == o0[p]);
                }
            }
        }
    }
    proof {
        assert forall|x: u32| #[trigger] out@.contains(x) <==> lo <= x < hi by {
            if out@.contains(x) {
                let q = choose|q: int| 0 <= q < out@.len() && out@[q] == x;
                assert(lo <= out@[q] < hi);
            }
            if lo <= x < mid {
                assert(a@.contains(x));
                let q = choose|q: int| 0 <= q < a@.len() && a@[q] == x;
                assert(out@.contains(a@[q]));
            }
            if mid <= x < hi {
                assert(b@.contains(x));
                let q = choose|q: int| 0 <= q < b@.len() && b@[q] == x;
                assert(out@.contains(b@[q]));
            }
        }
    }
    out
}

fn rank_range(counts: &[u64], lo: usize, hi: usize) -> (r: Vec<u32>)
    requires
        lo <= hi <= counts@.len() <= u32::MAX,
    ensures
        r@.len() == hi - lo,
        ranked(counts@, r@),
        holds_range(r@, lo as int, hi as int),
    decreases hi - lo,
{
    if hi - lo == 0 {
        let r: Vec<u32> = Vec::new();
        r
    } else if hi - lo == 1 {
        let r: Vec<u32> = vec![lo as u32];
        proof {
            assert(r@ =~= seq![lo as u32]);
            assert forall|x: u32| #[trigger] r@.contains(x) <==> lo <= x < hi by {
                if x == lo {
                    assert(r@[0] == x);
                }
            }
        }
        r
    } else {
        let mid: usize = lo + (hi - lo) / 2;
        let a = rank_range(counts, lo, mid);
        let b = rank_range(counts, mid, hi);
        merge(counts, &a, &b, Ghost(lo as int), Ghost(mid as int), Ghost(hi as int))
    }
}

/// Ranks the vocabulary, the most frequent tokens first, and keeps the first `top_n`.
pub fn rank_top_n(counts: &[u64], top_n: usize) -> (r: Vec<u32>)
    requires
        counts@.len() <= u32::MAX,
    ensures
        exists|all: Seq<u32>| #[trigger]
            is_ranking(counts@, all) && r@ == all.take(
                if top_n <= counts@.len() {
                    top_n as int
                } else {
                    counts@.len() as int
                },
            ),
{
    let all = rank_range(counts, 0, counts.len());
    assert(is_ranking(counts@, all@));
    let n: usize = if top_n <= counts.len() {
        top_n
    } else {
        counts.len()
    };
    let r = slice_to_vec(slice_subrange(all.as_slice(), 0, n));
    assert(r@ =~= all@.take(n as int));
    r
}

proof fn lemma_same_order(counts: Seq<u64>, s: Seq<u32>, t: Seq<u32>)
    requires
        ranked(counts, s),
        ranked(counts, t),
        forall|x: u32| #[trigger] s.contains(x) <==> t.contains(x),
    ensures
        s == t,
    decreases s.len(),
{
    if s.len() == 0 {
        if t.len() > 0 {
            assert(t.contains(t[0]));
            assert(s.contains(t[0]));
        }
        assert(s =~= t);
    } else {
        assert(s.contains(s[0]));
        let k = choose|k: int| 0 <= k < t.len() && t[k] == s[0];
        assert(t.contains(t[0]));
        assert(s.contains(t[0]));
        let m = choose|m: int| 0 <= m < s.len() && s[m] == t[0];
        if k > 0 {
            assert(before(counts, t[0], t[k]));
            if m > 0 {
                assert(before(counts, s[0], s[m]));
            }
        }
        assert(s[0] == t[0]);
        let (s1, t1) = (s.skip(1), t.skip(1));
        assert(ranked(counts, s1)) by {
            assert forall|i: int, j: int| 0 <= i < j < s1.len() implies before(
                counts,
                #[trigger] s1[i],
                #[trigger] s1[j],
            ) by {
                assert(before(counts, s[i + 1], s[j + 1]));
            }
        }
        assert(ranked(counts, t1)) by {
            assert forall|i: int, j: int| 0 <= i < j < t1.len() implies before(
                counts,
                #[trigger] t1[i],
                #[trigger] t1[j],
            ) by {
                assert(before(counts, t[i + 1], t[j + 1]));
            }
        }
        assert forall|x: u32| #[trigger] s1.contains(x) <==> t1.contains(x) by {
            lemma_tail_contains(counts, s, t, x);
            lemma_tail_contains(counts, t, s, x);
        }
        lemma_same_order(counts, s1, t1);
        assert(s =~= seq![s[0]] + s1);
        assert(t =~= seq![t[0]] + t1);
    }
}

proof fn lemma_tail_contains(counts: Seq<u64>, s: Seq<u32>, t: Seq<u32>, x: u32)
    requires
        s.len() > 0,
        t.len() > 0,
        s[0] == t[0],
        ranked(counts, s),
        forall|y: u32| #[trigger] s.contains(y) ==> t.contains(y),
    ensures
        s.skip(1).contains(x) ==> t.skip(1).contains(x),
{
    if s.skip(1).contains(x) {
        let i = choose|i: int| 0 <= i < s.skip(1).len() && s.skip(1)[i] == x;
        assert(s[i + 1] == x);
        assert(before(counts, s[0], s[i + 1]));
        assert(s.contains(x));
        let k = choose|k: int| 0 <= k < t.len() && t[k] == x;
        assert(k > 0);
        assert(t.skip(1)[k - 1] == x);
    }
}

/// There is one ranking: frequencies and ids decide every place.
pub proof fn law_ranking_is_unique(counts: Seq<u64>, s: Seq<u32>, t: Seq<u32>)
    requires
        is_ranking(counts, s),
        is_ranking(counts, t),
    ensures
        s == t,
{
    assert forall|x: u32| #[trigger] s.contains(x) <==> t.contains(x) by {
        assert(s.contains(x) <==> 0 <= x < counts.len());
        assert(t.contains(x) <==> 0 <= x < counts.len());
    }
    lemma_same_order(counts, s, t);
}

/// How many counted tokens `ids` stand for.
pub open spec fn coverage(counts: Seq<u64>, ids: Seq<u32>) -> nat
    decreases ids.len(),
{
    if ids.len() == 0 {
        0
    } else {
        coverage(counts, ids.drop_last()) + counts[ids.last() as int] as nat
    }
}

proof fn lemma_coverage_grows(counts: Seq<u64>, ids: Seq<u32>, k: int)
    requires
        0 <= k <= ids.len(),
    ensures
        coverage(counts, ids.take(k)) <= coverage(counts, ids),
    decreases ids.len(),
{
    if k == ids.len() {
        assert(ids.take(k) =~= ids);
    } else {
        lemma_coverage_grows(counts, ids.drop_last(), k);
        assert(ids.drop_last().take(k) =~= ids.take(k));
    }
}

/// How many counted tokens `ids` stand for.
pub fn covered(counts: &[u64], ids: &[u32]) -> (r: u64)
    requires
        forall|i: int| 0 <= i < ids@.len() ==> #[trigger] ids@[i] < counts@.len(),
        coverage(counts@, ids@) <= u64::MAX,
    ensures
        r == coverage(counts@, ids@),
{
    let mut sum: u64 = 0;
    let mut i: usize = 0;
    while i < ids.len()
        invariant
            i <= ids@.len(),
            forall|k: int| 0 <= k < ids@.len() ==> #[trigger] ids@[k] < counts@.len(),
            coverage(counts@, ids@) <= u64::MAX,
            sum == coverage(counts@, ids@.take(i as int)),
        decreases ids@.len() - i,
    {
        proof {
            assert(ids@.take(i + 1).drop_last() =~= ids@.take(i as int));
            lemma_coverage_grows(counts@, ids@, i + 1);
        }
        sum += counts[ids[i] as usize];
        i += 1;
    }
    assert(ids@.take(ids@.len() as int) =~= ids@);
    sum
}

/// The bytes of `ids`, four each.
pub open spec fn id_bytes(ids: Seq<u32>) -> Seq<u8>
    decreases ids.len(),
{
    if ids.len() == 0 {
        Seq::empty()
    } else {
        id_bytes(ids.drop_last()) + bytes::le_bytes(ids.last() as nat, 4)
    }
}

/// The bytes of an ASCII text.
pub open spec fn ascii(s: Seq<char>) -> Seq<u8> {
    s.map_values(|c: char| c as u8)
}

/// What precedes the ids in a ranking file: magic, version 3, one tensor, one setting (the
/// alignment of 32), and the tensor `d2t` of 32-bit integers; then zeros up to the alignment.
pub open spec fn ranking_header(n: nat) -> Seq<u8> {
    ascii("GGUF"@) + bytes::le_bytes(3, 4) + bytes::le_bytes(1, 8) + bytes::le_bytes(1, 8)
        + bytes::le_bytes(17, 8) + ascii("general.alignment"@) + bytes::le_bytes(4, 4)
        + bytes::le_bytes(32, 4) + bytes::le_bytes(3, 8) + ascii("d2t"@) + bytes::le_bytes(1, 4)
        + bytes::le_bytes(n, 8) + bytes::le_bytes(26, 4) + bytes::le_bytes(0, 8)
        + bytes::le_bytes(0, 4)
}

/// A ranking file.
pub open spec fn ranking_file(ids: Seq<u32>) -> Seq<u8> {
    ranking_header(ids.len()) + id_bytes(ids)
}

fn push_ascii(out: &mut Vec<u8>, s: &str)
    requires
        forall|i: int| 0 <= i < s@.len() ==> #[trigger] s@[i] as u32 <= 127,
    ensures
        final(out)@ == old(out)@ + ascii(s@),
{
    let ghost o0 = out@;
    let n = s.unicode_len();
    let mut i: usize = 0;
    while i < n
        invariant
            i <= n,
            n == s@.len(),
            forall|k: int| 0 <= k < s@.len() ==> #[trigger] s@[k] as u32 <= 127,
            out@ == o0 + ascii(s@).take(i as int),
        decreases n - i,
    {
        let c = s.get_char(i);
        assert(s@[i as int] as u32 <= 127);
        out.push(c as u8);
        assert(out@ =~= o0 + ascii(s@).take(i + 1));
        i += 1;
    }
    assert(ascii(s@).take(n as int) =~= ascii(s@));
}

fn push_header(out: &mut Vec<u8>, n: u64)
    ensures
        final(out)@ == old(out)@ + ranking_header(n as nat),
{
    proof {
        reveal_strlit("GGUF");
        reveal_strlit("general.alignment");
        reveal_strlit("d2t");
    }
    let ghost o0 = out@;
    push_ascii(out, "GGUF");
    bytes::push_le(out, 3, 4);
    bytes::push_le(out, 1, 8);
    bytes::push_le(out, 1, 8);
    bytes::push_le(out, 17, 8);
    push_ascii(out, "general.alignment");
    bytes::push_le(out, 4, 4);
    bytes::push_le(out, 32, 4);
    bytes::push_le(out, 3, 8);
    push_ascii(out, "d2t");
    bytes::push_le(out, 1, 4);
    bytes::push_le(out, n, 8);
    bytes::push_le(out, 26, 4);
    bytes::push_le(out, 0, 8);
    bytes::push_le(out, 0, 4);
    assert(out@ =~= o0 + ranking_header(n as nat));
}

/// Writes a ranking file.
pub fn write_d2t(ids: &[u32]) -> (r: Vec<u8>)
    ensures
        r@ == ranking_file(ids@),
{
    let mut out: Vec<u8> = Vec::new();
    push_header(&mut out, ids.len() as u64);
    let ghost h = out@;
    assert(h =~= ranking_header(ids@.len()));
    let mut i: usize = 0;
    assert(out@ =~= h + id_bytes(ids@.take(0)));
    while i < ids.len()
        invariant
            i <= ids@.len(),
            out@ == h + id_bytes(ids@.take(i as int)),
        decreases ids@.len() - i,
    {
        bytes::push_le(&mut out, ids[i] as u64, 4);
        assert(ids@.take(i + 1).drop_last() =~= ids@.take(i as int));
        assert(out@ =~= h + id_bytes(ids@.take(i + 1)));
        i += 1;
    }
    assert(ids@.take(ids@.len() as int) =~= ids@);
    out
}

proof fn lemma_id_bytes(ids: Seq<u32>)
    ensures
        id_bytes(ids).len() == 4 * ids.len(),
        forall|i: int|
            0 <= i < ids.len() ==> bytes::le_value(
                #[trigger] id_bytes(ids).subrange(i * 4, i * 4 + 4),
            ) == ids[i],
    decreases ids.len(),
{
    reveal_with_fuel(bytes::pow256, 5);
    if ids.len() > 0 {
        let d = ids.drop_last();
        lemma_id_bytes(d);
        bytes::law_le_reads_back(ids.last() as nat, 4);
        let all = id_bytes(ids);
        assert forall|i: int| 0 <= i < ids.len() implies bytes::le_value(
            #[trigger] all.subrange(i * 4, i * 4 + 4),
        ) == ids[i] by {
            if i < d.len() {
                assert(all.subrange(i * 4, i * 4 + 4) =~= id_bytes(d).subrange(
                    i * 4,
                    i * 4 + 4,
                ));
                assert(d[i] == ids[i]);
            } else {
                assert(all.subrange(i * 4, i * 4 + 4) =~= bytes::le_bytes(
                    ids.last() as nat,
                    4,
                ));
            }
        }
    }
}

/// The header keeps the alignment, and the ids of a ranking file read back as they were written.
pub proof fn law_ranking_file_reads_back(ids: Seq<u32>)
    ensures
        ranking_header(ids.len()).len() == 96,
        draft_head::stored_ids(ranking_file(ids).skip(96), 4) == ids,
{
    reveal_strlit("GGUF");
    reveal_strlit("general.alignment");
    reveal_strlit("d2t");
    lemma_le_len(3, 4);
    lemma_le_len(1, 8);
    lemma_le_len(17, 8);
    lemma_le_len(4, 4);
    lemma_le_len(32, 4);
    lemma_le_len(3, 8);
    lemma_le_len(1, 4);
    lemma_le_len(ids.len(), 8);
    lemma_le_len(26, 4);
    lemma_le_len(0, 8);
    lemma_le_len(0, 4);
    lemma_id_bytes(ids);
    let raw = ranking_file(ids).skip(96);
    assert(raw =~= id_bytes(ids));
    let back = draft_head::stored_ids(raw, 4);
    assert(back.len() == ids.len());
    assert forall|i: int| 0 <= i < ids.len() implies back[i] == ids[i] by {
        assert(bytes::le_value(id_bytes(ids).subrange(i * 4, i * 4 + 4)) == ids[i]);
    }
    assert(back =~= ids);
}

proof fn lemma_le_len(v: nat, n: nat)
    ensures
        bytes::le_bytes(v, n).len() == n,
    decreases n,
{
    if n > 0 {
        lemma_le_len(v / 256, (n - 1) as nat);
    }
}

/// `s` without leading quotes.
pub open spec fn skip_quotes(s: Seq<char>) -> Seq<char>
    decreases s.len(),
{
    if s.len() > 0 && s[0] == '"' {
        skip_quotes(s.skip(1))
    } else {
        s
    }
}

/// `s` without trailing quotes.
pub open spec fn drop_quotes(s: Seq<char>) -> Seq<char>
    decreases s.len(),
{
    if s.len() > 0 && s.last() == '"' {
        drop_quotes(s.drop_last())
    } else {
        s
    }
}

/// `s` without quotes at its ends.
pub open spec fn unquoted(s: Seq<char>) -> Seq<char> {
    drop_quotes(skip_quotes(s))
}

/// The prompt on a line, white space around it aside: the text of the key `prompt` of a JSON
/// object, the text of a JSON string, or else the line itself without quotes at its ends. A value
/// of that key that is no complete JSON string is taken as it stands.
pub open spec fn prompt_on(line: Seq<char>) -> Seq<char> {
    let p = text::trim(line);
    match json::member(p, "prompt"@) {
        Some(v) => match json::string_at(p, v) {
            Some((t, _)) => t,
            None => unquoted(p.skip(v)),
        },
        None => match json::string_at(p, 0) {
            Some((t, e)) => if e == p.len() {
                t
            } else {
                unquoted(p)
            },
            None => unquoted(p),
        },
    }
}

fn strip_quotes(s: &[char]) -> (r: &[char])
    ensures
        r@ == unquoted(s@),
{
    let n = s.len();
    let mut i: usize = 0;
    assert(s@.skip(0) =~= s@);
    while i < n && s[i] == '"'
        invariant
            i <= n,
            n == s@.len(),
            skip_quotes(s@.skip(i as int)) == skip_quotes(s@),
        decreases n - i,
    {
        assert(s@.skip(i as int).skip(1) =~= s@.skip(i + 1));
        i += 1;
    }
    let t = slice_subrange(s, i, n);
    assert(t@ =~= s@.skip(i as int));
    let m = t.len();
    let mut j: usize = m;
    assert(t@.take(m as int) =~= t@);
    while j > 0 && t[j - 1] == '"'
        invariant
            j <= m,
            m == t@.len(),
            drop_quotes(t@.take(j as int)) == drop_quotes(t@),
        decreases j,
    {
        assert(t@.take(j as int).drop_last() =~= t@.take(j - 1));
        j -= 1;
    }
    assert(t@.subrange(0, j as int) =~= t@.take(j as int));
    slice_subrange(t, 0, j)
}

/// The prompt on a line; none where it is empty.
pub fn prompt_of_line(line: &[char]) -> (r: Option<Vec<char>>)
    ensures
        match r {
            Some(p) => p@ == prompt_on(line@) && p@.len() > 0,
            None => prompt_on(line@).len() == 0,
        },
{
    let p = text::trimmed(line);
    let n = p.len();
    let key = text::chars_of("prompt");
    let prompt: Vec<char> = match json::find_member(p, key.as_slice()) {
        Some(v) => match json::read_string(p, v) {
            Some((t, _)) => t,
            None => {
                let rest = slice_subrange(p, v, n);
                assert(rest@ =~= p@.skip(v as int));
                slice_to_vec(strip_quotes(rest))
            },
        },
        None => match json::read_string(p, 0) {
            Some((t, e)) => if e == n {
                t
            } else {
                slice_to_vec(strip_quotes(p))
            },
            None => slice_to_vec(strip_quotes(p)),
        },
    };
    if prompt.len() == 0 {
        None
    } else {
        Some(prompt)
    }
}

/// A JSON object whose first key is `prompt`, with `gap` before the value `t` and `post` behind it.
pub open spec fn prompt_object(gap: Seq<char>, t: Seq<char>, post: Seq<char>) -> Seq<char> {
    seq!['{'] + text::quoted("prompt"@) + seq![':'] + gap + json::json_string(t) + post
}

proof fn lemma_gap(s: Seq<char>, i: int, gap: Seq<char>)
    requires
        0 <= i,
        i + gap.len() < s.len(),
        s.subrange(i, i + gap.len()) == gap,
        forall|k: int| 0 <= k < gap.len() ==> json::is_json_space(#[trigger] gap[k]),
        !json::is_json_space(s[i + gap.len()]),
    ensures
        json::past_space(s, i) == i + gap.len(),
    decreases gap.len(),
{
    if gap.len() > 0 {
        assert(s[i] == gap[0]) by {
            assert(s.subrange(i, i + gap.len())[0] == s[i]);
        }
        assert(s.subrange(i + 1, i + gap.len()) =~= gap.skip(1)) by {
            assert forall|k: int| 0 <= k < gap.len() - 1 implies s[i + 1 + k] == gap.skip(1)[k] by {
                assert(s.subrange(i, i + gap.len())[k + 1] == s[i + 1 + k]);
            }
        }
        assert forall|k: int| 0 <= k < gap.skip(1).len() implies json::is_json_space(
            #[trigger] gap.skip(1)[k],
        ) by {
            assert(json::is_json_space(gap[k + 1]));
        }
        lemma_gap(s, i + 1, gap.skip(1));
    }
}

/// A line with a JSON object that begins with the key `prompt` gives back the text that was
/// written as its value, whatever stands behind it.
pub proof fn law_prompt_object_reads_back(gap: Seq<char>, t: Seq<char>, post: Seq<char>)
    requires
        forall|k: int| 0 <= k < gap.len() ==> json::is_json_space(#[trigger] gap[k]),
        post.len() > 0 ==> !text::is_space(post.last()),
    ensures
        prompt_on(prompt_object(gap, t, post)) == t,
{
    reveal_strlit("prompt");
    let s = prompt_object(gap, t, post);
    let pre = seq!['{'] + text::quoted("prompt"@) + seq![':'] + gap;
    let q = json::json_string(t);
    assert(s[0] == '{');
    assert(s.last() == (if post.len() > 0 {
        post.last()
    } else {
        '"'
    }));
    assert(text::trim(s) == s);
    assert(s[1] == '"' && s[2] == 'p' && s[3] == 'r' && s[4] == 'o' && s[5] == 'm' && s[6] == 'p'
        && s[7] == 't' && s[8] == '"' && s[9] == ':');
    assert(json::string_end(s, 2) == Some(8int)) by {
        reveal_with_fuel(json::string_end, 8);
    }
    assert(s.subrange(2, 8) =~= "prompt"@);
    assert(json::past_space(s, 9) == 9);
    let v = pre.len() as int;
    assert(v == 10 + gap.len());
    assert(s.subrange(10, v) =~= gap);
    assert(s[v] == q[0]);
    lemma_gap(s, 10, gap);
    json::law_json_string_is_found(pre, t, post);
    assert(json::member(s, "prompt"@) == Some(v));
}

/// A line with a JSON string alone gives back the text that was written.
pub proof fn law_prompt_string_reads_back(t: Seq<char>)
    ensures
        prompt_on(json::json_string(t)) == t,
{
    let s = json::json_string(t);
    let none = Seq::<char>::empty();
    assert(s[0] == '"' && s.last() == '"');
    assert(text::trim(s) == s);
    json::law_json_string_is_found(none, t, none);
    assert(none + s + none =~= s);
}

/// The prompts among `lines`, those that are empty left out.
pub open spec fn prompts_in(lines: Seq<Seq<char>>) -> Seq<Seq<char>>
    decreases lines.len(),
{
    if lines.len() == 0 {
        Seq::empty()
    } else {
        let rest = prompts_in(lines.skip(1));
        let p = prompt_on(lines[0]);
        if p.len() == 0 {
            rest
        } else {
            seq![p] + rest
        }
    }
}

/// The texts of `v`.
pub open spec fn texts(v: Seq<Vec<char>>) -> Seq<Seq<char>> {
    v.map_values(|t: Vec<char>| t@)
}

/// The prompts of a file with a prompt per line.
pub fn prompts_per_line(s: &[char]) -> (r: Vec<Vec<char>>)
    ensures
        texts(r@) == prompts_in(text::fields(s@, '\n')),
{
    let mut out: Vec<Vec<char>> = Vec::new();
    let ghost want = prompts_in(text::fields(s@, '\n'));
    let mut rest = s;
    assert(texts(out@) + prompts_in(text::fields(rest@, '\n')) =~= want);
    loop
        invariant
            texts(out@) + prompts_in(text::fields(rest@, '\n')) == want,
            want == prompts_in(text::fields(s@, '\n')),
        decreases rest@.len(),
    {
        proof {
            text::lemma_find_char(rest@, '\n');
        }
        let at = text::position_of(rest, '\n');
        let n = rest.len();
        let end: usize = match at {
            Some(i) => i,
            None => n,
        };
        let line = slice_subrange(rest, 0, end);
        let ghost r0 = rest@;
        let ghost parts = text::fields(r0, '\n');
        let ghost o0 = out@;
        assert(line@ =~= rest@.take(end as int));
        assert(rest@.take(n as int) =~= rest@);
        assert(parts[0] == line@);
        match prompt_of_line(line) {
            Some(p) => {
                out.push(p);
                assert(texts(out@) =~= texts(o0) + seq![prompt_on(line@)]);
            },
            None => {},
        }
        assert(texts(out@) + prompts_in(parts.skip(1)) =~= want);
        match at {
            Some(i) => {
                rest = slice_subrange(rest, i + 1, n);
                assert(rest@ =~= r0.skip(i + 1));
                assert(parts.skip(1) =~= text::fields(rest@, '\n'));
            },
            None => {
                assert(parts.skip(1) =~= Seq::<Seq<char>>::empty());
                assert(texts(out@) =~= want);
                return out;
            },
        }
    }
}

/// The prompts of a file: one per line in a `jsonl` file, the whole text of a `txt` or `md` file,
/// and none in any other.
pub open spec fn file_prompts(ext: Seq<char>, s: Seq<char>) -> Seq<Seq<char>> {
    if ext == "jsonl"@ {
        prompts_in(text::fields(s, '\n'))
    } else if ext == "txt"@ || ext == "md"@ {
        seq![s]
    } else {
        Seq::empty()
    }
}

/// The prompts of a file with the extension `ext` and the text `s`.
pub fn collect_prompts(ext: &str, s: &[char]) -> (r: Vec<Vec<char>>)
    ensures
        texts(r@) == file_prompts(ext@, s@),
{
    let e = ext.to_owned();
    if e == "jsonl".to_owned() {
        prompts_per_line(s)
    } else if e == "txt".to_owned() || e == "md".to_owned() {
        let mut r: Vec<Vec<char>> = Vec::new();
        r.push(slice_to_vec(s));
        assert(texts(r@) =~= seq![s@]);
        r
    } else {
        let r: Vec<Vec<char>> = Vec::new();
        assert(texts(r@) =~= Seq::<Seq<char>>::empty());
        r
    }
}

/// The extensions of files that count as text.
pub open spec fn is_corpus(ext: Seq<char>) -> bool {
    ||| ext == "txt"@
    ||| ext == "md"@
    ||| ext == "rs"@
    ||| ext == "py"@
    ||| ext == "cu"@
    ||| ext == "c"@
    ||| ext == "h"@
    ||| ext == "cpp"@
    ||| ext == "json"@
    ||| ext == "toml"@
    ||| ext == "sh"@
    ||| ext == "js"@
    ||| ext == "ts"@
}

/// Whether a file with the extension `ext` belongs to a corpus.
pub fn corpus_file(ext: &str) -> (r: bool)
    ensures
        r == is_corpus(ext@),
{
    let e = ext.to_owned();
    e == "txt".to_owned() || e == "md".to_owned() || e == "rs".to_owned() || e == "py".to_owned()
        || e == "cu".to_owned() || e == "c".to_owned() || e == "h".to_owned() || e
        == "cpp".to_owned() || e == "json".to_owned() || e == "toml".to_owned() || e
        == "sh".to_owned() || e == "js".to_owned() || e == "ts".to_owned()
}

/// The fields of the header: magic and version 3, one tensor and one setting; the setting is the
/// alignment, a 32-bit number, and the header is as long as it asks; the tensor is `d2t`, of one
/// dimension of `n` 32-bit integers, at the start of the data.
pub proof fn law_header_fields(n: nat)
    requires
        n < bytes::pow256(8),
    ensures
        ({
            let h = ranking_header(n);
            let at = |from: int, to: int| bytes::le_value(h.subrange(from, to));
            &&& h.subrange(0, 4) == ascii("GGUF"@)
            &&& at(4, 8) == 3
            &&& at(8, 16) == 1
            &&& at(16, 24) == 1
            &&& at(24, 32) == "general.alignment"@.len()
            &&& h.subrange(32, 49) == ascii("general.alignment"@)
            &&& at(49, 53) == 4
            &&& at(53, 57) == 32
            &&& at(57, 65) == "d2t"@.len()
            &&& h.subrange(65, 68) == ascii("d2t"@)
            &&& at(68, 72) == 1
            &&& at(72, 80) == n
            &&& at(80, 84) == 26
            &&& at(84, 92) == 0
            &&& h.len() % 32 == 0
        }),
{
    reveal_strlit("GGUF");
    reveal_strlit("general.alignment");
    reveal_strlit("d2t");
    reveal_with_fuel(bytes::pow256, 9);
    bytes::law_le_reads_back(3, 4);
    bytes::law_le_reads_back(1, 8);
    bytes::law_le_reads_back(17, 8);
    bytes::law_le_reads_back(4, 4);
    bytes::law_le_reads_back(32, 4);
    bytes::law_le_reads_back(3, 8);
    bytes::law_le_reads_back(1, 4);
    bytes::law_le_reads_back(n, 8);
    bytes::law_le_reads_back(26, 4);
    bytes::law_le_reads_back(0, 8);
    bytes::law_le_reads_back(0, 4);
    let h = ranking_header(n);
    assert(h.subrange(0, 4) =~= ascii("GGUF"@));
    assert(h.subrange(4, 8) =~= bytes::le_bytes(3, 4));
    assert(h.subrange(8, 16) =~= bytes::le_bytes(1, 8));
    assert(h.subrange(16, 24) =~= bytes::le_bytes(1, 8));
    assert(h.subrange(24, 32) =~= bytes::le_bytes(17, 8));
    assert(h.subrange(32, 49) =~= ascii("general.alignment"@));
    assert(h.subrange(49, 53) =~= bytes::le_bytes(4, 4));
    assert(h.subrange(53, 57) =~= bytes::le_bytes(32, 4));
    assert(h.subrange(57, 65) =~= bytes::le_bytes(3, 8));
    assert(h.subrange(65, 68) =~= ascii("d2t"@));
    assert(h.subrange(68, 72) =~= bytes::le_bytes(1, 4));
    assert(h.subrange(72, 80) =~= bytes::le_bytes(n, 8));
    assert(h.subrange(80, 84) =~= bytes::le_bytes(26, 4));
    assert(h.subrange(84, 92) =~= bytes::le_bytes(0, 8));
}

/// Counts add up: what two lists stand for, and how often they hold an id, is the sum of each.
pub proof fn law_counts_add_up(counts: Seq<u64>, a: Seq<u32>, b: Seq<u32>, v: int, vocab: int)
    ensures
        coverage(counts, a + b) == coverage(counts, a) + coverage(counts, b),
        occurrences(a + b, v) == occurrences(a, v) + occurrences(b, v),
        known(a + b, vocab) == known(a, vocab) + known(b, vocab),
    decreases b.len(),
{
    if b.len() == 0 {
        assert(a + b =~= a);
    } else {
        law_counts_add_up(counts, a, b.drop_last(), v, vocab);
        assert((a + b).drop_last() =~= a + b.drop_last());
        assert((a + b).last() == b.last());
    }
}

/// One id stands for its count, occurs once, and is known where the vocabulary holds it.
pub proof fn law_one_id(counts: Seq<u64>, id: u32, v: int, vocab: int)
    ensures
        coverage(counts, seq![id]) == counts[id as int],
        occurrences(seq![id], v) == (if id == v {
            1nat
        } else {
            0nat
        }),
        known(seq![id], vocab) == (if id < vocab {
            1nat
        } else {
            0nat
        }),
{
    let s = seq![id];
    assert(s.drop_last() =~= Seq::<u32>::empty());
    assert(s.last() == id);
    reveal_with_fuel(coverage, 2);
    reveal_with_fuel(occurrences, 2);
    reveal_with_fuel(known, 2);
}

} // verus!
