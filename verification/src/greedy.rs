//! Greedy token streams and the acceptance walk of greedy speculative decoding.

use vstd::prelude::*;

verus! {

/// The first `n` tokens that greedy decoding emits after `ctx`, where `f` maps a context to the
/// token of its largest logit.
pub open spec fn greedy_stream(f: spec_fn(Seq<u32>) -> u32, ctx: Seq<u32>, n: nat) -> Seq<u32>
    decreases n,
{
    if n == 0 {
        Seq::empty()
    } else {
        let head = greedy_stream(f, ctx, (n - 1) as nat);
        head.push(f(ctx + head))
    }
}

/// Each token of `s` is the greedy choice after `ctx` and the tokens of `s` before it.
pub open spec fn follows_greedily(f: spec_fn(Seq<u32>) -> u32, ctx: Seq<u32>, s: Seq<u32>) -> bool {
    forall|i: int| 0 <= i < s.len() ==> #[trigger] s[i] == f(ctx + s.take(i))
}

/// The row of predictions that one batched verification returns for `drafts` after `ctx`: entry
/// `j` is the greedy choice once the first `j` drafts are in the context.
pub open spec fn verifies(
    f: spec_fn(Seq<u32>) -> u32,
    ctx: Seq<u32>,
    drafts: Seq<u32>,
    preds: Seq<u32>,
) -> bool {
    &&& preds.len() == drafts.len() + 1
    &&& forall|j: int| 0 <= j <= drafts.len() ==> #[trigger] preds[j] == f(ctx + drafts.take(j))
}

/// `m` is the length of the longest common prefix of `a` and `b`.
pub open spec fn agrees_for(a: Seq<u32>, b: Seq<u32>, m: int) -> bool {
    &&& 0 <= m <= a.len()
    &&& m <= b.len()
    &&& forall|i: int| 0 <= i < m ==> #[trigger] a[i] == b[i]
    &&& m < a.len() && m < b.len() ==> a[m] != b[m]
}

/// What one verified round contributes: the accepted drafts, then the verifier's own next token.
pub open spec fn accepted_run(drafts: Seq<u32>, preds: Seq<u32>) -> Seq<u32> {
    let m = accepted_len(drafts, preds) as int;
    drafts.take(m).push(preds[m])
}

/// The number of leading tokens on which `drafts` and `preds` agree.
pub open spec fn accepted_len(drafts: Seq<u32>, preds: Seq<u32>) -> nat
    decreases drafts.len(),
{
    if drafts.len() > 0 && preds.len() > 0 && drafts[0] == preds[0] {
        1 + accepted_len(drafts.skip(1), preds.skip(1))
    } else {
        0
    }
}

/// The longest common prefix is unique, and `accepted_len` is its length.
pub proof fn lemma_accepted_len(a: Seq<u32>, b: Seq<u32>)
    ensures
        agrees_for(a, b, accepted_len(a, b) as int),
        forall|m: int| #[trigger] agrees_for(a, b, m) ==> m == accepted_len(a, b),
    decreases a.len(),
{
    let n = accepted_len(a, b) as int;
    if a.len() > 0 && b.len() > 0 && a[0] == b[0] {
        lemma_accepted_len(a.skip(1), b.skip(1));
        assert forall|i: int| 0 <= i < n implies #[trigger] a[i] == b[i] by {
            if i > 0 {
                assert(a.skip(1)[i - 1] == b.skip(1)[i - 1]);
            }
        }
        if n < a.len() && n < b.len() {
            assert(a.skip(1)[n - 1] != b.skip(1)[n - 1]);
        }
    }
    assert(agrees_for(a, b, n));
    assert forall|m: int| #[trigger] agrees_for(a, b, m) implies m == n by {
        if m < n {
            assert(a[m] == b[m]);
        } else if n < m {
            assert(a[n] == b[n]);
        }
    }
}

/// The number of leading drafts that the predictions confirm.
pub fn accepted_prefix(drafts: &[u32], preds: &[u32]) -> (m: usize)
    ensures
        m == accepted_len(drafts@, preds@),
        agrees_for(drafts@, preds@, m as int),
{
    let mut m: usize = 0;
    while m < drafts.len() && m < preds.len() && drafts[m] == preds[m]
        invariant
            m <= drafts.len(),
            m <= preds.len(),
            forall|i: int| 0 <= i < m ==> #[trigger] drafts@[i] == preds@[i],
        decreases drafts.len() - m,
    {
        m += 1;
    }
    proof {
        lemma_accepted_len(drafts@, preds@);
        assert(agrees_for(drafts@, preds@, m as int));
    }
    m
}

/// The first index at which two token streams differ: a differing token, or the end of the
/// shorter stream when it is a proper prefix of the other. `None` for equal streams.
pub fn first_divergence(a: &[u32], b: &[u32]) -> (r: Option<usize>)
    ensures
        r is None <==> a@ == b@,
        r matches Some(i) ==> agrees_for(a@, b@, i as int),
{
    let n = accepted_prefix(a, b);
    if n < a.len() || n < b.len() {
        Some(n)
    } else {
        assert(a@ =~= b@);
        None
    }
}

/// A greedy stream of `n` tokens has `n` tokens, and each is the greedy choice after those
/// before it.
pub proof fn lemma_greedy_stream(f: spec_fn(Seq<u32>) -> u32, ctx: Seq<u32>, n: nat)
    ensures
        greedy_stream(f, ctx, n).len() == n,
        follows_greedily(f, ctx, greedy_stream(f, ctx, n)),
    decreases n,
{
    if n > 0 {
        lemma_greedy_stream(f, ctx, (n - 1) as nat);
        let head = greedy_stream(f, ctx, (n - 1) as nat);
        let all = greedy_stream(f, ctx, n);
        assert forall|i: int| 0 <= i < all.len() implies #[trigger] all[i] == f(ctx + all.take(i)) by {
            if i < n - 1 {
                assert(all.take(i) =~= head.take(i));
                assert(all[i] == head[i]);
            } else {
                assert(all.take(i) =~= head);
            }
        }
    }
}

/// Greedy decoding is deterministic: a sequence whose every token is the greedy choice is the
/// greedy stream of its length.
pub proof fn law_greedy_stream_is_unique(f: spec_fn(Seq<u32>) -> u32, ctx: Seq<u32>, s: Seq<u32>)
    requires
        follows_greedily(f, ctx, s),
    ensures
        s == greedy_stream(f, ctx, s.len()),
    decreases s.len(),
{
    if s.len() > 0 {
        let head = s.drop_last();
        assert forall|i: int| 0 <= i < head.len() implies #[trigger] head[i] == f(ctx + head.take(i)) by {
            assert(head.take(i) =~= s.take(i));
            assert(head[i] == s[i]);
        }
        law_greedy_stream_is_unique(f, ctx, head);
        assert(s.take(s.len() - 1) =~= head);
        assert(s[s.len() - 1] == f(ctx + head));
        assert(s =~= head.push(s.last()));
    } else {
        assert(s =~= Seq::<u32>::empty());
    }
}

/// Greedy decoding can be interrupted and resumed: `a + b` tokens after `ctx` are `a` tokens
/// after `ctx` and then `b` tokens after the context they leave behind.
pub proof fn law_greedy_stream_resumes(
    f: spec_fn(Seq<u32>) -> u32,
    ctx: Seq<u32>,
    a: nat,
    b: nat,
)
    ensures
        greedy_stream(f, ctx, a + b) == greedy_stream(f, ctx, a) + greedy_stream(
            f,
            ctx + greedy_stream(f, ctx, a),
            b,
        ),
    decreases b,
{
    let first = greedy_stream(f, ctx, a);
    if b == 0 {
        assert(first + greedy_stream(f, ctx + first, 0) =~= first);
    } else {
        law_greedy_stream_resumes(f, ctx, a, (b - 1) as nat);
        let rest = greedy_stream(f, ctx + first, (b - 1) as nat);
        assert(ctx + (first + rest) =~= (ctx + first) + rest);
        assert((first + rest).push(f(ctx + (first + rest))) =~= first + rest.push(
            f((ctx + first) + rest),
        ));
    }
}

/// A shorter greedy stream is a prefix of a longer one.
pub proof fn law_greedy_stream_prefix(f: spec_fn(Seq<u32>) -> u32, ctx: Seq<u32>, a: nat, n: nat)
    requires
        a <= n,
    ensures
        greedy_stream(f, ctx, a) == greedy_stream(f, ctx, n).take(a as int),
{
    law_greedy_stream_resumes(f, ctx, a, (n - a) as nat);
    lemma_greedy_stream(f, ctx, a);
    assert(greedy_stream(f, ctx, n).take(a as int) =~= greedy_stream(f, ctx, a));
}

/// An acceptance walk may stop early: any number of confirmed drafts, followed by the verifier's
/// own token at that point, are the tokens that greedy decoding emits.
pub proof fn law_shallow_walk_is_greedy(
    f: spec_fn(Seq<u32>) -> u32,
    ctx: Seq<u32>,
    drafts: Seq<u32>,
    preds: Seq<u32>,
    m: nat,
)
    requires
        verifies(f, ctx, drafts, preds),
        m <= accepted_len(drafts, preds),
    ensures
        drafts.take(m as int).push(preds[m as int]) == greedy_stream(f, ctx, m + 1),
{
    lemma_accepted_len(drafts, preds);
    let s = drafts.take(m as int).push(preds[m as int]);
    assert forall|i: int| 0 <= i < s.len() implies #[trigger] s[i] == f(ctx + s.take(i)) by {
        assert(s.take(i) =~= drafts.take(i));
        assert(preds[i] == f(ctx + drafts.take(i)));
        if i < m {
            assert(drafts[i] == preds[i]);
        }
    }
    law_greedy_stream_is_unique(f, ctx, s);
}

/// Speculation is exact: the accepted drafts followed by the verifier's own next token are the
/// tokens that greedy decoding emits, whatever was drafted.
pub proof fn law_accepted_run_is_greedy(
    f: spec_fn(Seq<u32>) -> u32,
    ctx: Seq<u32>,
    drafts: Seq<u32>,
    preds: Seq<u32>,
)
    requires
        verifies(f, ctx, drafts, preds),
    ensures
        accepted_run(drafts, preds) == greedy_stream(f, ctx, accepted_len(drafts, preds) + 1),
{
    law_shallow_walk_is_greedy(f, ctx, drafts, preds, accepted_len(drafts, preds));
}

} // verus!
