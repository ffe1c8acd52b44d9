//! The drafter's trimmed vocabulary head and its serve-time adaptation.
//!
//! A trimmed head holds the rows of the most frequent tokens only; `d2t` maps a head row to its
//! token id. Spare rows behind the ranked ones are filled while serving with tokens that the
//! ranking missed, so that each of them can be drafted from then on.

use vstd::prelude::*;

use crate::qtype::GgmlType;
use crate::text;

verus! {

/// Row `i` of a row-major byte table.
pub open spec fn row(table: Seq<u8>, row_bytes: nat, i: int) -> Seq<u8> {
    table.subrange(i * row_bytes, (i + 1) * row_bytes)
}

/// Whether `tok` takes a spare slot: a vocabulary id outside the trim set, with room left.
pub open spec fn learns(
    base: Seq<u32>,
    learned: Seq<u32>,
    n_vocab: nat,
    n_spare: nat,
    tok: u32,
) -> bool {
    &&& tok < n_vocab
    &&& !base.contains(tok)
    &&& !learned.contains(tok)
    &&& learned.len() < n_spare
}

/// The learned tokens after `tok` was offered.
pub open spec fn learn_one(
    base: Seq<u32>,
    learned: Seq<u32>,
    n_vocab: nat,
    n_spare: nat,
    tok: u32,
) -> Seq<u32> {
    if learns(base, learned, n_vocab, n_spare, tok) {
        learned.push(tok)
    } else {
        learned
    }
}

/// The learned tokens after all of `toks` were offered in turn.
pub open spec fn learn_all(
    base: Seq<u32>,
    learned: Seq<u32>,
    n_vocab: nat,
    n_spare: nat,
    toks: Seq<u32>,
) -> Seq<u32>
    decreases toks.len(),
{
    if toks.len() == 0 {
        learned
    } else {
        learn_one(
            base,
            learn_all(base, learned, n_vocab, n_spare, toks.drop_last()),
            n_vocab,
            n_spare,
            toks.last(),
        )
    }
}

/// One head row to overwrite on the device.
pub struct RowWrite {
    /// Head row, and index into the draft-to-target map.
    pub slot: usize,
    /// The token that the row now stands for.
    pub tok: u32,
    /// Byte offset of the row in the head.
    pub offset: usize,
    /// The row.
    pub bytes: Vec<u8>,
}

/// The head bytes after a row write.
pub open spec fn apply_write(head: Seq<u8>, w: RowWrite) -> Seq<u8> {
    head.take(w.offset as int) + w.bytes@ + head.skip(w.offset + w.bytes@.len())
}

/// Serve-time adaptation state: which tokens the trimmed head covers, and the spare rows.
pub struct TrimAdapt {
    src_rows: Vec<u8>,
    row_bytes: usize,
    n_vocab: usize,
    present: Vec<bool>,
    spare_base: usize,
    n_spare: usize,
    used: usize,
    logged_full: bool,
}

impl TrimAdapt {
    /// Full-vocabulary head rows.
    pub closed spec fn source(&self) -> Seq<u8> {
        self.src_rows@
    }

    /// Bytes per head row.
    pub closed spec fn stride(&self) -> nat {
        self.row_bytes as nat
    }

    /// Vocabulary size.
    pub closed spec fn vocab(&self) -> nat {
        self.n_vocab as nat
    }

    /// Ranked rows; the spare rows follow them.
    pub closed spec fn ranked(&self) -> nat {
        self.spare_base as nat
    }

    /// Spare rows in all.
    pub closed spec fn budget(&self) -> nat {
        self.n_spare as nat
    }

    /// Spare rows in use.
    pub closed spec fn filled(&self) -> nat {
        self.used as nat
    }

    /// The notice that the spare rows ran out was given.
    pub closed spec fn noticed_full(&self) -> bool {
        self.logged_full
    }

    /// The ranked tokens.
    pub open spec fn base(&self, d2t: Seq<u32>) -> Seq<u32> {
        d2t.take(self.ranked() as int)
    }

    /// The learned tokens, in the order in which they were learned.
    pub open spec fn learned(&self, d2t: Seq<u32>) -> Seq<u32> {
        d2t.subrange(self.ranked() as int, (self.ranked() + self.filled()) as int)
    }

    /// The state agrees with the map `d2t`.
    pub closed spec fn wf(&self, d2t: Seq<u32>) -> bool {
        &&& d2t.len() == self.spare_base + self.n_spare
        &&& self.used <= self.n_spare
        &&& self.present@.len() == self.n_vocab
        &&& self.n_vocab * self.row_bytes <= self.src_rows@.len() <= usize::MAX
        &&& self.spare_base + self.n_spare <= usize::MAX
        &&& d2t.len() * self.row_bytes <= usize::MAX
        &&& forall|s: int| 0 <= s < d2t.len() ==> #[trigger] d2t[s] < self.n_vocab
        &&& forall|t: u32|
            t < self.n_vocab ==> (#[trigger] self.present@[t as int] <==> self.base(d2t).contains(
                t,
            ) || self.learned(d2t).contains(t))
    }

    /// Everything but the learned rows is as in `other`.
    pub open spec fn same_table(&self, other: &TrimAdapt) -> bool {
        &&& self.source() == other.source()
        &&& self.stride() == other.stride()
        &&& self.vocab() == other.vocab()
        &&& self.ranked() == other.ranked()
        &&& self.budget() == other.budget()
    }

    /// A well-formed state maps every row to a vocabulary token.
    pub proof fn lemma_wf(&self, d2t: Seq<u32>)
        requires
            self.wf(d2t),
        ensures
            d2t.len() == self.ranked() + self.budget(),
            self.filled() <= self.budget(),
            self.vocab() * self.stride() <= self.source().len(),
            forall|s: int| 0 <= s < d2t.len() ==> #[trigger] d2t[s] < self.vocab(),
    {
    }

    /// Offers `tok`: takes the next spare slot for it when it is a vocabulary id outside the
    /// trim set and a slot is free, and returns the row to write.
    pub fn maybe_add(&mut self, tok: u32, d2t: &mut Vec<u32>) -> (r: Option<RowWrite>)
        requires
            old(self).wf(old(d2t)@),
        ensures
            final(self).wf(final(d2t)@),
            final(self).same_table(old(self)),
            final(self).base(final(d2t)@) == old(self).base(old(d2t)@),
            final(self).learned(final(d2t)@) == learn_one(
                old(self).base(old(d2t)@),
                old(self).learned(old(d2t)@),
                old(self).vocab(),
                old(self).budget(),
                tok,
            ),
            r is Some <==> learns(
                old(self).base(old(d2t)@),
                old(self).learned(old(d2t)@),
                old(self).vocab(),
                old(self).budget(),
                tok,
            ),
            r is None ==> final(d2t)@ == old(d2t)@ && final(self).filled() == old(self).filled(),
            r matches Some(w) ==> {
                &&& w.slot == old(self).ranked() + old(self).filled()
                &&& w.tok == tok
                &&& w.offset == w.slot * old(self).stride()
                &&& w.bytes@ == row(old(self).source(), old(self).stride(), tok as int)
                &&& w.bytes@.len() == old(self).stride()
                &&& final(d2t)@ == old(d2t)@.update(w.slot as int, tok)
                &&& final(self).filled() == old(self).filled() + 1
            },
            final(self).noticed_full() == (old(self).noticed_full() || (tok < old(self).vocab()
                && !old(self).base(old(d2t)@).contains(tok) && !old(self).learned(
                old(d2t)@,
            ).contains(tok) && old(self).filled() == old(self).budget())),
    {
        let t: usize = tok as usize;
        if t >= self.n_vocab {
            return None;
        }
        assert(self.present@[tok as int] == self.present@[t as int]);
        if self.present[t] {
            return None;
        }
        if self.used == self.n_spare {
            self.logged_full = true;
            return None;
        }
        let slot: usize = self.spare_base + self.used;
        let ghost before = *self;
        let ghost map0 = d2t@;
        proof {
            let rb = self.row_bytes as int;
            assert(t * rb <= (t + 1) * rb <= self.n_vocab * rb) by (nonlinear_arith)
                requires
                    t + 1 <= self.n_vocab,
                    rb >= 0,
            ;
            assert((t + 1) * rb == t * rb + rb) by (nonlinear_arith);
            assert(slot * rb <= map0.len() * rb) by (nonlinear_arith)
                requires
                    slot <= map0.len(),
                    rb >= 0,
            ;
        }
        let start: usize = t * self.row_bytes;
        let offset: usize = slot * self.row_bytes;
        let bytes = vstd::slice::slice_to_vec(
            vstd::slice::slice_subrange(self.src_rows.as_slice(), start, start + self.row_bytes),
        );
        self.used = self.used + 1;
        self.present.set(t, true);
        d2t.set(slot, tok);
        proof {
            assert(self.base(d2t@) =~= before.base(map0));
            assert(self.learned(d2t@) =~= before.learned(map0).push(tok));
            assert forall|x: u32| x < self.n_vocab implies (#[trigger] self.present@[x as int]
                <==> self.base(d2t@).contains(x) || self.learned(d2t@).contains(x)) by {
                let l0 = before.learned(map0);
                let l1 = self.learned(d2t@);
                assert(l1[l0.len() as int] == tok);
                if l0.contains(x) {
                    let i = choose|i: int| 0 <= i < l0.len() && l0[i] == x;
                    assert(l1[i] == x);
                }
                if l1.contains(x) && x != tok {
                    let i = choose|i: int| 0 <= i < l1.len() && l1[i] == x;
                    assert(l0[i] == x);
                }
                if x != tok {
                    assert(self.present@[x as int] == before.present@[x as int]);
                }
            }
        }
        Some(RowWrite { slot, tok, offset, bytes })
    }
}

/// Every head row is the source row of the token that the map gives it.
pub open spec fn head_matches(
    head: Seq<u8>,
    d2t: Seq<u32>,
    source: Seq<u8>,
    row_bytes: nat,
) -> bool {
    &&& head.len() == d2t.len() * row_bytes
    &&& forall|s: int|
        0 <= s < d2t.len() ==> #[trigger] row(head, row_bytes, s) == row(
            source,
            row_bytes,
            d2t[s] as int,
        )
}

proof fn lemma_row_bounds(rb: nat, s: int, n: int)
    requires
        0 <= s < n,
    ensures
        0 <= s * rb <= (s + 1) * rb <= n * rb,
        (s + 1) * rb == s * rb + rb,
{
    assert(0 <= s * rb <= (s + 1) * rb <= n * rb && (s + 1) * rb == s * rb + rb)
        by (nonlinear_arith)
        requires
            0 <= s < n,
    ;
}

proof fn lemma_append_row(
    head: Seq<u8>,
    d2t: Seq<u32>,
    source: Seq<u8>,
    rb: nat,
    tok: u32,
    n_vocab: nat,
)
    requires
        head_matches(head, d2t, source, rb),
        tok < n_vocab,
        n_vocab * rb <= source.len(),
    ensures
        head_matches(head + row(source, rb, tok as int), d2t.push(tok), source, rb),
{
    let r = row(source, rb, tok as int);
    let n = d2t.len() as int;
    lemma_row_bounds(rb, tok as int, n_vocab as int);
    assert((n + 1) * rb == n * rb + rb) by (nonlinear_arith);
    let next = head + r;
    assert forall|s: int| 0 <= s < n + 1 implies #[trigger] row(next, rb, s) == row(
        source,
        rb,
        d2t.push(tok)[s] as int,
    ) by {
        lemma_row_bounds(rb, s, n + 1);
        if s < n {
            lemma_row_bounds(rb, s, n);
            assert(row(next, rb, s) =~= row(head, rb, s));
        } else {
            assert(row(next, rb, s) =~= r);
        }
    }
}

proof fn lemma_overwrite_row(
    head: Seq<u8>,
    d2t: Seq<u32>,
    source: Seq<u8>,
    rb: nat,
    slot: int,
    tok: u32,
    n_vocab: nat,
)
    requires
        head_matches(head, d2t, source, rb),
        tok < n_vocab,
        n_vocab * rb <= source.len(),
        0 <= slot < d2t.len(),
    ensures
        head_matches(
            head.take(slot * rb) + row(source, rb, tok as int) + head.skip(slot * rb + rb),
            d2t.update(slot, tok),
            source,
            rb,
        ),
{
    let r = row(source, rb, tok as int);
    let n = d2t.len() as int;
    lemma_row_bounds(rb, tok as int, n_vocab as int);
    lemma_row_bounds(rb, slot, n);
    let next = head.take(slot * rb) + r + head.skip(slot * rb + rb);
    assert(next.len() == head.len());
    assert forall|s: int| 0 <= s < n implies #[trigger] row(next, rb, s) == row(
        source,
        rb,
        d2t.update(slot, tok)[s] as int,
    ) by {
        lemma_row_bounds(rb, s, n);
        if s < slot {
            lemma_row_bounds(rb, s, slot);
            assert(row(next, rb, s) =~= row(head, rb, s));
        } else if s > slot {
            lemma_row_bounds(rb, slot, s);
            assert((slot + 1) * rb <= s * rb) by (nonlinear_arith)
                requires
                    slot + 1 <= s,
            ;
            assert(row(next, rb, s) =~= row(head, rb, s));
        } else {
            assert(row(next, rb, s) =~= r);
        }
    }
}

/// Learning keeps head and map together: after the returned row was written, every head row is
/// still the source row of the token that the map gives it. The arguments are the map before the
/// token was offered, and what `maybe_add` returned.
pub proof fn law_learning_keeps_head_and_map_together(
    ta: TrimAdapt,
    head: Seq<u8>,
    d2t: Seq<u32>,
    w: RowWrite,
)
    requires
        ta.wf(d2t),
        head_matches(head, d2t, ta.source(), ta.stride()),
        w.slot == ta.ranked() + ta.filled(),
        ta.filled() < ta.budget(),
        w.tok < ta.vocab(),
        w.offset == w.slot * ta.stride(),
        w.bytes@ == row(ta.source(), ta.stride(), w.tok as int),
    ensures
        head_matches(
            apply_write(head, w),
            d2t.update(w.slot as int, w.tok),
            ta.source(),
            ta.stride(),
        ),
{
    ta.lemma_wf(d2t);
    lemma_row_bounds(ta.stride(), w.tok as int, ta.vocab() as int);
    lemma_overwrite_row(
        head,
        d2t,
        ta.source(),
        ta.stride(),
        w.slot as int,
        w.tok,
        ta.vocab(),
    );
}

/// Learning never forgets and never exceeds the budget: earlier learned tokens keep their slots.
pub proof fn law_learning_only_adds(
    base: Seq<u32>,
    learned: Seq<u32>,
    n_vocab: nat,
    n_spare: nat,
    toks: Seq<u32>,
)
    requires
        learned.len() <= n_spare,
    ensures
        learned.len() <= learn_all(base, learned, n_vocab, n_spare, toks).len() <= n_spare,
        learn_all(base, learned, n_vocab, n_spare, toks).take(learned.len() as int) == learned,
    decreases toks.len(),
{
    if toks.len() > 0 {
        law_learning_only_adds(base, learned, n_vocab, n_spare, toks.drop_last());
        let mid = learn_all(base, learned, n_vocab, n_spare, toks.drop_last());
        let end = learn_all(base, learned, n_vocab, n_spare, toks);
        assert(end.take(learned.len() as int) =~= mid.take(learned.len() as int));
    } else {
        assert(learned.take(learned.len() as int) =~= learned);
    }
}

/// No token takes two rows: learned tokens are distinct and none of them is ranked.
pub proof fn law_learned_tokens_are_distinct(
    base: Seq<u32>,
    learned: Seq<u32>,
    n_vocab: nat,
    n_spare: nat,
    toks: Seq<u32>,
)
    requires
        learned.no_duplicates(),
        forall|i: int| 0 <= i < learned.len() ==> !base.contains(#[trigger] learned[i]),
    ensures
        ({
            let end = learn_all(base, learned, n_vocab, n_spare, toks);
            &&& end.no_duplicates()
            &&& forall|i: int| 0 <= i < end.len() ==> !base.contains(#[trigger] end[i])
        }),
    decreases toks.len(),
{
    if toks.len() > 0 {
        law_learned_tokens_are_distinct(base, learned, n_vocab, n_spare, toks.drop_last());
    }
}

/// After `toks` were offered, each of them is covered, is no vocabulary id, or found the spare
/// rows full.
pub proof fn law_offered_tokens_are_covered(
    base: Seq<u32>,
    learned: Seq<u32>,
    n_vocab: nat,
    n_spare: nat,
    toks: Seq<u32>,
)
    requires
        learned.len() <= n_spare,
    ensures
        ({
            let end = learn_all(base, learned, n_vocab, n_spare, toks);
            forall|i: int|
                0 <= i < toks.len() ==> (#[trigger] toks[i] >= n_vocab || base.contains(toks[i])
                    || end.contains(toks[i]) || end.len() == n_spare)
        }),
    decreases toks.len(),
{
    if toks.len() > 0 {
        let head = toks.drop_last();
        law_offered_tokens_are_covered(base, learned, n_vocab, n_spare, head);
        law_learning_only_adds(base, learned, n_vocab, n_spare, head);
        let mid = learn_all(base, learned, n_vocab, n_spare, head);
        let end = learn_all(base, learned, n_vocab, n_spare, toks);
        assert forall|i: int| 0 <= i < toks.len() implies (#[trigger] toks[i] >= n_vocab
            || base.contains(toks[i]) || end.contains(toks[i]) || end.len() == n_spare) by {
            if i < head.len() {
                assert(head[i] == toks[i]);
                if mid.contains(toks[i]) {
                    let j = choose|j: int| 0 <= j < mid.len() && mid[j] == toks[i];
                    assert(end[j] == toks[i]);
                }
            } else if learns(base, mid, n_vocab, n_spare, toks[i]) {
                assert(end[mid.len() as int] == toks[i]);
            }
        }
    }
}

/// Learning is idempotent: offering the same tokens again changes nothing.
pub proof fn law_learning_is_idempotent(
    base: Seq<u32>,
    learned: Seq<u32>,
    n_vocab: nat,
    n_spare: nat,
    toks: Seq<u32>,
)
    requires
        learned.len() <= n_spare,
    ensures
        ({
            let once = learn_all(base, learned, n_vocab, n_spare, toks);
            learn_all(base, once, n_vocab, n_spare, toks) == once
        }),
{
    let once = learn_all(base, learned, n_vocab, n_spare, toks);
    law_offered_tokens_are_covered(base, learned, n_vocab, n_spare, toks);
    law_learning_only_adds(base, learned, n_vocab, n_spare, toks);
    lemma_covered_tokens_change_nothing(base, once, n_vocab, n_spare, toks);
}

proof fn lemma_covered_tokens_change_nothing(
    base: Seq<u32>,
    learned: Seq<u32>,
    n_vocab: nat,
    n_spare: nat,
    toks: Seq<u32>,
)
    requires
        forall|i: int|
            0 <= i < toks.len() ==> (#[trigger] toks[i] >= n_vocab || base.contains(toks[i])
                || learned.contains(toks[i]) || learned.len() == n_spare),
    ensures
        learn_all(base, learned, n_vocab, n_spare, toks) == learned,
    decreases toks.len(),
{
    if toks.len() > 0 {
        assert forall|i: int| 0 <= i < toks.drop_last().len() implies (
        #[trigger] toks.drop_last()[i] >= n_vocab || base.contains(toks.drop_last()[i])
            || learned.contains(toks.drop_last()[i]) || learned.len() == n_spare) by {
            assert(toks.drop_last()[i] == toks[i]);
        }
        lemma_covered_tokens_change_nothing(base, learned, n_vocab, n_spare, toks.drop_last());
        assert(toks[toks.len() - 1] == toks.last());
    }
}

impl TrimAdapt {
    /// Offers `toks` in turn and returns the rows to write.
    pub fn learn(&mut self, toks: &[u32], d2t: &mut Vec<u32>) -> (writes: Vec<RowWrite>)
        requires
            old(self).wf(old(d2t)@),
        ensures
            final(self).wf(final(d2t)@),
            final(self).same_table(old(self)),
            final(self).base(final(d2t)@) == old(self).base(old(d2t)@),
            final(self).learned(final(d2t)@) == learn_all(
                old(self).base(old(d2t)@),
                old(self).learned(old(d2t)@),
                old(self).vocab(),
                old(self).budget(),
                toks@,
            ),
            final(self).filled() == old(self).filled() + writes@.len(),
            forall|i: int|
                0 <= i < writes@.len() ==> {
                    let w = #[trigger] writes@[i];
                    &&& w.slot == old(self).ranked() + old(self).filled() + i
                    &&& w.tok == final(d2t)@[w.slot as int]
                    &&& w.offset == w.slot * old(self).stride()
                    &&& w.bytes@ == row(old(self).source(), old(self).stride(), w.tok as int)
                },
            forall|s: int|
                0 <= s < old(d2t)@.len() && !(old(self).ranked() + old(self).filled() <= s
                    < old(self).ranked() + final(self).filled()) ==> #[trigger] final(d2t)@[s]
                    == old(d2t)@[s],
    {
        let mut writes: Vec<RowWrite> = Vec::new();
        let mut i: usize = 0;
        let ghost base = self.base(d2t@);
        let ghost learned = self.learned(d2t@);
        while i < toks.len()
            invariant
                i <= toks@.len(),
                self.wf(d2t@),
                self.same_table(old(self)),
                d2t@.len() == old(d2t)@.len(),
                base == old(self).base(old(d2t)@),
                learned == old(self).learned(old(d2t)@),
                self.base(d2t@) == base,
                self.learned(d2t@) == learn_all(
                    base,
                    learned,
                    self.vocab(),
                    self.budget(),
                    toks@.take(i as int),
                ),
                self.filled() == old(self).filled() + writes@.len(),
                forall|j: int|
                    0 <= j < writes@.len() ==> {
                        let w = #[trigger] writes@[j];
                        &&& w.slot == old(self).ranked() + old(self).filled() + j
                        &&& w.tok == d2t@[w.slot as int]
                        &&& w.offset == w.slot * old(self).stride()
                        &&& w.bytes@ == row(old(self).source(), old(self).stride(), w.tok as int)
                    },
                forall|s: int|
                    0 <= s < old(d2t)@.len() && !(old(self).ranked() + old(self).filled() <= s
                        < old(self).ranked() + self.filled()) ==> #[trigger] d2t@[s]
                        == old(d2t)@[s],
            decreases toks.len() - i,
        {
            assert(toks@.take(i + 1).drop_last() =~= toks@.take(i as int));
            assert(toks@.take(i + 1).last() == toks@[i as int]);
            if let Some(w) = self.maybe_add(toks[i], d2t) {
                writes.push(w);
            }
            i += 1;
        }
        assert(toks@.take(toks@.len() as int) =~= toks@);
        writes
    }
}

/// Offers `toks` to the adaptive trim set. Nothing happens when the drafter has no adaptive
/// state or no trimmed head.
pub fn trim_adapt_learn(
    adapt: &mut Option<TrimAdapt>,
    d2t: &mut Option<Vec<u32>>,
    toks: &[u32],
) -> (writes: Vec<RowWrite>)
    requires
        (*old(adapt) is Some && *old(d2t) is Some) ==> old(adapt)->0.wf((*old(d2t))->0@),
    ensures
        *final(adapt) is Some <==> *old(adapt) is Some,
        *final(d2t) is Some <==> *old(d2t) is Some,
        !(*old(adapt) is Some && *old(d2t) is Some) ==> *final(adapt) == *old(adapt)
            && *final(d2t) == *old(d2t) && writes@.len() == 0,
        (*old(adapt) is Some && *old(d2t) is Some) ==> {
            let ta0 = old(adapt)->0;
            let ta1 = final(adapt)->0;
            let m0 = (*old(d2t))->0@;
            let m1 = (*final(d2t))->0@;
            &&& ta1.wf(m1)
            &&& ta1.same_table(&ta0)
            &&& ta1.base(m1) == ta0.base(m0)
            &&& ta1.learned(m1) == learn_all(
                ta0.base(m0),
                ta0.learned(m0),
                ta0.vocab(),
                ta0.budget(),
                toks@,
            )
            &&& ta1.filled() == ta0.filled() + writes@.len()
            &&& forall|i: int|
                0 <= i < writes@.len() ==> {
                    let w = #[trigger] writes@[i];
                    &&& w.slot == ta0.ranked() + ta0.filled() + i
                    &&& w.tok == m1[w.slot as int]
                    &&& w.offset == w.slot * ta0.stride()
                    &&& w.bytes@ == row(ta0.source(), ta0.stride(), w.tok as int)
                }
        },
{
    match (adapt, d2t) {
        (Some(ta), Some(map)) => ta.learn(toks, map),
        _ => Vec::new(),
    }
}

/// Adaptation statistics: spare rows in use and in all. `None` when adaptation is off.
pub fn trim_adapt_stats(adapt: &Option<TrimAdapt>) -> (r: Option<(usize, usize)>)
    ensures
        r is Some <==> *adapt is Some,
        r matches Some(p) ==> p.0 == adapt->0.filled() && p.1 == adapt->0.budget(),
{
    match adapt {
        Some(ta) => Some((ta.used, ta.n_spare)),
        None => None,
    }
}

/// Formats of which single rows can be gathered.
pub open spec fn trimmable(ty: GgmlType) -> bool {
    ty == GgmlType::Q4_0 || ty == GgmlType::Q8_0 || ty == GgmlType::Q6_K
}

/// Code and bytes per row of a head of `in_f` columns; none for a format that cannot be trimmed.
pub fn head_rows(ty: GgmlType, in_f: usize) -> (r: Option<(i32, usize)>)
    requires
        in_f as int / ty.block() as int * ty.size() <= usize::MAX,
    ensures
        match r {
            Some(p) => trimmable(ty) && p.0 == ty.code() && p.1 == in_f as int / ty.block() as int
                * ty.size(),
            None => !trimmable(ty),
        },
{
    if ty == GgmlType::Q4_0 || ty == GgmlType::Q8_0 || ty == GgmlType::Q6_K {
        let (elems, bytes) = ty.block_and_type_size();
        Some((ty.qtype(), in_f / elems * bytes))
    } else {
        None
    }
}

/// The numbers of `ids` that are below `n`.
pub open spec fn ids_below(ids: Seq<nat>, n: nat) -> Seq<nat> {
    ids.filter(|id: nat| id < n)
}

/// The ranked tokens of a file, one id per line: what is no id, or none of the vocabulary, is
/// passed over.
pub fn ranked_ids(s: &[char], n_vocab: usize) -> (r: Vec<u32>)
    ensures
        r@.map_values(|v: u32| v as nat) == ids_below(
            text::numbers_in(text::fields(s@, '\n'), u32::MAX as nat),
            n_vocab as nat,
        ),
        forall|i: int| 0 <= i < r@.len() ==> #[trigger] r@[i] < n_vocab,
{
    let all = text::ids_per_line(s);
    let ghost ids = all@.map_values(|v: u32| v as nat);
    let ghost keep = |id: nat| id < n_vocab as nat;
    let mut r: Vec<u32> = Vec::new();
    let mut i: usize = 0;
    proof {
        reveal(Seq::filter);
        assert(r@.map_values(|v: u32| v as nat) =~= ids.take(0).filter(keep));
    }
    while i < all.len()
        invariant
            i <= all@.len(),
            ids == all@.map_values(|v: u32| v as nat),
            keep == (|id: nat| id < n_vocab as nat),
            r@.map_values(|v: u32| v as nat) == ids.take(i as int).filter(keep),
            forall|k: int| 0 <= k < r@.len() ==> #[trigger] r@[k] < n_vocab,
        decreases all@.len() - i,
    {
        let id: u32 = all[i];
        let ghost before = r@;
        proof {
            reveal(Seq::filter);
            assert(ids.take(i + 1).drop_last() =~= ids.take(i as int));
            assert(ids.take(i + 1).last() == id as nat);
        }
        if (id as usize) < n_vocab {
            r.push(id);
            assert(r@.map_values(|v: u32| v as nat) =~= before.map_values(|v: u32| v as nat).push(
                id as nat,
            ));
        }
        i += 1;
    }
    assert(ids.take(ids.len() as int) =~= ids);
    r
}

/// A trimmed head as it is uploaded.
pub struct TrimmedHead {
    /// Head rows: the ranked ones, then the spare ones.
    pub head: Vec<u8>,
    /// Token of each head row.
    pub d2t: Vec<u32>,
    /// Adaptation state; `None` without spare rows.
    pub adapt: Option<TrimAdapt>,
    /// Spare rows filled from previously learned tokens.
    pub n_pre: usize,
}

fn append_row(head: &mut Vec<u8>, rows: &[u8], start: usize, row_bytes: usize)
    requires
        start + row_bytes <= rows@.len(),
    ensures
        final(head)@ == old(head)@ + rows@.subrange(start as int, start + row_bytes),
{
    let n = rows.len();
    assert(rows@.len() == n);
    let r = vstd::slice::slice_subrange(rows, start, start + row_bytes);
    head.extend_from_slice(r);
    assert(head@ =~= old(head)@ + r@);
}

fn overwrite(head: &mut Vec<u8>, offset: usize, bytes: &[u8])
    requires
        offset + bytes@.len() <= old(head)@.len(),
    ensures
        final(head)@ == old(head)@.take(offset as int) + bytes@ + old(head)@.skip(
            offset + bytes@.len(),
        ),
{
    let mut i: usize = 0;
    let n = head.len();
    while i < bytes.len()
        invariant
            i <= bytes@.len(),
            head@.len() == n,
            offset + bytes@.len() <= head@.len(),
            head@.len() == old(head)@.len(),
            head@ =~= old(head)@.take(offset as int) + bytes@.take(i as int) + old(head)@.skip(
                offset + i,
            ),
        decreases bytes.len() - i,
    {
        head.set(offset + i, bytes[i]);
        i += 1;
    }
    assert(bytes@.take(bytes@.len() as int) =~= bytes@);
}

/// Gathers a trimmed head from the full one: the rows of `ids` in rank order, then `n_spare`
/// spare rows. Spare rows start as copies of the first ranked row, mapped to its token; those of
/// `learned` that the ranking misses then take spare rows, in order, while any are left.
pub fn trim_head(
    rows: &[u8],
    row_bytes: usize,
    n_vocab: usize,
    ids: Vec<u32>,
    n_spare: usize,
    learned: &[u32],
) -> (r: TrimmedHead)
    requires
        ids@.len() >= 1,
        forall|i: int| 0 <= i < ids@.len() ==> #[trigger] ids@[i] < n_vocab,
        n_vocab * row_bytes <= rows@.len(),
        ids@.len() + n_spare <= usize::MAX,
        (ids@.len() + n_spare) * row_bytes <= usize::MAX,
    ensures
        head_matches(r.head@, r.d2t@, rows@, row_bytes as nat),
        r.d2t@.len() == ids@.len() + n_spare,
        r.d2t@.take(ids@.len() as int) == ids@,
        r.n_pre == learn_all(ids@, Seq::empty(), n_vocab as nat, n_spare as nat, learned@).len(),
        r.d2t@.subrange(ids@.len() as int, ids@.len() + r.n_pre) == learn_all(
            ids@,
            Seq::empty(),
            n_vocab as nat,
            n_spare as nat,
            learned@,
        ),
        forall|s: int| ids@.len() + r.n_pre <= s < r.d2t@.len() ==> #[trigger] r.d2t@[s] == ids@[0],
        r.adapt is Some <==> n_spare > 0,
        r.adapt matches Some(ta) ==> {
            &&& ta.wf(r.d2t@)
            &&& ta.source() == rows@
            &&& ta.stride() == row_bytes
            &&& ta.vocab() == n_vocab
            &&& ta.ranked() == ids@.len()
            &&& ta.budget() == n_spare
            &&& ta.filled() == r.n_pre
            &&& !ta.noticed_full()
        },
{
    let ghost rb = row_bytes as nat;
    let ghost ranked = ids@;
    let n_ids = ids.len();
    let first: u32 = ids[0];
    let mut head: Vec<u8> = Vec::new();
    let mut present: Vec<bool> = vec![false; n_vocab];
    let mut d2t = ids;
    let total = rows.len();
    let mut i: usize = 0;
    assert(0 * rb == 0);
    assert(ranked.take(0) =~= Seq::<u32>::empty());
    while i < n_ids
        invariant
            i <= n_ids,
            total == rows@.len(),
            n_ids == ranked.len(),
            d2t@ == ranked,
            rb == row_bytes,
            forall|j: int| 0 <= j < ranked.len() ==> #[trigger] ranked[j] < n_vocab,
            n_vocab * row_bytes <= rows@.len(),
            present@.len() == n_vocab,
            head_matches(head@, ranked.take(i as int), rows@, rb),
            forall|t: u32|
                t < n_vocab ==> (#[trigger] present@[t as int] <==> ranked.take(
                    i as int,
                ).contains(t)),
        decreases n_ids - i,
    {
        let id: usize = d2t[i] as usize;
        assert(ranked[i as int] < n_vocab);
        proof {
            lemma_row_bounds(rb, id as int, n_vocab as int);
            lemma_append_row(
                head@,
                ranked.take(i as int),
                rows@,
                rb,
                ranked[i as int],
                n_vocab as nat,
            );
            assert(ranked.take(i as int).push(ranked[i as int]) =~= ranked.take(i + 1));
        }
        append_row(&mut head, rows, id * row_bytes, row_bytes);
        let ghost p0 = present@;
        present.set(id, true);
        proof {
            let a = ranked.take(i as int);
            let b = ranked.take(i + 1);
            assert forall|t: u32| t < n_vocab implies (#[trigger] present@[t as int]
                <==> b.contains(t)) by {
                assert(b[i as int] == ranked[i as int]);
                if a.contains(t) {
                    let j = choose|j: int| 0 <= j < a.len() && a[j] == t;
                    assert(b[j] == t);
                }
                if b.contains(t) && t != ranked[i as int] {
                    let j = choose|j: int| 0 <= j < b.len() && b[j] == t;
                    assert(a[j] == t);
                }
                if t != ranked[i as int] {
                    assert(present@[t as int] == p0[t as int]);
                }
            }
        }
        i += 1;
    }
    assert(ranked.take(n_ids as int) =~= ranked);
    let mut k: usize = 0;
    while k < n_spare
        invariant
            k <= n_spare,
            total == rows@.len(),
            first == ranked[0],
            ranked.len() >= 1,
            first < n_vocab,
            rb == row_bytes,
            n_vocab * row_bytes <= rows@.len(),
            d2t@ == ranked + Seq::new(k as nat, |j: int| first),
            head_matches(head@, d2t@, rows@, rb),
        decreases n_spare - k,
    {
        proof {
            lemma_row_bounds(rb, first as int, n_vocab as int);
            lemma_append_row(head@, d2t@, rows@, rb, first, n_vocab as nat);
        }
        append_row(&mut head, rows, first as usize * row_bytes, row_bytes);
        d2t.push(first);
        assert(d2t@ =~= ranked + Seq::new((k + 1) as nat, |j: int| first));
        k += 1;
    }
    assert(d2t@.take(n_ids as int) =~= ranked);
    assert forall|s: int| 0 <= s < d2t@.len() implies #[trigger] d2t@[s] < n_vocab by {
        if s < ranked.len() {
            assert(d2t@[s] == ranked[s]);
        }
    }
    let ghost want = learn_all(
        ranked,
        Seq::empty(),
        n_vocab as nat,
        n_spare as nat,
        learned@,
    );
    if n_spare == 0 {
        proof {
            law_learning_only_adds(ranked, Seq::empty(), n_vocab as nat, 0, learned@);
            assert(d2t@.subrange(n_ids as int, n_ids as int) =~= want);
        }
        return TrimmedHead { head, d2t, adapt: None, n_pre: 0 };
    }
    let mut ta = TrimAdapt {
        src_rows: vstd::slice::slice_to_vec(rows),
        row_bytes,
        n_vocab,
        present,
        spare_base: n_ids,
        n_spare,
        used: 0,
        logged_full: false,
    };
    proof {
        assert(ta.learned(d2t@) =~= Seq::<u32>::empty());
        assert(ta.base(d2t@) =~= ranked);
        assert(ta.wf(d2t@));
    }
    let mut n_pre: usize = 0;
    let mut j: usize = 0;
    while j < learned.len()
        invariant
            j <= learned@.len(),
            rb == row_bytes,
            first == ranked[0],
            n_vocab * row_bytes <= rows@.len(),
            ta.wf(d2t@),
            ta.source() == rows@,
            ta.stride() == row_bytes,
            ta.vocab() == n_vocab,
            ta.ranked() == ranked.len(),
            ta.budget() == n_spare,
            ta.filled() == n_pre,
            n_pre <= n_spare,
            !ta.noticed_full(),
            ta.base(d2t@) == ranked,
            ta.learned(d2t@) == learn_all(
                ranked,
                Seq::empty(),
                n_vocab as nat,
                n_spare as nat,
                learned@.take(j as int),
            ),
            d2t@.len() == ranked.len() + n_spare,
            forall|s: int| ranked.len() + n_pre <= s < d2t@.len() ==> #[trigger] d2t@[s] == first,
            head_matches(head@, d2t@, rows@, rb),
        decreases learned.len() - j,
    {
        let ghost t0 = learned@.take(j as int);
        let ghost t1 = learned@.take(j + 1);
        let ghost map0 = d2t@;
        let ghost ta0 = ta;
        assert(t1.drop_last() =~= t0);
        assert(t1.last() == learned@[j as int]);
        if n_pre < n_spare {
            if let Some(w) = ta.maybe_add(learned[j], &mut d2t) {
                proof {
                    lemma_row_bounds(rb, w.slot as int, map0.len() as int);
                    law_learning_keeps_head_and_map_together(ta0, head@, map0, w);
                }
                overwrite(&mut head, w.offset, w.bytes.as_slice());
                n_pre += 1;
            }
        } else {
            assert(ta.learned(d2t@).len() == n_spare);
        }
        j += 1;
    }
    assert(learned@.take(learned@.len() as int) =~= learned@);
    TrimmedHead { head, d2t, adapt: Some(ta), n_pre }
}

/// The learned tokens that a sidecar file with the ids `prior` does not list yet, in the order
/// in which they were learned.
pub fn fresh_learned_ids(ta: &TrimAdapt, d2t: &[u32], prior: &[u32]) -> (r: Vec<u32>)
    requires
        ta.wf(d2t@),
    ensures
        r@ == ta.learned(d2t@).filter(|id: u32| !prior@.contains(id)),
{
    let mut fresh: Vec<u32> = Vec::new();
    let ghost keep = |id: u32| !prior@.contains(id);
    let ghost all = ta.learned(d2t@);
    let mut i: usize = 0;
    while i < ta.used
        invariant
            i <= ta.used,
            ta.wf(d2t@),
            all == ta.learned(d2t@),
            keep == (|id: u32| !prior@.contains(id)),
            fresh@ == all.take(i as int).filter(keep),
        decreases ta.used - i,
    {
        let id: u32 = d2t[ta.spare_base + i];
        assert(id == all[i as int]);
        proof {
            assert(all.take(i + 1).drop_last() =~= all.take(i as int));
            assert(all.take(i + 1).last() == id);
            reveal(Seq::filter);
        }
        if !crate::gemma_spec::contains_token(prior, id) {
            fresh.push(id);
        }
        i += 1;
    }
    assert(all.take(all.len() as int) =~= all);
    fresh
}

/// What a serve learned is there in the next one: with the saved ids appended to the file, each
/// token of `learned` is ranked or takes a spare row on loading, unless the spare rows are full.
pub proof fn law_saved_tokens_are_learned_again(
    base: Seq<u32>,
    learned: Seq<u32>,
    prior: Seq<u32>,
    n_vocab: nat,
    n_spare: nat,
)
    requires
        forall|i: int| 0 <= i < learned.len() ==> #[trigger] learned[i] < n_vocab,
    ensures
        ({
            let file = prior + learned.filter(|id: u32| !prior.contains(id));
            let next = learn_all(base, Seq::empty(), n_vocab, n_spare, file);
            forall|i: int|
                0 <= i < learned.len() ==> (base.contains(#[trigger] learned[i]) || next.contains(
                    learned[i],
                ) || next.len() == n_spare)
        }),
{
    broadcast use vstd::seq_lib::group_filter_ensures;

    let keep = |id: u32| !prior.contains(id);
    let fresh = learned.filter(keep);
    let file = prior + fresh;
    let next = learn_all(base, Seq::empty(), n_vocab, n_spare, file);
    law_offered_tokens_are_covered(base, Seq::empty(), n_vocab, n_spare, file);
    assert forall|i: int| 0 <= i < learned.len() implies (base.contains(#[trigger] learned[i])
        || next.contains(learned[i]) || next.len() == n_spare) by {
        let t = learned[i];
        if prior.contains(t) {
            let j = choose|j: int| 0 <= j < prior.len() && prior[j] == t;
            assert(file[j] == t);
        } else {
            learned.lemma_filter_contains(keep, i);
            let j = choose|j: int| 0 <= j < fresh.len() && fresh[j] == t;
            assert(file[prior.len() + j] == t);
        }
    }
}

} // verus!
