//! Decoding by replay of captured graphs.
//!
//! A captured step serves every context length whose attention kernel takes the same split
//! geometry; that geometry is the key under which it is kept. Capturing runs the step for real a
//! few times, so the state before it is saved and put back.

use vstd::prelude::*;

use crate::attention::KvMeta;
use crate::decode_plan::StepCache;
use crate::launch::{Buf, Store, Term};

verus! {

/// Split geometry of the attention kernel: vectorized or not, and the number of splits.
#[derive(Clone, Copy, Debug, PartialEq, Eq, Structural)]
pub struct BucketKey {
    pub fa_vec: bool,
    pub n_splits: usize,
}

/// A captured step, and the context length that it was captured at.
#[derive(Clone, Copy, Debug, PartialEq, Eq, Structural)]
pub struct GraphEntry {
    pub key: BucketKey,
    pub bucket_max: usize,
}

/// The captured steps.
pub struct GraphDecodeState {
    pub entries: Vec<GraphEntry>,
    /// Captures so far.
    pub captures: usize,
}

/// The place of the first entry under `key`.
pub open spec fn entry_of(entries: Seq<GraphEntry>, key: BucketKey) -> Option<int>
    decreases entries.len(),
{
    if entries.len() == 0 {
        None
    } else if entries[0].key == key {
        Some(0)
    } else {
        match entry_of(entries.skip(1), key) {
            Some(i) => Some(i + 1),
            None => None,
        }
    }
}

proof fn lemma_entry_of(entries: Seq<GraphEntry>, key: BucketKey)
    ensures
        match entry_of(entries, key) {
            Some(i) => 0 <= i < entries.len() && entries[i].key == key && forall|j: int|
                0 <= j < i ==> (#[trigger] entries[j]).key != key,
            None => forall|j: int| 0 <= j < entries.len() ==> (#[trigger] entries[j]).key != key,
        },
    decreases entries.len(),
{
    if entries.len() > 0 && entries[0].key != key {
        let t = entries.skip(1);
        lemma_entry_of(t, key);
        match entry_of(t, key) {
            Some(i) => {
                assert(entries[i + 1] == t[i]);
                assert forall|j: int| 0 <= j < i + 1 implies (#[trigger] entries[j]).key != key by {
                    if j > 0 {
                        assert(t[j - 1] == entries[j]);
                    }
                }
            },
            None => {
                assert forall|j: int| 0 <= j < entries.len() implies (#[trigger] entries[j]).key
                    != key by {
                    if j > 0 {
                        assert(t[j - 1] == entries[j]);
                    }
                }
            },
        }
    }
}

/// The captured steps once one for `key` is there, and its place: the one that is there already,
/// or one captured now at the length `t_kv`.
pub open spec fn taken(entries: Seq<GraphEntry>, key: BucketKey, t_kv: usize) -> (
    Seq<GraphEntry>,
    int,
) {
    match entry_of(entries, key) {
        Some(i) => (entries, i),
        None => (entries.push((GraphEntry { key, bucket_max: t_kv })), entries.len() as int),
    }
}

impl GraphDecodeState {
    /// Nothing captured.
    pub fn new() -> (r: GraphDecodeState)
        ensures
            r.entries@.len() == 0,
            r.captures == 0,
    {
        GraphDecodeState { entries: Vec::new(), captures: 0 }
    }

    /// The captured step for `key`; none when it has to be captured first.
    pub fn lookup(&self, key: BucketKey) -> (r: Option<usize>)
        ensures
            match r {
                Some(i) => entry_of(self.entries@, key) == Some(i as int) && i < self.entries@.len()
                    && self.entries@[i as int].key == key,
                None => entry_of(self.entries@, key) is None,
            },
    {
        let mut i: usize = 0;
        proof {
            lemma_entry_of(self.entries@, key);
        }
        while i < self.entries.len()
            invariant
                i <= self.entries@.len(),
                forall|j: int| 0 <= j < i ==> (#[trigger] self.entries@[j]).key != key,
                match entry_of(self.entries@, key) {
                    Some(k) => 0 <= k < self.entries@.len() && self.entries@[k].key == key
                        && forall|j: int|
                        0 <= j < k ==> (#[trigger] self.entries@[j]).key != key,
                    None => forall|j: int|
                        0 <= j < self.entries@.len() ==> (#[trigger] self.entries@[j]).key != key,
                },
            decreases self.entries@.len() - i,
        {
            if self.entries[i].key == key {
                assert(self.entries@[i as int].key == key);
                return Some(i);
            }
            i += 1;
        }
        None
    }

    /// Records a captured step.
    pub fn captured(&mut self, key: BucketKey, bucket_max: usize)
        requires
            old(self).captures < usize::MAX,
        ensures
            final(self).entries@ == old(self).entries@.push((GraphEntry { key, bucket_max })),
            final(self).captures == old(self).captures + 1,
    {
        self.entries.push(GraphEntry { key, bucket_max });
        self.captures = self.captures + 1;
    }

    /// Takes the captured step for `key`, at the context length `t_kv`: its place, and whether it
    /// is to be captured first.
    pub fn take_step(&mut self, key: BucketKey, t_kv: usize) -> (r: (usize, bool))
        requires
            old(self).captures < usize::MAX,
        ensures
            (final(self).entries@, r.0 as int) == taken(old(self).entries@, key, t_kv),
            r.1 == entry_of(old(self).entries@, key) is None,
            final(self).captures == old(self).captures + (if r.1 {
                1int
            } else {
                0int
            }),
            r.0 < final(self).entries@.len(),
    {
        match self.lookup(key) {
            Some(i) => (i, false),
            None => {
                let at = self.entries.len();
                self.captured(key, t_kv);
                (at, true)
            },
        }
    }
}

/// Every captured step was captured at a length of its own key.
pub open spec fn keyed(entries: Seq<GraphEntry>, key_of: spec_fn(int) -> BucketKey) -> bool {
    forall|i: int|
        0 <= i < entries.len() ==> key_of((#[trigger] entries[i]).bucket_max as int)
            == entries[i].key
}

/// A step that is taken was captured at a length with the same split geometry as the length that
/// it runs at, and the captured steps stay so.
pub proof fn law_replay_keeps_geometry(
    entries: Seq<GraphEntry>,
    key_of: spec_fn(int) -> BucketKey,
    t_kv: usize,
)
    requires
        keyed(entries, key_of),
    ensures
        ({
            let (after, i) = taken(entries, key_of(t_kv as int), t_kv);
            &&& keyed(after, key_of)
            &&& 0 <= i < after.len()
            &&& key_of(after[i].bucket_max as int) == key_of(t_kv as int)
        }),
{
    lemma_entry_of(entries, key_of(t_kv as int));
    let e = GraphEntry { key: key_of(t_kv as int), bucket_max: t_kv };
    assert forall|i: int| 0 <= i < entries.push(e).len() implies key_of(
        (#[trigger] entries.push(e)[i]).bucket_max as int,
    ) == entries.push(e)[i].key by {
        if i < entries.len() {
            assert(entries.push(e)[i] == entries[i]);
        }
    }
}

/// Context length of the next step: the tokens in the cache and the one to come.
pub fn next_t_kv(cache: &StepCache) -> (r: usize)
    requires
        cache.pos < usize::MAX,
    ensures
        r == cache.pos + 1,
{
    cache.pos + 1
}

/// The host's lengths, one row further.
pub open spec fn one_further(kv: Seq<Option<KvMeta>>) -> Seq<Option<KvMeta>> {
    Seq::new(
        kv.len(),
        |i: int|
            match kv[i] {
                Some(m) => Some(KvMeta { len: (m.len + 1) as usize, ..m }),
                None => None,
            },
    )
}

/// Follows a replayed step on the host.
pub fn advance(cache: &mut StepCache)
    requires
        old(cache).pos < usize::MAX,
        forall|i: int|
            0 <= i < old(cache).kv@.len() ==> (#[trigger] old(cache).kv@[i] matches Some(m)
                ==> m.len < usize::MAX),
    ensures
        final(cache).pos == old(cache).pos + 1,
        final(cache).kv@ == one_further(old(cache).kv@),
{
    let ghost kv0 = cache.kv@;
    cache.pos = cache.pos + 1;
    let mut i: usize = 0;
    let n = cache.kv.len();
    while i < n
        invariant
            i <= n,
            n == cache.kv@.len(),
            n == kv0.len(),
            cache.pos == old(cache).pos + 1,
            kv0 == old(cache).kv@,
            forall|k: int|
                0 <= k < kv0.len() ==> (#[trigger] kv0[k] matches Some(m) ==> m.len < usize::MAX),
            forall|k: int| 0 <= k < i ==> #[trigger] cache.kv@[k] == one_further(kv0)[k],
            forall|k: int| i <= k < n ==> #[trigger] cache.kv@[k] == kv0[k],
        decreases n - i,
    {
        match cache.kv[i] {
            Some(m) => {
                assert(kv0[i as int] == Some(m));
                let grown = KvMeta {
                    len: m.len + 1,
                    k_tok_bytes: m.k_tok_bytes,
                    v_tok_bytes: m.v_tok_bytes,
                    k_bytes: m.k_bytes,
                    v_bytes: m.v_bytes,
                };
                cache.kv.set(i, Some(grown));
            },
            None => {},
        }
        i += 1;
    }
    assert(cache.kv@ =~= one_further(kv0));
}

/// What is saved before a capture: the device counters.
pub struct GraphSave {
    pub pos: i32,
    /// Per layer, the device's row counter, for layers with a cache.
    pub lens: Vec<Option<i32>>,
    pub token: u32,
}

/// One step of putting the state back.
#[derive(Clone, Copy, Debug, PartialEq, Eq, Structural)]
pub enum Restore {
    /// Recurrent states and the host's lengths, from the snapshot.
    Rollback,
    SetPos { pos: i32 },
    SetLen { layer: usize, len: i32 },
    SetToken { token: u32 },
}

/// The row counters of the first `n` layers.
pub open spec fn len_steps(lens: Seq<Option<i32>>, n: nat) -> Seq<Restore>
    decreases n,
{
    if n == 0 {
        Seq::empty()
    } else {
        let before = len_steps(lens, (n - 1) as nat);
        match lens[n - 1] {
            Some(len) => before.push(Restore::SetLen { layer: (n - 1) as usize, len }),
            None => before,
        }
    }
}

/// Everything that puts the counters and the recurrent states back.
pub open spec fn restore_list(pos: i32, lens: Seq<Option<i32>>, token: u32) -> Seq<Restore> {
    (seq![Restore::Rollback, Restore::SetPos { pos }] + len_steps(lens, lens.len())).push(
        Restore::SetToken { token },
    )
}

/// Everything that puts the saved state back.
pub open spec fn restore_steps(save: GraphSave) -> Seq<Restore> {
    restore_list(save.pos, save.lens@, save.token)
}

impl GraphSave {
    /// Lists what puts the state back.
    pub fn restore(&self) -> (r: Vec<Restore>)
        ensures
            r@ == restore_steps(*self),
    {
        let mut r: Vec<Restore> = Vec::new();
        r.push(Restore::Rollback);
        r.push(Restore::SetPos { pos: self.pos });
        let ghost r0 = r@;
        let mut i: usize = 0;
        assert(r@ =~= r0 + len_steps(self.lens@, 0));
        while i < self.lens.len()
            invariant
                i <= self.lens@.len(),
                r@ == r0 + len_steps(self.lens@, i as nat),
            decreases self.lens@.len() - i,
        {
            match self.lens[i] {
                Some(len) => {
                    r.push(Restore::SetLen { layer: i, len });
                },
                None => {},
            }
            assert(r@ =~= r0 + len_steps(self.lens@, (i + 1) as nat));
            i += 1;
        }
        r.push(Restore::SetToken { token: self.token });
        assert(r@ =~= restore_steps(*self));
        r
    }
}

/// A recurrent state of the sequence.
pub open spec fn is_recurrent(b: Buf) -> bool {
    match b {
        Buf::Conv { seq, layer } => seq == 0,
        Buf::Ssm { seq, layer } => seq == 0,
        _ => false,
    }
}

/// The effect of one step of putting the state back; `snap` is the store of the snapshot.
pub open spec fn apply(s: Store, snap: Store, r: Restore) -> Store {
    match r {
        Restore::Rollback => Map::new(
            |b: Buf| true,
            |b: Buf|
                if is_recurrent(b) {
                    snap[b]
                } else {
                    s[b]
                },
        ),
        Restore::SetPos { pos } => s.insert(Buf::Pos, seq![Term::Int(pos as int)]),
        Restore::SetLen { layer, len } => s.insert(
            Buf::Len { seq: 0, layer },
            seq![Term::Int(len as int)],
        ),
        Restore::SetToken { token } => s.insert(Buf::Token, seq![Term::Int(token as int)]),
    }
}

pub open spec fn apply_all(s: Store, snap: Store, rs: Seq<Restore>) -> Store
    decreases rs.len(),
{
    if rs.len() == 0 {
        s
    } else {
        apply(apply_all(s, snap, rs.drop_last()), snap, rs.last())
    }
}

proof fn lemma_apply_concat(s: Store, snap: Store, a: Seq<Restore>, b: Seq<Restore>)
    ensures
        apply_all(s, snap, a + b) == apply_all(apply_all(s, snap, a), snap, b),
    decreases b.len(),
{
    if b.len() == 0 {
        assert(a + b =~= a);
    } else {
        lemma_apply_concat(s, snap, a, b.drop_last());
        assert((a + b).drop_last() =~= a + b.drop_last());
    }
}

proof fn lemma_len_steps(s: Store, snap: Store, lens: Seq<Option<i32>>, n: nat)
    requires
        n <= lens.len() <= usize::MAX,
    ensures
        ({
            let e = apply_all(s, snap, len_steps(lens, n));
            &&& forall|i: int|
                0 <= i < n && lens[i] is Some ==> #[trigger] e[Buf::Len { seq: 0, layer: i as usize }]
                    == seq![Term::Int(lens[i]->0 as int)]
            &&& forall|b: Buf| !(b is Len) ==> #[trigger] e[b] == s[b]
        }),
    decreases n,
{
    if n > 0 {
        lemma_len_steps(s, snap, lens, (n - 1) as nat);
        let before = len_steps(lens, (n - 1) as nat);
        match lens[n - 1] {
            Some(len) => {
                let op = Restore::SetLen { layer: (n - 1) as usize, len };
                assert(before.push(op).drop_last() =~= before);
                let e0 = apply_all(s, snap, before);
                let e = apply_all(s, snap, len_steps(lens, n));
                assert(e == apply(e0, snap, op));
                assert forall|i: int| 0 <= i < n && lens[i] is Some implies #[trigger] e[Buf::Len {
                    seq: 0,
                    layer: i as usize,
                }] == seq![Term::Int(lens[i]->0 as int)] by {
                    if i < n - 1 {
                        assert(e0[Buf::Len { seq: 0, layer: i as usize }] == seq![
                            Term::Int(lens[i]->0 as int),
                        ]);
                    }
                }
            },
            None => {},
        }
    }
}

/// Putting the state back sets position, token and row counters to what was saved, takes the
/// recurrent states from the snapshot, and leaves everything else as it is.
pub proof fn law_restore(
    s: Store,
    snap: Store,
    pos: i32,
    lens: Seq<Option<i32>>,
    token: u32,
)
    requires
        lens.len() <= usize::MAX,
    ensures
        ({
            let e = apply_all(s, snap, restore_list(pos, lens, token));
            &&& e[Buf::Pos] == seq![Term::Int(pos as int)]
            &&& e[Buf::Token] == seq![Term::Int(token as int)]
            &&& forall|i: int|
                0 <= i < lens.len() && lens[i] is Some ==> #[trigger] e[Buf::Len {
                    seq: 0,
                    layer: i as usize,
                }] == seq![Term::Int(lens[i]->0 as int)]
            &&& forall|b: Buf| is_recurrent(b) ==> #[trigger] e[b] == snap[b]
            &&& forall|b: Buf|
                !is_recurrent(b) && !(b is Len) && b != Buf::Pos && b != Buf::Token
                    ==> #[trigger] e[b] == s[b]
        }),
{
    let a = seq![Restore::Rollback, Restore::SetPos { pos }];
    let b = len_steps(lens, lens.len());
    let all = restore_list(pos, lens, token);
    assert(all.drop_last() =~= a + b);
    lemma_apply_concat(s, snap, a, b);
    assert(a.drop_last() =~= seq![Restore::Rollback]);
    assert(seq![Restore::Rollback].drop_last() =~= Seq::<Restore>::empty());
    reveal_with_fuel(apply_all, 3);
    let s1 = apply_all(s, snap, a);
    assert(s1 == apply(apply(s, snap, Restore::Rollback), snap, Restore::SetPos { pos }));
    lemma_len_steps(s1, snap, lens, lens.len());
    let s2 = apply_all(s1, snap, b);
    let e = apply_all(s, snap, all);
    assert(e == apply(s2, snap, Restore::SetToken { token }));
    assert forall|i: int| 0 <= i < lens.len() && lens[i] is Some implies #[trigger] e[Buf::Len {
        seq: 0,
        layer: i as usize,
    }] == seq![Term::Int(lens[i]->0 as int)] by {
        assert(s2[Buf::Len { seq: 0, layer: i as usize }] == seq![
            Term::Int(lens[i]->0 as int),
        ]);
    }
    assert forall|b: Buf| is_recurrent(b) implies #[trigger] e[b] == snap[b] by {
        assert(s2[b] == s1[b]);
    }
    assert forall|b: Buf|
        !is_recurrent(b) && !(b is Len) && b != Buf::Pos && b != Buf::Token implies #[trigger] e[b]
        == s[b] by {
        assert(s2[b] == s1[b]);
    }
}

/// A step's graph is found again by its key, entries stay where they are, and a second step with
/// the same key takes the same graph.
pub proof fn law_taken_is_found(
    entries: Seq<GraphEntry>,
    key: BucketKey,
    t_kv: usize,
    later: usize,
)
    ensures
        ({
            let (after, i) = taken(entries, key, t_kv);
            &&& 0 <= i < after.len() && after[i].key == key
            &&& entry_of(after, key) == Some(i)
            &&& taken(after, key, later) == (after, i)
            &&& entries.len() <= after.len() <= entries.len() + 1
            &&& after.take(entries.len() as int) == entries
            &&& after.len() > entries.len() <==> forall|j: int|
                0 <= j < entries.len() ==> (#[trigger] entries[j]).key != key
        }),
{
    let (after, i) = taken(entries, key, t_kv);
    lemma_entry_of(entries, key);
    lemma_entry_of(after, key);
    assert(after.take(entries.len() as int) =~= entries);
    if entry_of(entries, key) is None {
        assert(after[entries.len() as int].key == key);
        assert(entry_of(after, key) is Some);
        let k = entry_of(after, key)->0;
        if k < entries.len() {
            assert(after[k] == entries[k]);
        }
    }
}

} // verus!
