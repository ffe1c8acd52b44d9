//! Greedy speculative decoding with a separate draft model.
//!
//! Each round drafts `k` tokens, verifies them in one batched forward of the target model, and
//! commits the accepted prefix followed by the target's own next token. The committed stream is
//! token for token the stream of plain greedy decoding.

use vstd::prelude::*;

use crate::greedy::accepted_prefix;

verus! {

/// What one committed round asks of the target model: restore the state from before the round,
/// then replay `replay` as one batched forward.
pub struct EagleRound {
    /// Drafts that the target model confirmed.
    pub n_acc: usize,
    /// The target model's own token after the accepted drafts.
    pub bonus: u32,
    /// Accepted drafts followed by `bonus`.
    pub replay: Vec<u32>,
    /// Column of the replay that holds the predecessor of `bonus`; `None` when the predecessor
    /// was committed by an earlier round.
    pub pred_col: Option<usize>,
}

/// State of a speculative generation between two rounds.
pub struct EagleRun {
    out: Vec<u32>,
    prompt_len: usize,
    max_new: usize,
    k: usize,
    pos: usize,
    last_token: u32,
    total_drafted: usize,
    total_accepted: usize,
}

/// The output after one more round, capped at `max_new` tokens.
pub open spec fn commit_round(
    out: Seq<u32>,
    drafts: Seq<u32>,
    preds: Seq<u32>,
    max_new: nat,
) -> Seq<u32> {
    let all = out + crate::greedy::accepted_run(drafts, preds);
    if all.len() <= max_new {
        all
    } else {
        all.take(max_new as int)
    }
}

impl EagleRun {
    /// Tokens committed so far.
    pub closed spec fn committed(&self) -> Seq<u32> {
        self.out@
    }

    /// Cap on the number of generated tokens.
    pub closed spec fn limit(&self) -> nat {
        self.max_new as nat
    }

    /// Drafts per round.
    pub closed spec fn depth(&self) -> nat {
        self.k as nat
    }

    /// Position of the next token in the target model's cache.
    pub closed spec fn position(&self) -> nat {
        self.pos as nat
    }

    /// Length of the prompt.
    pub closed spec fn prompt_tokens(&self) -> nat {
        self.prompt_len as nat
    }

    /// Drafted and accepted token counts.
    pub closed spec fn totals(&self) -> (nat, nat) {
        (self.total_drafted as nat, self.total_accepted as nat)
    }

    /// The counters are consistent with the committed tokens, and nothing can overflow before
    /// the run ends.
    pub closed spec fn wf(&self) -> bool {
        &&& self.k >= 1
        &&& self.out@.len() >= 1
        &&& self.out@.len() <= self.max_new || self.out@.len() == 1
        &&& self.prompt_len + self.max_new + self.k + 8 <= usize::MAX
        &&& self.k * self.max_new <= usize::MAX
        &&& self.total_accepted <= self.total_drafted
        &&& self.total_drafted <= self.k * (self.out@.len() - 1)
        &&& self.out@.len() < self.max_new ==> {
            &&& self.pos == self.prompt_len + self.out@.len()
            &&& self.last_token == self.out@.last()
        }
    }

    /// Starts a run after the prompt was fed and `first`, the greedy choice after it, was fed too.
    pub fn start(prompt_len: usize, first: u32, max_new: usize, k: usize) -> (r: EagleRun)
        requires
            k >= 1,
            prompt_len >= 1,
            prompt_len + max_new + k + 8 <= usize::MAX,
            k * max_new <= usize::MAX,
        ensures
            r.wf(),
            r.committed() == seq![first],
            r.limit() == max_new,
            r.depth() == k,
            r.prompt_tokens() == prompt_len,
            r.position() == prompt_len + 1,
            r.totals() == (0nat, 0nat),
    {
        let mut out: Vec<u32> = Vec::new();
        out.push(first);
        assert(out@ =~= seq![first]);
        assert(k * (out@.len() - 1) == 0) by (nonlinear_arith)
            requires
                out@.len() == 1,
        ;
        EagleRun {
            out,
            prompt_len,
            max_new,
            k,
            pos: prompt_len + 1,
            last_token: first,
            total_drafted: 0,
            total_accepted: 0,
        }
    }

    /// Cache capacity that the whole run needs.
    pub fn max_ctx(prompt_len: usize, max_new: usize, k: usize) -> (r: usize)
        requires
            prompt_len + max_new + k + 8 <= usize::MAX,
        ensures
            r == prompt_len + max_new + k + 8,
    {
        prompt_len + max_new + k + 8
    }

    /// Whether another round is due.
    pub fn running(&self) -> (r: bool)
        ensures
            r == (self.committed().len() < self.limit()),
    {
        self.out.len() < self.max_new
    }

    /// The token that the next round drafts from: the last one committed.
    pub fn draft_seed(&self) -> (r: u32)
        requires
            self.wf(),
            self.committed().len() < self.limit(),
        ensures
            r == self.committed().last(),
    {
        self.last_token
    }

    /// Rotary position of draft step `j` of the next round.
    pub fn draft_pos(&self, j: usize) -> (r: usize)
        requires
            self.wf(),
            self.committed().len() < self.limit(),
            j < self.depth(),
        ensures
            r == self.prompt_tokens() + self.committed().len() + j,
    {
        self.pos + j
    }

    /// Commits one round: `preds[j]` is the target's greedy choice after the committed tokens and
    /// the first `j` drafts.
    pub fn commit(&mut self, drafts: &[u32], preds: &[u32]) -> (r: EagleRound)
        requires
            old(self).wf(),
            old(self).committed().len() < old(self).limit(),
            drafts@.len() == old(self).depth(),
            preds@.len() == drafts@.len() + 1,
        ensures
            final(self).wf(),
            final(self).limit() == old(self).limit(),
            final(self).depth() == old(self).depth(),
            final(self).prompt_tokens() == old(self).prompt_tokens(),
            final(self).committed() == commit_round(
                old(self).committed(),
                drafts@,
                preds@,
                old(self).limit(),
            ),
            final(self).position() == old(self).position() + r.n_acc + 1,
            final(self).totals() == (
                old(self).totals().0 + drafts@.len(),
                old(self).totals().1 + r.n_acc as nat,
            ),
            r.n_acc == crate::greedy::accepted_len(drafts@, preds@),
            r.bonus == preds@[r.n_acc as int],
            r.replay@ == crate::greedy::accepted_run(drafts@, preds@),
            r.pred_col == (if r.n_acc == 0 {
                None::<usize>
            } else {
                Some((r.n_acc - 1) as usize)
            }),
    {
        let ghost before = self.out@;
        let n_acc = accepted_prefix(drafts, preds);
        let bonus = preds[n_acc];
        let mut replay: Vec<u32> = Vec::new();
        let mut j: usize = 0;
        while j < n_acc
            invariant
                j <= n_acc <= drafts@.len(),
                replay@ == drafts@.take(j as int),
            decreases n_acc - j,
        {
            replay.push(drafts[j]);
            assert(drafts@.take(j as int).push(drafts@[j as int]) =~= drafts@.take(j + 1));
            j += 1;
        }
        replay.push(bonus);
        let ghost run = crate::greedy::accepted_run(drafts@, preds@);
        assert(replay@ == run);
        let mut i: usize = 0;
        while i < replay.len() && self.out.len() < self.max_new
            invariant
                i <= replay@.len(),
                self.out@ == before + replay@.take(i as int),
                self.out@.len() <= self.max_new,
                self.max_new == old(self).max_new,
                self.k == old(self).k,
                self.prompt_len == old(self).prompt_len,
                self.pos == old(self).pos,
                self.total_drafted == old(self).total_drafted,
                self.total_accepted == old(self).total_accepted,
            decreases replay@.len() - i,
        {
            self.out.push(replay[i]);
            assert(replay@.take(i as int).push(replay@[i as int]) =~= replay@.take(i + 1));
            assert((before + replay@.take(i as int)).push(replay@[i as int]) =~= before
                + replay@.take(i + 1));
            i += 1;
        }
        proof {
            let all = before + run;
            if i == replay@.len() {
                assert(replay@.take(i as int) =~= replay@);
            } else {
                assert(self.out@.len() == self.max_new);
                assert(all.take(self.max_new as int) =~= self.out@);
            }
            assert(self.out@ == commit_round(before, drafts@, preds@, self.max_new as nat));
            assert(i >= 1);
            let n0 = before.len() as int;
            let n1 = self.out@.len() as int;
            let kk = self.k as int;
            assert(kk * (n0 - 1) + kk <= kk * (n1 - 1) <= kk * self.max_new) by (nonlinear_arith)
                requires
                    kk >= 1,
                    n1 >= n0 + 1,
                    n1 <= self.max_new,
            ;
            if n1 < self.max_new {
                assert(i == replay@.len());
                assert(self.out@.last() == bonus);
            }
        }
        self.last_token = bonus;
        self.pos = self.pos + n_acc + 1;
        self.total_drafted = self.total_drafted + drafts.len();
        self.total_accepted = self.total_accepted + n_acc;
        let pred_col = if n_acc == 0 {
            None
        } else {
            Some(replay.len() - 2)
        };
        EagleRound { n_acc, bonus, replay, pred_col }
    }

    /// Ends the run: the generated tokens, the drafted and the accepted token counts.
    pub fn finish(self) -> (r: (Vec<u32>, usize, usize))
        requires
            self.wf(),
            self.committed().len() >= self.limit(),
        ensures
            r.0@ == self.committed().take(self.limit() as int),
            (r.1 as nat, r.2 as nat) == self.totals(),
    {
        let mut out = self.out;
        out.truncate(self.max_new);
        (out, self.total_drafted, self.total_accepted)
    }
}

/// One round as the target model sees it: what was drafted and what it predicted.
pub ghost struct Round {
    pub drafts: Seq<u32>,
    pub preds: Seq<u32>,
}

/// The committed tokens after `rounds`, starting from the token `first`.
pub open spec fn committed_after(first: u32, rounds: Seq<Round>, max_new: nat) -> Seq<u32>
    decreases rounds.len(),
{
    if rounds.len() == 0 {
        seq![first]
    } else {
        commit_round(
            committed_after(first, rounds.drop_last(), max_new),
            rounds.last().drafts,
            rounds.last().preds,
            max_new,
        )
    }
}

/// Every round was due when it ran and was verified against the greedy model `f`.
pub open spec fn honest_rounds(
    f: spec_fn(Seq<u32>) -> u32,
    prompt: Seq<u32>,
    rounds: Seq<Round>,
    max_new: nat,
) -> bool
    decreases rounds.len(),
{
    rounds.len() > 0 ==> {
        let before = committed_after(f(prompt), rounds.drop_last(), max_new);
        &&& honest_rounds(f, prompt, rounds.drop_last(), max_new)
        &&& before.len() < max_new
        &&& crate::greedy::verifies(f, prompt + before, rounds.last().drafts, rounds.last().preds)
    }
}

/// Committing a verified round to a greedy stream leaves a greedy stream.
pub proof fn law_round_keeps_greedy(
    f: spec_fn(Seq<u32>) -> u32,
    prompt: Seq<u32>,
    out: Seq<u32>,
    drafts: Seq<u32>,
    preds: Seq<u32>,
    max_new: nat,
)
    requires
        out == crate::greedy::greedy_stream(f, prompt, out.len()),
        out.len() < max_new,
        crate::greedy::verifies(f, prompt + out, drafts, preds),
    ensures
        ({
            let next = commit_round(out, drafts, preds, max_new);
            &&& next == crate::greedy::greedy_stream(f, prompt, next.len())
            &&& out.len() < next.len() <= max_new
        }),
{
    use_accepted_run(f, prompt, out, drafts, preds);
    let n = crate::greedy::accepted_run(drafts, preds).len();
    let all = out + crate::greedy::accepted_run(drafts, preds);
    if all.len() > max_new {
        crate::greedy::law_greedy_stream_prefix(f, prompt, max_new, all.len());
    }
}

proof fn use_accepted_run(
    f: spec_fn(Seq<u32>) -> u32,
    prompt: Seq<u32>,
    out: Seq<u32>,
    drafts: Seq<u32>,
    preds: Seq<u32>,
)
    requires
        out == crate::greedy::greedy_stream(f, prompt, out.len()),
        crate::greedy::verifies(f, prompt + out, drafts, preds),
    ensures
        ({
            let all = out + crate::greedy::accepted_run(drafts, preds);
            &&& all == crate::greedy::greedy_stream(f, prompt, all.len())
            &&& all.len() > out.len()
        }),
{
    crate::greedy::law_accepted_run_is_greedy(f, prompt + out, drafts, preds);
    crate::greedy::lemma_accepted_len(drafts, preds);
    let n = (crate::greedy::accepted_len(drafts, preds) + 1) as nat;
    crate::greedy::law_greedy_stream_resumes(f, prompt, out.len(), n);
    crate::greedy::lemma_greedy_stream(f, prompt + out, n);
}

/// Speculative decoding is exact: whatever the draft model proposes, a finished run returns the
/// `max_new` tokens that plain greedy decoding of the target model returns.
pub proof fn law_run_is_greedy(
    f: spec_fn(Seq<u32>) -> u32,
    prompt: Seq<u32>,
    rounds: Seq<Round>,
    max_new: nat,
)
    requires
        honest_rounds(f, prompt, rounds, max_new),
    ensures
        ({
            let out = committed_after(f(prompt), rounds, max_new);
            &&& out == crate::greedy::greedy_stream(f, prompt, out.len())
            &&& out.len() >= max_new ==> out.take(max_new as int)
                == crate::greedy::greedy_stream(f, prompt, max_new)
        }),
    decreases rounds.len(),
{
    let out = committed_after(f(prompt), rounds, max_new);
    if rounds.len() == 0 {
        assert(prompt + Seq::<u32>::empty() =~= prompt);
        assert(crate::greedy::greedy_stream(f, prompt, 0) =~= Seq::<u32>::empty());
        assert(crate::greedy::greedy_stream(f, prompt, 1) =~= seq![f(prompt)]);
    } else {
        law_run_is_greedy(f, prompt, rounds.drop_last(), max_new);
        law_round_keeps_greedy(
            f,
            prompt,
            committed_after(f(prompt), rounds.drop_last(), max_new),
            rounds.last().drafts,
            rounds.last().preds,
            max_new,
        );
    }
    if out.len() >= max_new {
        crate::greedy::law_greedy_stream_prefix(f, prompt, max_new, out.len());
    }
}

} // verus!
