use bw24_engine::eagle::EagleRun;
use bw24_engine::gemma_spec::{
    adapt_depth, contains_token, draft_depth_cap, grid_rung, longest_kv, prime_route,
    seed_needs_norm, GraphKey, PrimeRoute, RoundPlan, SpecModel, SpecOptions, SpecRun,
    SpecSettings,
};
use bw24_engine::greedy::{accepted_prefix, first_divergence};
use bw24_engine::trim::{
    fresh_learned_ids, trim_adapt_learn, trim_adapt_stats, trim_head,
};

/// A model: the next token is a fixed function of the context.
fn next(ctx: &[u32]) -> u32 {
    let mut h = 17u32;
    for &t in ctx.iter().rev().take(3) {
        h = h.wrapping_mul(31).wrapping_add(t);
    }
    (h.wrapping_add(ctx.len() as u32)) % 11
}

fn greedy(prompt: &[u32], n: usize) -> Vec<u32> {
    let mut ctx = prompt.to_vec();
    for _ in 0..n {
        let t = next(&ctx);
        ctx.push(t);
    }
    ctx[prompt.len()..].to_vec()
}

/// Drafts after `ctx`: right but for every `wrong`-th token.
fn draft(ctx: &[u32], k: usize, wrong: usize) -> Vec<u32> {
    let mut c = ctx.to_vec();
    let mut out = Vec::new();
    for j in 0..k {
        let mut t = next(&c);
        if wrong > 0 && (ctx.len() + j) % wrong == 0 {
            t = (t + 1) % 11;
        }
        out.push(t);
        c.push(t);
    }
    out
}

/// What the model picks after `ctx` and after each draft.
fn verify(ctx: &[u32], drafts: &[u32]) -> Vec<u32> {
    let mut c = ctx.to_vec();
    let mut out = vec![next(&c)];
    for &d in drafts {
        c.push(d);
        out.push(next(&c));
    }
    out
}

#[test]
fn common_prefixes() {
    assert_eq!(accepted_prefix(&[1, 2, 3], &[1, 2, 4, 5]), 2);
    assert_eq!(accepted_prefix(&[], &[1]), 0);
    assert_eq!(first_divergence(&[1, 2], &[1, 2]), None);
    assert_eq!(first_divergence(&[1, 2], &[1, 3]), Some(1));
    assert_eq!(first_divergence(&[1, 2], &[1, 2, 3]), Some(2));
    assert_eq!(first_divergence(&[], &[]), None);
}

#[test]
fn eagle_runs_are_greedy_whatever_is_drafted() {
    let prompt = [3u32, 1, 4, 1, 5];
    for k in 1..5 {
        for wrong in 0..4 {
            for max_new in [1usize, 2, 7, 20] {
                let mut run = EagleRun::start(prompt.len(), next(&prompt), max_new, k);
                assert_eq!(EagleRun::max_ctx(prompt.len(), max_new, k), 5 + max_new + k + 8);
                let mut committed = vec![next(&prompt)];
                while run.running() {
                    assert_eq!(run.draft_seed(), *committed.last().unwrap());
                    assert_eq!(run.draft_pos(0), prompt.len() + committed.len());
                    let ctx: Vec<u32> = prompt.iter().chain(&committed).copied().collect();
                    let drafts = draft(&ctx, k, wrong);
                    let r = run.commit(&drafts, &verify(&ctx, &drafts));
                    assert_eq!(r.replay.len(), r.n_acc + 1);
                    assert_eq!(*r.replay.last().unwrap(), r.bonus);
                    assert_eq!(r.pred_col, r.n_acc.checked_sub(1));
                    committed.extend(&r.replay);
                }
                let (out, drafted, accepted) = run.finish();
                assert_eq!(out, greedy(&prompt, max_new));
                assert!(accepted <= drafted && drafted % k == 0);
                if wrong == 1 {
                    assert_eq!(accepted, 0);
                }
            }
        }
    }
}

fn options() -> SpecOptions {
    let none = SpecSettings {
        adapt: None,
        adapt_floor: None,
        cap_max: None,
        burst_m: None,
        dc: None,
        draft_graph: None,
        round_graph: None,
        burst_graph: None,
        body_check: None,
    };
    SpecOptions::from_settings(none, true)
}

fn model() -> SpecModel {
    SpecModel {
        win_main: 1024,
        shared_kv_layers: 0,
        e4b: false,
        fa512_min_tkv: 4096,
        draft_win: 512,
        draft_has_swa: true,
        kv_target_swa: 0,
    }
}

#[test]
fn options_follow_settings() {
    let o = options();
    assert!(o.adapt && o.dc && o.pmin_zero);
    assert!(!o.draft_graph && !o.round_graph && !o.burst_graph && !o.body_check);
    assert_eq!((o.adapt_floor, o.cap_max, o.burst_m), (1, 7, 0));
    let set = SpecSettings {
        adapt: Some("0"),
        adapt_floor: Some("2"),
        cap_max: Some("15"),
        burst_m: Some("4"),
        dc: Some("0"),
        draft_graph: Some("1"),
        round_graph: Some("1"),
        burst_graph: Some("yes"),
        body_check: Some("1"),
    };
    let o = SpecOptions::from_settings(set, false);
    assert!(!o.adapt && !o.dc && !o.pmin_zero && o.draft_graph && o.round_graph);
    assert!(!o.burst_graph && o.body_check);
    assert_eq!((o.adapt_floor, o.cap_max, o.burst_m), (2, 15, 4));
}

#[test]
fn prompts_take_one_of_three_routes() {
    assert_eq!(prime_route(16, 16, true), PrimeRoute::Batched);
    assert_eq!(prime_route(15, 16, true), PrimeRoute::Tokenwise);
    assert_eq!(prime_route(15, 16, false), PrimeRoute::Verify);
    assert!(seed_needs_norm(PrimeRoute::Batched) && seed_needs_norm(PrimeRoute::Tokenwise));
    assert!(!seed_needs_norm(PrimeRoute::Verify));
    assert_eq!(SpecRun::max_ctx(10, 20, 3), 41);
}

#[test]
fn depths_and_grids() {
    assert_eq!(draft_depth_cap(10, 7), 7);
    assert_eq!(draft_depth_cap(3, 7), 3);
    assert_eq!(draft_depth_cap(0, 7), 1);
    assert_eq!(draft_depth_cap(3, 0), 1);
    assert_eq!(adapt_depth(0, 1, 4, None), 1);
    assert_eq!(adapt_depth(2, 1, 4, None), 3);
    assert_eq!(adapt_depth(9, 1, 4, None), 4);
    assert_eq!(adapt_depth(0, 3, 4, None), 3);
    assert_eq!(adapt_depth(0, 9, 4, None), 4);
    assert_eq!(adapt_depth(3, 1, 4, Some(1)), 2);
    assert_eq!(adapt_depth(3, 3, 4, Some(0)), 3);
    assert_eq!(grid_rung(1), 512);
    assert_eq!(grid_rung(512), 512);
    assert_eq!(grid_rung(513), 1024);
    assert_eq!(grid_rung(5000), 8192);
    assert_eq!(longest_kv(&[None, Some(3), Some(7), None]), Some(7));
    assert_eq!(longest_kv(&[None]), None);
    assert!(contains_token(&[1, 2], 2) && !contains_token(&[1, 2], 3));
}

fn eager_run(k: usize, wrong: usize, max_new: usize, eos: &[u32]) -> (SpecRun, bool) {
    let prompt = [2u32, 7, 1];
    let max_ctx = prompt.len() + max_new + 64;
    let mut run = SpecRun::start(
        options(),
        model(),
        k,
        max_new,
        next(&prompt),
        prompt.len(),
        max_ctx,
        vec![Some(prompt.len()), None],
    );
    let mut ended = false;
    while !ended && run.running() {
        let (depth, rung) = match run.plan_round(true) {
            RoundPlan::Eager { depth, rung, graph, capture } => {
                assert!(graph.is_none() && !capture);
                (depth, rung)
            }
            other => panic!("no device arm is on: {other:?}"),
        };
        assert_eq!(rung, Some(512));
        let mut ctx = prompt.to_vec();
        ctx.extend(&run.out);
        ctx.push(run.last);
        let drafts = draft(&ctx, depth, wrong);
        let r = run.commit_eager(&drafts, &verify(&ctx, &drafts), None, eos);
        assert_eq!(r.accepted + r.drop_rows, depth);
        ended = r.ended;
    }
    (run, ended)
}

#[test]
fn eager_runs_are_greedy_whatever_is_drafted() {
    for k in 1..6 {
        for wrong in 0..4 {
            for max_new in [1usize, 5, 24] {
                let (run, _) = eager_run(k, wrong, max_new, &[]);
                assert!(run.out.len() >= max_new && run.out.len() <= max_new + 1);
                assert_eq!(run.out, greedy(&[2, 7, 1], run.out.len()));
                assert!(run.accepted <= run.drafted);
                assert!(run.attempted_at.iter().zip(&run.accepted_at).all(|(a, b)| b <= a));
            }
        }
    }
}

#[test]
fn eager_runs_end_at_the_end_token() {
    let plain = greedy(&[2, 7, 1], 30);
    let eos = plain[9];
    let first = plain.iter().position(|&t| t == eos).unwrap();
    for k in 1..6 {
        let (run, ended) = eager_run(k, 3, 30, &[eos]);
        assert!(ended);
        assert_eq!(run.out, plain[..=first].to_vec());
    }
}

#[test]
fn device_rounds_drain_the_ring() {
    let prompt = [2u32, 7, 1];
    let mut opts = options();
    opts.burst_m = 2;
    let mut run = SpecRun::start(
        opts,
        model(),
        3,
        40,
        next(&prompt),
        prompt.len(),
        200,
        vec![Some(prompt.len())],
    );
    let key = match run.plan_round(true) {
        RoundPlan::Burst { key, capture } => {
            assert!(!capture);
            key
        }
        other => panic!("a burst fits: {other:?}"),
    };
    assert_eq!(key, GraphKey { depth: 3, rung: 512, over_win: false });
    assert_eq!(run.burst_hint(0), 3 + 4 + 2);
    assert_eq!(run.burst_hint(1), 3 + 8 + 2);
    assert!(!run.begin_stream(2, &[]));
    let mut ctx = prompt.to_vec();
    ctx.push(run.last);
    let mut ring = Vec::new();
    for _ in 0..2 {
        let drafts = draft(&ctx, 3, 5);
        let preds = verify(&ctx, &drafts);
        let m = accepted_prefix(&drafts, &preds);
        ring.extend(&drafts[..m]);
        ring.push(preds[m]);
        ctx.extend(&drafts[..m]);
        ctx.push(preds[m]);
    }
    let pos = prompt.len() + ring.len();
    assert!(!run.drain(&ring, pos, &[]));
    assert_eq!(run.out, greedy(&prompt, ring.len()));
    assert_eq!(run.last, *ring.last().unwrap());
    assert_eq!((run.rounds, run.drafted), (2, 6));
    assert_eq!(run.accepted, ring.len() - 2);
    assert_eq!(run.kv_len, vec![Some(pos)]);
    assert!(matches!(run.plan_round(false), RoundPlan::Eager { depth: 3, .. }));
}

#[test]
fn captured_rounds_have_keys_of_their_own() {
    let mut opts = options();
    opts.round_graph = true;
    let mut run = SpecRun::start(opts, model(), 3, 40, 5, 10, 4000, vec![Some(10)]);
    let key = match run.plan_round(true) {
        RoundPlan::RoundGraph { key, capture, rounds, hint, depth } => {
            assert!(capture);
            assert_eq!((rounds, hint, depth), (3, 4096 - 8, 3));
            key
        }
        other => panic!("a captured round fits: {other:?}"),
    };
    assert_eq!(key.depth, usize::MAX - 3);
    run.note_captured(key);
    assert!(matches!(
        run.plan_round(true),
        RoundPlan::RoundGraph { capture: false, rounds: 1, .. }
    ));
    let near = SpecRun::start(opts, model(), 3, 40, 5, 1012, 4000, vec![Some(600)]);
    assert!(matches!(near.plan_round(true), RoundPlan::Eager { .. }));
}

fn table(n_vocab: usize, row_bytes: usize) -> Vec<u8> {
    (0..n_vocab * row_bytes).map(|i| (i / row_bytes * 10 + i % row_bytes) as u8).collect()
}

#[test]
fn trimmed_heads_learn_missed_tokens() {
    let rows = table(8, 2);
    let t = trim_head(&rows, 2, 8, vec![3, 1], 2, &[1, 6, 9]);
    assert_eq!(t.d2t, vec![3, 1, 6, 3]);
    assert_eq!(t.n_pre, 1);
    assert_eq!(t.head, vec![30, 31, 10, 11, 60, 61, 30, 31]);
    let mut adapt = t.adapt;
    let mut d2t = Some(t.d2t);
    assert_eq!(trim_adapt_stats(&adapt), Some((1, 2)));
    let writes = trim_adapt_learn(&mut adapt, &mut d2t, &[6, 3, 5, 5, 200, 0]);
    assert_eq!(writes.len(), 1);
    assert_eq!((writes[0].slot, writes[0].tok, writes[0].offset), (3, 5, 6));
    assert_eq!(writes[0].bytes, vec![50, 51]);
    assert_eq!(d2t, Some(vec![3, 1, 6, 5]));
    assert_eq!(trim_adapt_stats(&adapt), Some((2, 2)));
    assert!(trim_adapt_learn(&mut adapt, &mut d2t, &[6, 3, 5, 0]).is_empty());
}

#[test]
fn saved_tokens_are_learned_again() {
    let rows = table(8, 1);
    let t = trim_head(&rows, 1, 8, vec![0], 3, &[]);
    let mut adapt = t.adapt;
    let mut d2t = Some(t.d2t);
    trim_adapt_learn(&mut adapt, &mut d2t, &[4, 7]);
    let fresh = fresh_learned_ids(adapt.as_ref().unwrap(), d2t.as_ref().unwrap(), &[7]);
    assert_eq!(fresh, vec![4]);
    let again = trim_head(&rows, 1, 8, vec![0], 3, &[7, 4]);
    assert_eq!(again.n_pre, 2);
    assert_eq!(again.d2t, vec![0, 7, 4, 0]);
    let off = trim_head(&rows, 1, 8, vec![0], 0, &[4]);
    assert!(off.adapt.is_none());
    assert_eq!(off.d2t, vec![0]);
    assert_eq!(trim_adapt_stats(&off.adapt), None);
}
