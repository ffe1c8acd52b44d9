use bw24_engine::attention::KvMeta;
use bw24_engine::cache::Cache;
use bw24_engine::config::{LayerKind, ModelConfig, SsmConfig};
use bw24_engine::decode_plan::StepCache;
use bw24_engine::experts::{
    expert_pointers, interleave, interleaves, per_layer_bytes, resident_decision, HostExps,
    SlabPtrs,
};
use bw24_engine::gates::{
    bucket, bucket_stats, chunk_mismatches, second_gate, stream_count, streams_identical,
    FirstGate, ReplayRow, SecondGate, N_BUCKETS,
};
use bw24_engine::gemm::{
    fp4_operand_bytes, fp4_workspace, fp8_operand, mirror_budget_bytes, pp_f16_enabled,
    pp_fp8_enabled, st_e4m3_enabled, try_f16_gemm, try_f16_gemm_pre, try_f16_gemm_pre_into,
    try_f16_gemm_pre_into_off, try_fp8_gemm, F16Plan, Fp8Operand, Grow, MirrorBudget,
    MirrorCandidate, MmWeight, Scratch,
};
use bw24_engine::generate::{
    context_full, plain_ctx, primes_batched, serves_on_device, stops_at, GenParams, GenRun,
    StopReason,
};
use bw24_engine::graph::{advance, next_t_kv, BucketKey, GraphDecodeState, GraphSave, Restore};
use bw24_engine::qtype::{QT_Q4_0, QT_Q4_K, QT_Q8_0};

fn generate(
    prompt_len: usize,
    max_new: usize,
    max_ctx: Option<usize>,
    eos: &[u32],
    stop_after: usize,
) -> (Vec<u32>, StopReason, usize) {
    let mut asked = Vec::new();
    let mut run = GenRun::start(prompt_len, max_new, max_ctx).unwrap();
    let mut n = 0u32;
    while run.running() {
        n += 1;
        run.emit(n, eos);
        asked.push(n);
        run.answer((n as usize) < stop_after);
    }
    let pos = run.pos;
    assert_eq!(run.asked, asked.len());
    let out = run.finish();
    assert_eq!(out.tokens, asked);
    (out.tokens, out.stop_reason, pos)
}

#[test]
fn generations_stop_for_the_first_reason() {
    assert_eq!(generate(4, 3, None, &[], 99), (vec![1, 2, 3], StopReason::MaxNew, 7));
    assert_eq!(generate(4, 9, None, &[3], 99), (vec![1, 2, 3], StopReason::Eos, 6));
    assert_eq!(generate(4, 9, None, &[3], 2), (vec![1, 2], StopReason::Callback, 5));
    assert_eq!(generate(4, 9, None, &[2], 2), (vec![1, 2], StopReason::Eos, 5));
    assert_eq!(generate(4, 9, Some(6), &[], 99), (vec![1, 2], StopReason::ContextFull, 6));
    assert_eq!(generate(4, 2, Some(6), &[], 99), (vec![1, 2], StopReason::MaxNew, 6));
    assert_eq!(generate(4, 9, Some(6), &[2], 2), (vec![1, 2], StopReason::Eos, 5));
    assert_eq!(generate(4, 9, Some(6), &[], 2), (vec![1, 2], StopReason::Callback, 5));
    assert_eq!(generate(4, 0, None, &[], 99), (vec![], StopReason::MaxNew, 4));
    assert!(GenRun::start(6, 9, Some(6)).is_none());
    assert_eq!(context_full().stop_reason, StopReason::ContextFull);
    assert!(context_full().tokens.is_empty());
    assert_eq!(plain_ctx(10, 5), 23);
}

#[test]
fn default_parameters() {
    let p = GenParams::default();
    assert_eq!((p.max_new, p.max_ctx, p.eos.len()), (128, None, 0));
}

#[test]
fn priming_and_serving_paths() {
    assert!(primes_batched(16, 16, false));
    assert!(!primes_batched(15, 16, false) && !primes_batched(16, 16, true));
    assert!(serves_on_device(true, false, true, 0));
    assert!(!serves_on_device(false, false, true, 0));
    assert!(!serves_on_device(true, true, true, 0));
    assert!(!serves_on_device(true, false, false, 0));
    assert!(!serves_on_device(true, false, true, 4));
}

#[test]
fn stop_texts() {
    let tail: Vec<char> = "the end.".chars().collect();
    let stops: Vec<Vec<char>> = vec!["x".chars().collect(), "end".chars().collect()];
    assert!(stops_at(&tail, &stops));
    assert!(!stops_at(&tail, &stops[..1]) && !stops_at(&tail, &[]));
}

fn kv(len: usize) -> Option<KvMeta> {
    Some(KvMeta { len, k_tok_bytes: 34, v_tok_bytes: 34, k_bytes: 3400, v_bytes: 3400 })
}

#[test]
fn captured_steps_are_found_by_key() {
    let mut g = GraphDecodeState::new();
    let a = BucketKey { fa_vec: true, n_splits: 1 };
    let b = BucketKey { fa_vec: true, n_splits: 2 };
    assert_eq!(g.lookup(a), None);
    g.captured(a, 64);
    g.captured(b, 128);
    assert_eq!((g.lookup(a), g.lookup(b), g.captures), (Some(0), Some(1), 2));
    let c = BucketKey { fa_vec: false, n_splits: 2 };
    assert_eq!(g.take_step(b, 130), (1, false));
    assert_eq!(g.take_step(c, 200), (2, true));
    assert_eq!(g.take_step(c, 201), (2, false));
    assert_eq!((g.entries[2].bucket_max, g.captures), (200, 3));
    let mut cache = StepCache { pos: 7, kv: vec![kv(7), None] };
    assert_eq!(next_t_kv(&cache), 8);
    advance(&mut cache);
    assert_eq!((cache.pos, cache.kv), (8, vec![kv(8), None]));
}

#[test]
fn captures_are_undone_in_order() {
    let save = GraphSave { pos: 9, lens: vec![Some(9), None, Some(4)], token: 77 };
    let r = save.restore();
    assert_eq!(
        r,
        vec![
            Restore::Rollback,
            Restore::SetPos { pos: 9 },
            Restore::SetLen { layer: 0, len: 9 },
            Restore::SetLen { layer: 2, len: 4 },
            Restore::SetToken { token: 77 },
        ]
    );
}

#[test]
fn fresh_caches() {
    let cfg = ModelConfig {
        n_layer: 3,
        nextn_predict_layers: 0,
        n_embd: 64,
        n_head: 4,
        n_head_kv: 2,
        head_dim_k: 16,
        rope_dim_count: 16,
        n_vocab: 100,
        kinds: vec![LayerKind::LinearAttention, LayerKind::FullAttention],
        attn_out_gate: false,
        ssm: Some(SsmConfig { state_size: 8, group_count: 3, time_step_rank: 5, conv_kernel: 4 }),
        moe: None,
        m3_moe_layer_freq: None,
        hy3_first_k_dense: None,
        gemma4: None,
    };
    let c = Cache::new(&cfg);
    assert_eq!((c.pos, c.kv.len(), c.recur.len()), (0, 3, 3));
    let r = c.recur[0].as_ref().unwrap();
    assert_eq!(r.conv_state.len(), (8 * 3 * 2 + 8 * 5) * 3);
    assert_eq!(r.ssm_state, vec![0u32; 8 * 8 * 5]);
    assert!(c.kv[0].is_none() && c.recur[1].is_none() && c.recur[2].is_none());
    let k = c.kv[2].as_ref().unwrap();
    assert_eq!((k.kv_dim, k.len, k.k.len()), (32, 0, 0));
}

fn exps(bytes: &[u8], row_bytes: usize, out_f: usize) -> HostExps<'_> {
    HostExps {
        bytes,
        n_expert: 2,
        in_f: 8,
        out_f,
        row_bytes,
        expert_stride: row_bytes * out_f,
        tiered: false,
    }
}

#[test]
fn resident_experts_fit_the_budget() {
    assert!(resident_decision(false, false, Some(100), 25, 4));
    assert!(!resident_decision(false, false, Some(99), 25, 4));
    assert!(!resident_decision(true, false, Some(100), 25, 4));
    assert!(!resident_decision(false, true, Some(100), 25, 4));
    assert!(!resident_decision(false, false, None, 0, 4));
    let (a, b) = (vec![0u8; 8], vec![0u8; 12]);
    assert_eq!(per_layer_bytes(&exps(&a, 2, 2), &exps(&b, 3, 2), &exps(&a, 2, 2)), Some(28));
}

#[test]
fn gate_and_up_rows_interleave() {
    let a: Vec<u8> = (0..8).collect();
    let b: Vec<u8> = (100..112).collect();
    let (gate, up) = (exps(&a, 2, 2), exps(&b, 3, 2));
    let il = interleave(&gate, &up);
    assert_eq!(il[..10], [0, 1, 100, 101, 102, 2, 3, 103, 104, 105]);
    assert_eq!(il[10..15], [4, 5, 106, 107, 108]);
    assert!(interleaves(true, &gate, &up) && !interleaves(false, &gate, &up));
    assert!(!interleaves(true, &gate, &exps(&b, 3, 3)));
    let p = SlabPtrs { gate: 1000, up: 2000, down: 3000 };
    assert_eq!(
        expert_pointers(&gate, &up, &gate, p, true),
        vec![1000, 1010, 1002, 1012, 3000, 3004]
    );
    assert_eq!(
        expert_pointers(&gate, &up, &gate, p, false),
        vec![1000, 1004, 2000, 2006, 3000, 3004]
    );
}

#[test]
fn precision_switches() {
    assert!(pp_f16_enabled(Some("1"), false) && !pp_f16_enabled(Some("0"), true));
    assert!(pp_f16_enabled(None, true) && !pp_f16_enabled(Some("yes"), false));
    assert!(pp_fp8_enabled(Some("1")) && !pp_fp8_enabled(None));
    assert!(st_e4m3_enabled(Some("1")) && !st_e4m3_enabled(Some("0")));
}

#[test]
fn scratch_grows_to_the_largest_need() {
    let mut s = Scratch::empty();
    assert_eq!(s.reserve(10), Grow::Build { bytes: 10 });
    assert_eq!(s.reserve(8), Grow::Keep);
    assert_eq!(s.reserve(11), Grow::Replace { bytes: 11 });
    assert_eq!(s.cap, Some(11));
    assert_eq!(Scratch::with_capacity(5).cap, Some(5));
}

#[test]
fn half_precision_products() {
    let one = 1.0f32.to_bits();
    let w = MmWeight { in_f: 64, out_f: 10, mirror: true, scale: one };
    let plan = F16Plan { m: 3, n: 10, k: 64, rescale: None };
    assert_eq!(try_f16_gemm_pre(&w, 3), Some(plan));
    let scaled = MmWeight { scale: 0.5f32.to_bits(), ..w };
    assert_eq!(try_f16_gemm_pre(&scaled, 3), Some(F16Plan { rescale: Some(30), ..plan }));
    assert_eq!(try_f16_gemm_pre_into(&scaled, 3, 30), Some(F16Plan { rescale: Some(30), ..plan }));
    assert_eq!(try_f16_gemm_pre_into_off(&scaled, 3, 50, 20), None);
    assert_eq!(try_f16_gemm_pre_into_off(&w, 3, 50, 20), Some(plan));
    let mut s = Scratch::empty();
    assert_eq!(try_f16_gemm(&w, 3, &mut s), Some((plan, Grow::Build { bytes: 384 })));
    let plain = MmWeight { mirror: false, ..w };
    assert_eq!(try_f16_gemm(&plain, 30, &mut s), None);
    assert_eq!(try_f16_gemm_pre(&plain, 3), None);
    assert_eq!(s.cap, Some(384));
}

#[test]
fn eight_bit_products() {
    assert_eq!(fp8_operand(true, true, true, true), None);
    assert_eq!(fp8_operand(false, true, false, false), Some(Fp8Operand::Resident));
    assert_eq!(fp8_operand(false, false, true, true), Some(Fp8Operand::Stash));
    assert_eq!(fp8_operand(false, false, true, false), None);
    let mut s = Scratch::with_capacity(100);
    let p = try_fp8_gemm(Some(Fp8Operand::Stash), 64, 10, 2, &mut s).unwrap();
    assert_eq!((p.m, p.n, p.k, p.grow), (2, 10, 64, Grow::Replace { bytes: 128 }));
    assert_eq!(try_fp8_gemm(None, 64, 10, 2, &mut s), None);
}

#[test]
fn mirrors_are_paid_from_the_budget() {
    let t = MirrorCandidate {
        qtype: QT_Q8_0,
        dims: 2,
        in_f: 64,
        out_f: 10,
        row_bytes: 68,
        mirror: false,
    };
    let mut b = MirrorBudget { spent: 0, budget: 2600 };
    assert!(b.build_q8_f16(&t));
    assert_eq!(b.spent, 1280);
    assert!(b.build_q8_f16(&MirrorCandidate { qtype: QT_Q4_0, row_bytes: 36, ..t }));
    assert!(!b.build_q8_f16(&t));
    assert_eq!(b.spent, 2560);
    for bad in [
        MirrorCandidate { qtype: QT_Q4_K, ..t },
        MirrorCandidate { dims: 3, ..t },
        MirrorCandidate { mirror: true, ..t },
        MirrorCandidate { in_f: 65, ..t },
        MirrorCandidate { row_bytes: 67, ..t },
    ] {
        assert!(!MirrorBudget { spent: 0, budget: usize::MAX }.build_q8_f16(&bad));
    }
    let mb = |s: &str| mirror_budget_bytes(Some(&s.chars().collect::<Vec<char>>()));
    assert_eq!(mirror_budget_bytes(None), 32768 << 20);
    assert_eq!(mb("10"), 10 << 20);
    assert_eq!(mb("many"), 32768 << 20);
}

#[test]
fn four_bit_buffers() {
    assert_eq!(fp4_operand_bytes(4, 64), (128, 16));
    assert_eq!((fp4_workspace(0), fp4_workspace(9)), (1, 9));
}

fn row(pos: usize, drafts: &[u32], targets: &[u32]) -> ReplayRow {
    ReplayRow { pos, drafts: drafts.to_vec(), targets: targets.to_vec() }
}

#[test]
fn replay_measures() {
    let rows = vec![
        row(0, &[1, 2, 3], &[1, 2, 4]),
        row(511, &[1, 2, 3], &[9, 2, 3]),
        row(512, &[5, 5, 5], &[5, 5, 5]),
    ];
    let (lo, hi) = bucket(0);
    assert_eq!((lo, hi), (0, 512));
    let s = bucket_stats(&rows, lo, hi, 3);
    assert_eq!((s.n, s.slot_hits, s.chain), (2, vec![1, 2, 1], 2));
    let (lo, hi) = bucket(1);
    let s = bucket_stats(&rows, lo, hi, 2);
    assert_eq!((s.n, s.slot_hits, s.chain), (1, vec![1, 1], 2));
    assert_eq!(bucket(N_BUCKETS - 1), (65536, usize::MAX));
    for p in [0usize, 511, 512, 2047, 8192, 40000, 1 << 20] {
        let inside = (0..N_BUCKETS).filter(|&b| bucket(b).0 <= p && p < bucket(b).1).count();
        assert_eq!(inside, 1);
    }
}

#[test]
fn chunk_sizes_do_not_matter() {
    let rows = vec![row(2, &[1, 2], &[]), row(4, &[3, 4], &[]), row(90, &[0, 0], &[])];
    let again = vec![row(2, &[1, 2], &[]), row(4, &[3, 5], &[])];
    let picks = [0u32, 1, 2, 3, 4, 5, 6, 7];
    assert_eq!(chunk_mismatches(&picks, &picks, 8, &rows, &rows, 2), 0);
    assert_eq!(chunk_mismatches(&picks, &picks, 8, &rows, &again, 2), 1);
    let mut other = picks;
    other[0] = 9;
    other[7] = 9;
    assert_eq!(chunk_mismatches(&picks, &other, 8, &rows, &rows, 2), 0);
    other[3] = 9;
    assert_eq!(chunk_mismatches(&picks, &other, 8, &rows, &again, 2), 2);
    assert_eq!(chunk_mismatches(&[], &[], 0, &rows, &again, 2), 0);
}

#[test]
fn lockstep_streams() {
    assert!(streams_identical(&[vec![1, 2], vec![1, 2], vec![1, 2]]));
    assert!(!streams_identical(&[vec![1, 2], vec![1, 2], vec![1]]));
    assert!(streams_identical(&[]) && streams_identical(&[vec![3]]));
    assert_eq!(stream_count(None), 2);
    assert_eq!(stream_count(Some("16")), 16);
    assert_eq!(stream_count(Some("17")), 2);
    assert_eq!(stream_count(Some("0")), 2);
}

fn bits(v: &[f32]) -> Vec<u32> {
    v.iter().map(|x| x.to_bits()).collect()
}

#[test]
fn batches_of_one_are_compared() {
    let (a, b, c) = (bits(&[1.0, 2.0]), bits(&[1.0, 2.5]), bits(&[3.0, 2.0]));
    let mut g = FirstGate::new();
    assert_eq!(g.compare(true, 0, &a, &a), Some(1));
    assert!(g.passes());
    assert_eq!(g.compare(false, 1, &a, &b), Some(1));
    assert!(g.passes());
    assert_eq!(g.compare(true, 2, &a, &b), Some(1));
    assert_eq!(g.fails, 1);
    let mut early = FirstGate::new();
    assert_eq!(early.compare(false, 15, &a, &c), None);
    assert!(early.over && !early.drifted && !early.passes());
    let mut late = FirstGate::new();
    assert_eq!(late.compare(false, 16, &a, &c), None);
    assert!(late.over && late.drifted && late.passes());
    let mut strict = FirstGate::new();
    for s in 0..3 {
        assert_eq!(strict.compare(true, s, &a, &b), Some(1));
    }
    assert_eq!(strict.compare(true, 3, &a, &b), None);
    assert_eq!((strict.fails, strict.over), (4, true));
}

#[test]
fn batchmates_change_nothing() {
    let (a, b) = (bits(&[1.0, 2.0]), bits(&[1.0, 2.5]));
    assert_eq!(second_gate(false, &a, 1, &a), (1, true));
    assert_eq!(second_gate(false, &a, 1, &b), (1, false));
    assert_eq!(second_gate(true, &a, 1, &b), (1, true));
    assert_eq!(second_gate(true, &a, 0, &a), (1, false));
}

#[test]
fn batchmates_are_given_up_after_the_seventh_difference() {
    let (a, b) = (bits(&[1.0, 2.0]), bits(&[1.0, 2.5]));
    let mut g = SecondGate::new();
    assert_eq!(g.compare(false, &a, 1, &a), (1, true));
    assert!(g.passes() && !g.over());
    for n in 1..=7 {
        assert!(!g.over());
        assert_eq!(g.compare(false, &a, 1, &b), (1, false));
        assert_eq!(g.fails, n);
    }
    assert!(g.over() && !g.passes());
}

#[test]
fn rows_of_their_own_only_need_the_workspace() {
    let mut s = Scratch::empty();
    assert_eq!(s.ensure_built(), Grow::Build { bytes: 2 });
    assert_eq!(s.cap, Some(2));
    assert_eq!(s.ensure_built(), Grow::Keep);
    assert_eq!(s.reserve(10), Grow::Replace { bytes: 10 });
    let mut tiny = Scratch::with_capacity(1);
    assert_eq!(tiny.ensure_built(), Grow::Keep);
    assert_eq!(tiny.cap, Some(1));
}
