use std::sync::atomic::{AtomicBool, Ordering};
use std::sync::mpsc::sync_channel;

use bw24_engine::cpu_experts::{
    backend_symbol, expert_count, ggml_type, parse_thread_count, prepare_job, projection,
    require_abi_v1, require_symbols, CpuExpertTicket, CpuStats, ExpertMeta, ExpertSource,
    ExpertStack, JobError, LayerExperts, ProjectionError, Selected, ThreadError, N_SYMBOLS,
};
use bw24_engine::qtype::{
    QT_BF16, QT_F32, QT_IQ3_S, QT_IQ4_XS, QT_NVFP4, QT_Q2_K, QT_Q3_K, QT_Q4_0, QT_Q4_K, QT_Q5_K,
    QT_Q6_K, QT_Q8_0,
};

#[test]
fn maps_supported_ggml_types() {
    assert_eq!(ggml_type(QT_Q2_K).unwrap(), 10);
    assert_eq!(ggml_type(QT_Q3_K).unwrap(), 11);
    assert_eq!(ggml_type(QT_Q4_K).unwrap(), 12);
    assert_eq!(ggml_type(QT_IQ3_S).unwrap(), 21);
    assert_eq!(ggml_type(QT_IQ4_XS).unwrap(), 23);
    assert_eq!(ggml_type(QT_Q8_0).unwrap(), 8);
}

#[test]
fn maps_the_other_ggml_types() {
    assert_eq!(ggml_type(QT_F32).unwrap(), 0);
    assert_eq!(ggml_type(QT_Q4_0).unwrap(), 2);
    assert_eq!(ggml_type(QT_Q5_K).unwrap(), 13);
    assert_eq!(ggml_type(QT_Q6_K).unwrap(), 14);
    assert_eq!(ggml_type(QT_BF16).unwrap(), 30);
    assert_eq!(ggml_type(QT_NVFP4).unwrap(), 40);
    assert_eq!(ggml_type(99).unwrap_err(), "CPU expert backend does not map bw24 qtype 99");
    assert_eq!(ggml_type(-1).unwrap_err(), "CPU expert backend does not map bw24 qtype -1");
}

#[test]
fn rejects_missing_symbols_and_wrong_abi() {
    let error = match require_symbols(&[false, false, false, false]) {
        Ok(_) => panic!("no function is there"),
        Err(error) => error,
    };
    assert!(error.contains("missing symbol bw24_cpu_experts_abi_version"));
    assert!(require_abi_v1(0).is_err());
    assert!(require_abi_v1(2).is_err());
    assert!(require_abi_v1(1).is_ok());
}

#[test]
fn names_the_first_missing_symbol() {
    for i in 0..N_SYMBOLS {
        let mut found = vec![true; N_SYMBOLS];
        found[i] = false;
        if i + 1 < N_SYMBOLS {
            found[i + 1] = false;
        }
        let error = require_symbols(&found).unwrap_err();
        assert_eq!(error, format!("missing symbol {}", backend_symbol(i)));
    }
    assert_eq!(backend_symbol(1), "bw24_cpu_moe_token_v1");
    assert!(require_symbols(&[true, true, true, true]).is_ok());
}

#[test]
fn abi_message_names_the_version() {
    assert_eq!(
        require_abi_v1(20).unwrap_err(),
        "CPU expert ABI 20 is incompatible; bw24 requires v1"
    );
}

#[test]
fn validates_thread_count() {
    assert_eq!(parse_thread_count(None).unwrap(), 8);
    assert_eq!(parse_thread_count(Some("1")).unwrap(), 1);
    assert_eq!(parse_thread_count(Some("256")).unwrap(), 256);
    for invalid in ["", "0", "257", "eight"] {
        assert!(parse_thread_count(Some(invalid)).is_err());
    }
}

#[test]
fn thread_errors_tell_text_from_range() {
    assert_eq!(parse_thread_count(Some("+16")), Ok(16));
    assert_eq!(parse_thread_count(Some(" 16")), Err(ThreadError::NotInteger));
    assert_eq!(parse_thread_count(Some("-3")), Err(ThreadError::OutOfRange { threads: -3 }));
    assert_eq!(parse_thread_count(Some("4294967296")), Err(ThreadError::NotInteger));
}

#[test]
fn dropped_ticket_joins_outstanding_worker() {
    let (reply, receiver) = sync_channel::<Result<Vec<f32>, String>>(1);
    let completed = AtomicBool::new(false);
    let worker = || {
        completed.store(true, Ordering::Release);
        reply.send(Ok(Vec::new())).unwrap();
    };
    let mut ticket = CpuExpertTicket::submitted();
    assert!(!completed.load(Ordering::Acquire));
    // The worker answers only whoever waits for it.
    if ticket.join() {
        worker();
        receiver.recv().unwrap().unwrap();
    }
    assert!(completed.load(Ordering::Acquire));
    assert!(!ticket.join());
}

#[test]
fn a_ticket_is_joined_once() {
    let mut ticket = CpuExpertTicket::submitted();
    assert!(ticket.join());
    assert!(!ticket.join());
    assert!(CpuExpertTicket::submitted().join());
}

fn meta(qtype: i32, row_bytes: usize, rows: usize, source: ExpertSource) -> ExpertMeta {
    ExpertMeta {
        bytes: row_bytes * rows,
        len: row_bytes * rows,
        row_bytes,
        qtype,
        source,
        scale: 0x3f80_0000,
    }
}

fn stack(in_f: usize, out_f: usize, n: usize) -> ExpertStack {
    ExpertStack {
        in_f,
        out_f,
        experts: (0..n).map(|_| meta(QT_Q4_K, 144, out_f, ExpertSource::Memory)).collect(),
    }
}

fn layer() -> LayerExperts {
    LayerExperts { gate: stack(256, 6, 3), up: stack(256, 6, 3), down: stack(512, 4, 3), active: None }
}

#[test]
fn describes_a_projection() {
    let mut s = stack(256, 6, 2);
    s.experts[1].source = ExpertSource::Disk { offset: 4096, len: 864 };
    let p = projection(&s, 0).unwrap();
    assert_eq!(
        (p.ggml_type, p.in_features, p.out_features, p.row_bytes, p.byte_len),
        (12, 256, 6, 144, 864)
    );
    assert_eq!((p.from_file, p.file_offset), (false, 0));
    let p = projection(&s, 1).unwrap();
    assert_eq!((p.from_file, p.file_offset), (true, 4096));
}

#[test]
fn projection_errors_in_order() {
    let mut s = stack(256, 6, 1);
    s.experts[0].bytes = 863;
    assert_eq!(projection(&s, 0), Err(ProjectionError::Extent));
    s.experts[0] = meta(QT_Q4_K, usize::MAX, 1, ExpertSource::Memory);
    assert_eq!(projection(&s, 0), Err(ProjectionError::Extent));
    s.experts[0] = meta(QT_Q4_K, 144, 6, ExpertSource::Disk { offset: 0, len: 1 });
    assert_eq!(projection(&s, 0), Err(ProjectionError::DiskExtent));
    s.experts[0] = meta(77, 144, 6, ExpertSource::WriteCombined);
    assert_eq!(projection(&s, 0), Err(ProjectionError::WriteCombined));
    s.experts[0] = meta(77, 144, 6, ExpertSource::Memory);
    assert_eq!(projection(&s, 0), Err(ProjectionError::Qtype { qtype: 77 }));
    s.experts[0] = meta(QT_Q4_K, 144, 6, ExpertSource::Memory);
    s.in_f = 1 << 31;
    assert_eq!(projection(&s, 0), Err(ProjectionError::InWidth));
    s.in_f = 256;
    s.out_f = 1 << 31;
    s.experts[0] = meta(QT_Q4_K, 1, 1 << 31, ExpertSource::Memory);
    assert_eq!(projection(&s, 0), Err(ProjectionError::OutWidth));
}

#[test]
fn prepares_a_job() {
    let w = layer();
    let sel = [
        Selected { expert: 2, route_weight: 7 },
        Selected { expert: 0, route_weight: 9 },
    ];
    let job = prepare_job(&w, &sel, 256, Ok(4)).unwrap();
    assert_eq!(job.threads, 4);
    assert_eq!(job.output_features, 4);
    assert_eq!(expert_count(&job), Some(2));
    assert_eq!(job.experts[0].expert, 2);
    assert_eq!(job.experts[0].down.in_features, 512);
    assert_eq!(job.experts[1].route_weight, 9);
}

#[test]
fn refuses_bad_jobs() {
    let mut w = layer();
    let one = [Selected { expert: 1, route_weight: 0 }];
    let bad_threads = Err(ThreadError::NotInteger);
    assert_eq!(prepare_job(&w, &[], 0, bad_threads).unwrap_err(), JobError::Empty);
    assert_eq!(
        prepare_job(&w, &one, 255, bad_threads).unwrap_err(),
        JobError::InputLen { expected: 256 }
    );
    let beyond = [Selected { expert: 3, route_weight: 0 }];
    assert_eq!(
        prepare_job(&w, &beyond, 256, bad_threads).unwrap_err(),
        JobError::OutOfRange { expert: 3 }
    );
    assert_eq!(
        prepare_job(&w, &one, 256, bad_threads).unwrap_err(),
        JobError::Threads { why: ThreadError::NotInteger }
    );
    w.down.experts[1].bytes = 0;
    assert_eq!(
        prepare_job(&w, &one, 256, Ok(8)).unwrap_err(),
        JobError::Projection { expert: 1, error: ProjectionError::Extent }
    );
    w.active = Some(vec![true, false, true]);
    assert_eq!(prepare_job(&w, &one, 256, Ok(8)).unwrap_err(), JobError::Pruned { expert: 1 });
}

#[test]
fn counts_calls_and_residency() {
    let mut s = CpuStats::new();
    s.record_call(8, 1000);
    s.record_call(2, 50);
    assert_eq!((s.calls, s.experts, s.wall_ns), (2, 10, 1050));
    for n in [0usize, 1, 1, 2, 3, 7] {
        s.record_incomplete_gpu_residency(n);
    }
    assert_eq!(s.incomplete_gpu_residency_stats(), (1, 2, 1));
    s.wall_ns = u64::MAX;
    s.record_call(0, 1);
    assert_eq!(s.wall_ns, 0);
}
