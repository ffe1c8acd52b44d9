use bw24_engine::attention::KvMeta;
use bw24_engine::batch::{check_batch, decode_step_batch, BatchRefusal};
use bw24_engine::config::{
    Ffn, FullAttnLayer, GpuTensor, HybridLayer, LayerKernels, LinearAttnLayer, Mixer, ModelConfig,
    SsmConfig,
};
use bw24_engine::decode_plan::{
    decode_step_aux, decode_step_dc, decode_step_dc_cap, decode_step_h, step_route, StepCache,
    StepContext, StepRoute,
};
use bw24_engine::dflash::{DflashCfg, DflashDraft, DflashLayer, DflashOptions};
use bw24_engine::eagle_draft::{Eagle3Draft, Eagle3Scratch, ShapeError};
use bw24_engine::ffn::PlanError;
use bw24_engine::gemma_draft::{
    gemma4_draft_kv_target, CacheRows, DraftContext, GemmaDraft, GemmaDraftLayer, MainKv,
};
use bw24_engine::graph::{advance, next_t_kv, BucketKey, GraphDecodeState, GraphSave, Restore};
use bw24_engine::launch::{Buf, Op, Slot, Weight};
use bw24_engine::prefill::{last_row, row_of, DenseLayer, DenseModel};

/// What a row holds: a number, or a trace of the functions that it went through.
#[derive(Clone, Debug, PartialEq)]
enum Term {
    Int(i64),
    Trace(u64),
    Parts(Vec<u64>),
}

impl Term {
    fn code(&self) -> u64 {
        match self {
            Term::Int(n) => hash("int", &[*n as u64]),
            Term::Trace(t) => *t,
            Term::Parts(p) => hash("concat", p),
        }
    }
}

fn hash(name: &str, args: &[u64]) -> u64 {
    let mut h = 0xcbf2_9ce4_8422_2325u64;
    for b in name.bytes().map(|b| b as u64).chain(args.iter().copied()) {
        h = (h ^ b).wrapping_mul(0x0000_0100_0000_01b3).rotate_left(7);
    }
    h
}

fn node(name: String, args: &[&Term]) -> Term {
    let codes: Vec<u64> = args.iter().map(|t| t.code()).collect();
    Term::Trace(hash(&name, &codes))
}

fn un(name: &str, a: &Term) -> Term {
    node(name.to_string(), &[a])
}

fn bin(name: &str, a: &Term, b: &Term) -> Term {
    node(name.to_string(), &[a, b])
}

/// A device that traces what plans compute.
#[derive(Clone)]
struct Device {
    bufs: Vec<(Buf, Vec<Term>)>,
    fast: Vec<Weight>,
    unit: bool,
}

impl Device {
    fn new() -> Device {
        Device { bufs: Vec::new(), fast: Vec::new(), unit: false }
    }

    fn get(&self, b: Buf) -> Vec<Term> {
        match self.bufs.iter().find(|e| e.0 == b) {
            Some(e) => e.1.clone(),
            None => vec![un("initial", &Term::Trace(hash(&format!("{b:?}"), &[])))],
        }
    }

    fn set(&mut self, b: Buf, rows: Vec<Term>) {
        match self.bufs.iter_mut().find(|e| e.0 == b) {
            Some(e) => e.1 = rows,
            None => self.bufs.push((b, rows)),
        }
    }

    fn one(&self, b: Buf) -> Term {
        self.get(b)[0].clone()
    }

    fn put(&mut self, b: Buf, t: Term) {
        self.set(b, vec![t]);
    }

    fn map(&mut self, src: Buf, dst: Buf, f: impl Fn(&Term) -> Term) {
        let rows = self.get(src).iter().map(f).collect();
        self.set(dst, rows);
    }

    fn zip(&mut self, a: Buf, b: Buf, dst: Buf, f: impl Fn(&Term, &Term) -> Term) {
        let rows = self.get(a).iter().zip(&self.get(b)).map(|(x, y)| f(x, y)).collect();
        self.set(dst, rows);
    }

    fn scaled(&self, w: Weight, x: &Term) -> Term {
        if self.unit {
            x.clone()
        } else {
            un(&format!("scale {w:?}"), x)
        }
    }

    fn mm_q8(&self, w: Weight, q: &Term, d: &Term) -> Term {
        self.scaled(w, &bin(&format!("raw {w:?}"), q, d))
    }

    fn mm(&self, w: Weight, x: &Term) -> Term {
        if self.fast.contains(&w) {
            self.mm_q8(w, &un("q", x), &un("d", x))
        } else {
            un(&format!("mm {w:?}"), x)
        }
    }

    fn quantize(&mut self, t: Term, q: Buf, d: Buf) {
        self.put(q, un("q", &t));
        self.put(d, un("d", &t));
    }

    /// A cache holds what was there, and then every row behind its place; a row replaces those at
    /// and behind its place.
    fn append(&mut self, seq: usize, layer: usize, k: Term, v: Term, at: Term) {
        for (b, x) in [(Buf::KCache { seq, layer }, k), (Buf::VCache { seq, layer }, v)] {
            let mut rows = self.rows_before(b, &at);
            rows.extend([at.clone(), x]);
            self.set(b, rows);
        }
    }

    fn rows_before(&self, cache: Buf, t: &Term) -> Vec<Term> {
        let rows = self.get(cache);
        let Term::Int(t) = t else { panic!("a row has a number") };
        let mut r = vec![rows[0].clone()];
        for pair in rows[1..].chunks(2) {
            if matches!(pair[0], Term::Int(at) if at < *t) {
                r.extend_from_slice(pair);
            }
        }
        r
    }

    fn attend(&mut self, seq: usize, layer: usize, q: Buf, dst: Buf, t: Term, bucket: usize) {
        let geometry = Term::Int((bucket as i64 + 63) / 64);
        let k = self.rows_before(Buf::KCache { seq, layer }, &t);
        let v = self.rows_before(Buf::VCache { seq, layer }, &t);
        let q = self.one(q);
        let mut args = vec![&q, &t, &geometry];
        args.extend(&k);
        args.extend(&v);
        let r = node("attend".to_string(), &args);
        self.put(dst, r);
    }

    fn attend_rows(&mut self, layer: usize, q: Buf, dst: Buf, from: i64, to: Term) {
        let (k, v) =
            (self.one(Buf::KCache { seq: 0, layer }), self.one(Buf::VCache { seq: 0, layer }));
        let from = Term::Int(from);
        let r = node("attend rows".to_string(), &[&self.one(q), &k, &v, &from, &to]);
        self.put(dst, r);
    }

    fn next_int(&mut self, b: Buf) {
        let n = self.number(b);
        self.put(b, Term::Int(n + 1));
    }

    fn number(&self, b: Buf) -> i64 {
        match self.one(b) {
            Term::Int(n) => n,
            other => panic!("{b:?} holds no number: {other:?}"),
        }
    }

    fn run(&mut self, ops: &[Op]) {
        for op in ops {
            self.step(*op);
        }
    }

    fn step(&mut self, op: Op) {
        match op {
            Op::Alloc { dst, rows, .. } => self.set(dst, vec![un("new", &Term::Int(0)); rows]),
            Op::SetPos { row, pos } => self.write(Buf::Pos, row, Term::Int(pos as i64)),
            Op::PutPos { dst, row, value } => self.write(dst, row, Term::Int(value as i64)),
            Op::EmbedHost { row, token, .. } => {
                self.write(Buf::X, row, un("embed", &Term::Int(token as i64)))
            }
            Op::EmbedDevice { .. } => {
                let t = un("embed", &self.one(Buf::Token));
                self.put(Buf::X, t)
            }
            Op::RmsNorm { src, w, dst, dim, .. } => {
                self.map(src, dst, |x| un(&format!("rms {w:?} {dim}"), x))
            }
            Op::RmsNormQ8 { src, w, q, d, dim, .. } => {
                self.map(src, q, |x| un("q", &un(&format!("rms {w:?} {dim}"), x)));
                self.map(src, d, |x| un("d", &un(&format!("rms {w:?} {dim}"), x)));
            }
            Op::AddRmsNorm { a, b, w, sum, dst, dim, .. } => {
                let rms = format!("rms {w:?} {dim}");
                let (ra, rb) = (self.get(a), self.get(b));
                let s: Vec<Term> = ra.iter().zip(&rb).map(|(x, y)| bin("add", x, y)).collect();
                self.set(dst, s.iter().map(|x| un(&rms, x)).collect());
                self.set(sum, s);
            }
            Op::AddRmsNormQ8 { a, b, w, sum, q, d, dim, .. } => {
                let rms = format!("rms {w:?} {dim}");
                let (ra, rb) = (self.get(a), self.get(b));
                let s: Vec<Term> = ra.iter().zip(&rb).map(|(x, y)| bin("add", x, y)).collect();
                self.set(q, s.iter().map(|x| un("q", &un(&rms, x))).collect());
                self.set(d, s.iter().map(|x| un("d", &un(&rms, x))).collect());
                self.set(sum, s);
            }
            Op::Quantize { src, q, d, .. } => {
                self.map(src, q, |x| un("q", x));
                self.map(src, d, |x| un("d", x));
            }
            Op::Matmul { w, src, dst, .. } => {
                let rows = self.get(src).iter().map(|x| self.mm(w, x)).collect();
                self.set(dst, rows)
            }
            Op::MatmulPre { w, q, d, src, dst, .. } => {
                let rows = if self.fast.contains(&w) {
                    self.get(q).iter().zip(&self.get(d)).map(|(x, y)| self.mm_q8(w, x, y)).collect()
                } else {
                    self.get(src).iter().map(|x| self.mm(w, x)).collect()
                };
                self.set(dst, rows)
            }
            Op::MatmulRaw { w, q, d, dst } => {
                let t = bin(&format!("raw {w:?}"), &self.one(q), &self.one(d));
                self.put(dst, t)
            }
            Op::MatmulRawDual { w1, w2, q, d, dst1, dst2 } => {
                let (q, d) = (self.one(q), self.one(d));
                self.put(dst1, bin(&format!("raw {w1:?}"), &q, &d));
                self.put(dst2, bin(&format!("raw {w2:?}"), &q, &d));
            }
            Op::ApplyScale { w, buf, .. } => {
                let t = self.scaled(w, &self.one(buf));
                self.put(buf, t)
            }
            Op::Fused2 { w1, w2, q, d, dst1, dst2 } => {
                let (q, d) = (self.one(q), self.one(d));
                let (a, b) = (self.mm_q8(w1, &q, &d), self.mm_q8(w2, &q, &d));
                self.put(dst1, a);
                self.put(dst2, b);
            }
            Op::Fused2Float { w1, w2, src, dst1, dst2 } => {
                let x = self.one(src);
                let (q, d) = (un("q", &x), un("d", &x));
                let (a, b) = (self.mm_q8(w1, &q, &d), self.mm_q8(w2, &q, &d));
                self.put(dst1, a);
                self.put(dst2, b);
            }
            Op::Fused3 { w1, w2, w3, q, d, dst1, dst2, dst3 } => {
                let (q, d) = (self.one(q), self.one(d));
                for (w, dst) in [(w1, dst1), (w2, dst2), (w3, dst3)] {
                    let t = self.mm_q8(w, &q, &d);
                    self.put(dst, t);
                }
            }
            Op::FfnAct { gate, up, dst, m3, .. } => {
                self.zip(gate, up, dst, |x, y| bin(if m3 { "clamped" } else { "silu" }, x, y))
            }
            Op::SiluMulScaled { gate, up, wg, wu, dst, .. } => {
                let (g, u) = (self.one(gate), self.one(up));
                let t = bin("silu", &self.scaled(wg, &g), &self.scaled(wu, &u));
                self.put(dst, t)
            }
            Op::SiluMulScaledQ8 { gate, up, wg, wu, q, d, .. } => {
                let (g, u) = (self.one(gate), self.one(up));
                let t = bin("silu", &self.scaled(wg, &g), &self.scaled(wu, &u));
                self.quantize(t, q, d)
            }
            Op::GeluMul { gate, up, dst, .. } => {
                self.zip(gate, up, dst, |x, y| bin("gelu", x, y))
            }
            Op::MoeFfn { layer, src, dst, .. } => {
                self.map(src, dst, |x| un(&format!("moe {layer}"), x))
            }
            Op::QGateSplit { src, q, gate, .. } => {
                self.map(src, q, |x| un("query part", x));
                self.map(src, gate, |x| un("gate part", x));
            }
            Op::Rope { buf, dims, heads, .. } => {
                self.zip(buf, Buf::Pos, buf, |x, p| bin(&format!("rope {dims} {heads}"), x, p))
            }
            Op::RopeAt { buf, positions, dims, heads, .. } => {
                self.zip(buf, positions, buf, |x, p| bin(&format!("rope {dims} {heads}"), x, p))
            }
            Op::RopeFactors { buf, heads, .. } => {
                let t = bin(&format!("rope factors {heads}"), &self.one(buf), &self.one(Buf::Pos));
                self.put(buf, t)
            }
            Op::AppendKv { seq, layer, k, v, at } => {
                self.append(seq, layer, self.one(k), self.one(v), Term::Int(at as i64))
            }
            Op::AppendKvRow { seq, layer, k, v, row, at } => {
                let (k, v) = (self.get(k)[row].clone(), self.get(v)[row].clone());
                self.append(seq, layer, k, v, Term::Int(at as i64))
            }
            Op::AppendKvCounted { seq, layer, k, v } => {
                let at = self.one(Buf::Len { seq, layer });
                self.append(seq, layer, self.one(k), self.one(v), at)
            }
            Op::IncLen { seq, layer } => self.next_int(Buf::Len { seq, layer }),
            Op::IncPos => self.next_int(Buf::Pos),
            Op::FaDecode { seq, layer, q, dst, t_kv, .. } => {
                self.attend(seq, layer, q, dst, Term::Int(t_kv as i64), t_kv)
            }
            Op::FaDecodeCounted { seq, layer, q, dst, bucket, .. } => {
                let t = self.one(Buf::Len { seq, layer });
                self.attend(seq, layer, q, dst, t, bucket)
            }
            Op::SdpaCausal { q, k, v, dst, .. } => {
                let (qs, ks, vs) = (self.get(q), self.get(k), self.get(v));
                let rows = (0..qs.len())
                    .map(|i| {
                        let mut args = vec![&qs[i]];
                        args.extend(&ks[..=i]);
                        args.extend(&vs[..=i]);
                        node("causal".to_string(), &args)
                    })
                    .collect();
                self.set(dst, rows)
            }
            Op::SdpaAll { q, k, v, dst, fused, .. } => {
                let (ks, vs) = (self.get(k), self.get(v));
                self.map(q, dst, |x| {
                    let mut args = vec![x];
                    args.extend(&ks);
                    args.extend(&vs);
                    node(format!("all {fused}"), &args)
                })
            }
            Op::Sigmoid { src, dst, .. } => self.map(src, dst, |x| un("sigmoid", x)),
            Op::Mul { a, b, dst, .. } => self.zip(a, b, dst, |x, y| bin("mul", x, y)),
            Op::Add { a, b, dst, .. } => self.zip(a, b, dst, |x, y| bin("add", x, y)),
            Op::ConvStep { seq, layer, src, dst, .. } => {
                let (st, x) = (self.one(Buf::Conv { seq, layer }), self.one(src));
                self.put(dst, bin(&format!("conv {layer}"), &st, &x));
                self.put(Buf::Conv { seq, layer }, bin("roll", &st, &x));
            }
            Op::GdnPrep { layer, .. } => {
                let c = self.one(Buf::ConvOut);
                for (b, name) in [(Buf::QL2, "gq"), (Buf::KL2, "gk"), (Buf::VGdn, "gv")] {
                    self.put(b, un(name, &c));
                }
                let (beta, alpha) = (self.one(Buf::BetaRaw), self.one(Buf::Alpha));
                self.put(Buf::Beta, un("beta", &beta));
                self.put(Buf::GLog, un(&format!("decay {layer}"), &alpha));
            }
            Op::GdnScan { seq, layer, .. } => {
                let args: Vec<Term> =
                    [Buf::QL2, Buf::KL2, Buf::VGdn, Buf::GLog, Buf::Beta, Buf::Ssm { seq, layer }]
                        .iter()
                        .map(|b| self.one(*b))
                        .collect();
                let args: Vec<&Term> = args.iter().collect();
                self.put(Buf::SsmAlt { seq, layer }, node("state".to_string(), &args));
                self.put(Buf::O, node("out".to_string(), &args));
            }
            Op::SwapState { seq, layer } => {
                let (a, b) = (self.one(Buf::Ssm { seq, layer }), self.one(Buf::SsmAlt { seq, layer }));
                self.put(Buf::Ssm { seq, layer }, b);
                self.put(Buf::SsmAlt { seq, layer }, a);
            }
            Op::CopyState { seq, layer, .. } => {
                let t = self.one(Buf::SsmAlt { seq, layer });
                self.put(Buf::Ssm { seq, layer }, t)
            }
            Op::GatedRmsNorm { layer, src, z, dst, .. } => {
                let t = bin(&format!("gated {layer}"), &self.one(src), &self.one(z));
                self.put(dst, t)
            }
            Op::GatedRmsNormQ8 { layer, src, z, q, d, .. } => {
                let t = bin(&format!("gated {layer}"), &self.one(src), &self.one(z));
                self.quantize(t, q, d)
            }
            Op::Clone { src, dst } => {
                let rows = self.get(src);
                self.set(dst, rows)
            }
            Op::TakeRow { src, row, dst, .. } => {
                let t = self.get(src)[row].clone();
                self.put(dst, t)
            }
            Op::PutRow { src, dst, row, .. } => {
                let t = self.one(src);
                self.write(dst, row, t)
            }
            Op::AllocParts { dst, parts, .. } => self.put(dst, Term::Parts(vec![0; parts])),
            Op::CopyPart { src, dst, part, .. } => {
                let code = self.one(src).code();
                match self.one(dst) {
                    Term::Parts(mut p) => {
                        p[part] = code;
                        self.put(dst, Term::Parts(p))
                    }
                    other => panic!("{dst:?} has no parts: {other:?}"),
                }
            }
            Op::StackRows { a, b, dst, .. } => {
                let mut rows = self.get(a);
                rows.extend(self.get(b));
                self.set(dst, rows)
            }
            Op::FaRange { layer, q, dst, from, t_kv, .. } => {
                self.attend_rows(layer, q, dst, from as i64, Term::Int((from + t_kv) as i64))
            }
            Op::FaBucket { layer, q, dst, .. } => {
                let to = self.one(Buf::Len { seq: 0, layer });
                self.attend_rows(layer, q, dst, 0, to)
            }
            Op::FaWindow { layer, q, dst, win, .. } => {
                let len = self.number(Buf::Len { seq: 0, layer });
                self.attend_rows(layer, q, dst, len - win as i64, Term::Int(len))
            }
            Op::ScaleSqrt { buf, .. } => {
                let t = un("sqrt scale", &self.one(buf));
                self.put(buf, t)
            }
            Op::AddScaled { a, b, dst, layer, .. } => {
                let t = bin(&format!("add scaled {layer}"), &self.one(a), &self.one(b));
                self.put(dst, t)
            }
            Op::Argmax { src, .. } => {
                let t = un("argmax", &self.one(src));
                self.put(Buf::Token, t)
            }
            Op::Prefetch { .. } => {}
        }
    }

    fn write(&mut self, b: Buf, row: usize, t: Term) {
        let mut rows = self.get(b);
        rows[row] = t;
        self.set(b, rows);
    }
}

fn tensor(out_f: usize, fast: bool) -> GpuTensor {
    GpuTensor { in_f: 64, out_f, q8_1_fast: fast, separable: fast, unit_scale: false }
}

fn kernels(fused: bool) -> LayerKernels {
    LayerKernels {
        fused3_qkv: fused,
        dual_gate_up: fused,
        dual_beta_alpha: fused,
        fused2_beta_alpha: fused,
        fused2_qkv: fused,
        fused2_qkv_float: false,
    }
}

fn full(fast: bool) -> Mixer {
    Mixer::Full(FullAttnLayer {
        wq: tensor(64, fast),
        wk: tensor(32, fast),
        wv: tensor(32, fast),
        wo: tensor(64, fast),
        q_norm: tensor(16, false),
        k_norm: tensor(16, false),
    })
}

fn linear(fast: bool) -> Mixer {
    Mixer::Linear(LinearAttnLayer {
        wqkv: tensor(64, fast),
        wqkv_gate: tensor(64, fast),
        ssm_beta: tensor(2, fast),
        ssm_alpha: tensor(2, fast),
        ssm_a: tensor(2, false),
        ssm_dt: tensor(2, false),
        ssm_conv1d: tensor(64, false),
        ssm_norm: tensor(8, false),
        ssm_out: tensor(64, fast),
    })
}

fn dense(fast: bool) -> Ffn {
    Ffn::Dense {
        ffn_gate: tensor(128, fast),
        ffn_up: tensor(128, fast),
        ffn_down: tensor(64, fast),
    }
}

fn config() -> ModelConfig {
    ModelConfig {
        n_layer: 3,
        nextn_predict_layers: 0,
        n_embd: 64,
        n_head: 4,
        n_head_kv: 2,
        head_dim_k: 16,
        rope_dim_count: 16,
        n_vocab: 100,
        kinds: Vec::new(),
        attn_out_gate: true,
        ssm: Some(SsmConfig { state_size: 8, group_count: 1, time_step_rank: 2, conv_kernel: 4 }),
        moe: None,
        m3_moe_layer_freq: None,
        hy3_first_k_dense: None,
        gemma4: None,
    }
}

fn context(fast: bool, fused: bool) -> StepContext {
    let layer = |mixer: Mixer, ffn: Ffn| HybridLayer { mixer, ffn, kernels: kernels(fused) };
    StepContext {
        cfg: config(),
        layers: vec![
            layer(linear(fast), dense(fast)),
            layer(full(fast), Ffn::Moe),
            layer(full(fast), dense(fast)),
        ],
        no_fuse: !fused,
        prefetch: fused,
        naive: false,
    }
}

/// A device on which the projections of `ctx` read quantized rows where their weights do.
fn device(fast: bool) -> Device {
    let mut d = Device::new();
    if fast {
        for il in 0..3 {
            for slot in [
                Slot::Wq,
                Slot::Wk,
                Slot::Wv,
                Slot::Wo,
                Slot::Wqkv,
                Slot::WqkvGate,
                Slot::SsmBeta,
                Slot::SsmAlpha,
                Slot::SsmOut,
                Slot::FfnGate,
                Slot::FfnUp,
                Slot::FfnDown,
            ] {
                d.fast.push(Weight::Layer(il, slot));
            }
        }
        d.fast.push(Weight::Model(Slot::Output));
    }
    d
}

fn kv(len: usize) -> Option<KvMeta> {
    Some(KvMeta { len, k_tok_bytes: 34, v_tok_bytes: 34, k_bytes: 34 * 200, v_bytes: 34 * 200 })
}

fn cache(pos: usize) -> StepCache {
    StepCache { pos, kv: vec![None, kv(pos), kv(pos)] }
}

const STATE: [Buf; 6] = [
    Buf::Conv { seq: 0, layer: 0 },
    Buf::Ssm { seq: 0, layer: 0 },
    Buf::KCache { seq: 0, layer: 1 },
    Buf::VCache { seq: 0, layer: 1 },
    Buf::KCache { seq: 0, layer: 2 },
    Buf::VCache { seq: 0, layer: 2 },
];

fn check_same(a: &Device, b: &Device) {
    assert_eq!(a.get(Buf::Logits), b.get(Buf::Logits));
    for s in STATE {
        assert_eq!(a.get(s), b.get(s), "{s:?}");
    }
}

#[test]
fn fused_and_plain_steps_compute_the_same() {
    let mut results = Vec::new();
    for fused in [true, false] {
        let ctx = context(true, fused);
        let mut c = cache(5);
        let mut d = device(true);
        let ops = decode_step_h(&ctx, &mut c, 42, false).unwrap();
        assert_eq!(ops.iter().any(|o| matches!(o, Op::RmsNormQ8 { .. })), fused);
        assert_eq!(ops.iter().any(|o| matches!(o, Op::Prefetch { .. })), fused);
        d.run(&ops);
        assert_eq!((c.pos, c.kv), (6, vec![None, kv(6), kv(6)]));
        results.push(d);
    }
    check_same(&results[0], &results[1]);
}

#[test]
fn steps_depend_on_token_and_position() {
    let run = |token: u32, pos: usize| {
        let mut d = device(false);
        d.run(&decode_step_h(&context(false, false), &mut cache(pos), token, false).unwrap());
        d.get(Buf::Logits)
    };
    assert_eq!(run(1, 3), run(1, 3));
    assert_ne!(run(1, 3), run(2, 3));
    assert_ne!(run(1, 3), run(1, 4));
}

#[test]
fn steps_with_auxiliary_outputs_compute_the_same() {
    for fast in [true, false] {
        let ctx = context(fast, false);
        let (mut a, mut b) = (device(fast), device(fast));
        a.run(&decode_step_h(&ctx, &mut cache(5), 42, false).unwrap());
        let mut c = cache(5);
        b.run(&decode_step_aux(&ctx, &mut c, 42, &[2, 0]).unwrap());
        check_same(&a, &b);
        assert_eq!(c.pos, 6);
        assert_eq!((b.get(Buf::Aux(0)).len(), b.get(Buf::Aux(1)).len()), (1, 1));
        assert_ne!(b.get(Buf::Aux(0)), b.get(Buf::Aux(1)));
        let mut sorted = device(fast);
        sorted.run(&decode_step_aux(&ctx, &mut cache(5), 42, &[0, 2]).unwrap());
        assert_eq!(b.get(Buf::Aux(0)), sorted.get(Buf::Aux(1)));
        assert_eq!(b.get(Buf::Aux(1)), sorted.get(Buf::Aux(0)));
        let mut twice = device(fast);
        twice.run(&decode_step_aux(&ctx, &mut cache(5), 42, &[2, 2]).unwrap());
        assert_eq!(twice.get(Buf::Aux(0)), twice.get(Buf::Aux(1)));
        assert_eq!(twice.get(Buf::Aux(0)), b.get(Buf::Aux(0)));
    }
}

#[test]
fn counted_steps_compute_the_same() {
    let ctx = context(true, true);
    let mut host = device(true);
    host.run(&decode_step_h(&ctx, &mut cache(5), 42, false).unwrap());
    let start = |pos: i64| {
        let mut d = device(true);
        d.put(Buf::Token, Term::Int(42));
        d.put(Buf::Pos, Term::Int(pos));
        for layer in [1, 2] {
            d.put(Buf::Len { seq: 0, layer }, Term::Int(pos));
        }
        d
    };
    let mut counted = start(5);
    let mut c = cache(5);
    counted.run(&decode_step_dc(&ctx, &mut c, 100).unwrap());
    check_same(&host, &counted);
    assert_eq!((c.pos, c.kv[1]), (6, kv(6)));
    assert_eq!(counted.number(Buf::Pos), 6);
    assert_eq!(counted.number(Buf::Len { seq: 0, layer: 2 }), 6);
    let mut c = cache(5);
    let body = decode_step_dc_cap(&ctx, &mut c, 100, 64).unwrap();
    assert_eq!((c.pos, c.kv[1]), (5, kv(5)));
    let mut captured = start(5);
    captured.run(&body);
    check_same(&host, &captured);
    let mut later_host = device(true);
    later_host.run(&decode_step_h(&ctx, &mut cache(40), 42, false).unwrap());
    let mut later = start(40);
    later.run(&body);
    check_same(&later_host, &later);
}

fn pick(logits: &Term) -> u32 {
    (logits.code() % 100) as u32
}

/// Puts back what the runs of a capture changed.
fn put_back(d: &mut Device, snapshot: &Device, save: &GraphSave) {
    for step in save.restore() {
        match step {
            Restore::Rollback => {
                for b in [Buf::Conv { seq: 0, layer: 0 }, Buf::Ssm { seq: 0, layer: 0 }] {
                    d.set(b, snapshot.get(b));
                }
            }
            Restore::SetPos { pos } => d.put(Buf::Pos, Term::Int(pos as i64)),
            Restore::SetLen { layer, len } => {
                d.put(Buf::Len { seq: 0, layer }, Term::Int(len as i64))
            }
            Restore::SetToken { token } => d.put(Buf::Token, Term::Int(token as i64)),
        }
    }
}

#[test]
fn whole_streams_are_the_same_in_all_forms() {
    let ctx = context(true, true);
    let plain = |start: u32, n: usize| {
        let (mut d, mut c, mut token) = (device(true), cache(60), start);
        let mut out = Vec::new();
        for _ in 0..n {
            d.run(&decode_step_h(&ctx, &mut c, token, false).unwrap());
            token = pick(&d.get(Buf::Logits)[0]);
            out.push(token);
        }
        (d, out)
    };
    let (host, want) = plain(42, 10);

    let mut d = device(true);
    d.put(Buf::Pos, Term::Int(60));
    for layer in [1, 2] {
        d.put(Buf::Len { seq: 0, layer }, Term::Int(60));
    }
    let (mut c, mut token) = (cache(60), 42);
    let mut graphs = GraphDecodeState::new();
    let mut bodies: Vec<Vec<Op>> = Vec::new();
    let mut out = Vec::new();
    for _ in 0..10 {
        let t_kv = next_t_kv(&c);
        let key = BucketKey { fa_vec: true, n_splits: (t_kv + 63) / 64 };
        d.put(Buf::Token, Term::Int(token as i64));
        let (at, capture) = graphs.take_step(key, t_kv);
        if capture {
            let body = decode_step_dc_cap(&ctx, &mut c, 100, t_kv).unwrap();
            let pos = c.pos as i32;
            let save = GraphSave { pos, lens: vec![None, Some(pos), Some(pos)], token };
            let snapshot = d.clone();
            for _ in 0..3 {
                d.run(&body);
            }
            assert_ne!(d.get(Buf::KCache { seq: 0, layer: 1 }), snapshot.get(Buf::KCache {
                seq: 0,
                layer: 1,
            }));
            put_back(&mut d, &snapshot, &save);
            bodies.push(body);
        }
        d.run(&bodies[at]);
        advance(&mut c);
        token = pick(&d.get(Buf::Logits)[0]);
        out.push(token);
    }
    assert_eq!(out, want);
    assert_eq!(graphs.captures, 2);
    check_same(&host, &d);
    assert_eq!((c.pos, c.kv), (70, vec![None, kv(70), kv(70)]));

    let mut batch = device(true);
    for s in STATE {
        batch.set(second(s), device(true).get(s));
    }
    let mut caches = vec![cache(60), cache(60)];
    let mut tokens = vec![42u32, 7];
    let mut streams = vec![Vec::new(), Vec::new()];
    for _ in 0..10 {
        batch.run(&decode_step_batch(&ctx, &tokens, &mut caches));
        let logits = batch.get(Buf::Logits);
        for i in 0..2 {
            tokens[i] = pick(&logits[i]);
            streams[i].push(tokens[i]);
        }
    }
    assert_eq!(streams[0], want);
    assert_eq!(streams[1], plain(7, 10).1);
    assert_ne!(streams[0], streams[1]);
}

/// The same buffer of the second sequence.
fn second(b: Buf) -> Buf {
    match b {
        Buf::Conv { layer, .. } => Buf::Conv { seq: 1, layer },
        Buf::Ssm { layer, .. } => Buf::Ssm { seq: 1, layer },
        Buf::KCache { layer, .. } => Buf::KCache { seq: 1, layer },
        Buf::VCache { layer, .. } => Buf::VCache { seq: 1, layer },
        other => other,
    }
}

#[test]
fn refused_attention_has_taken_the_row() {
    for (fast, fused) in [(false, false), (true, true)] {
        let plain = context(fast, fused);
        let mut naive = context(fast, fused);
        naive.naive = true;
        let stopped = vec![None, kv(6), kv(5)];

        let mut c = cache(5);
        let r = decode_step_h(&naive, &mut c, 1, false).unwrap_err();
        assert_eq!(r.why, PlanError::NaiveAttention);
        assert_eq!((c.pos, &c.kv), (5, &stopped));
        let whole = decode_step_h(&plain, &mut cache(5), 1, false).unwrap();
        assert!(whole.starts_with(&r.ops));
        let last = Op::AppendKv { seq: 0, layer: 1, k: Buf::Kn, v: Buf::V, at: 5 };
        assert_eq!(r.ops.last(), Some(&last));

        let mut c = cache(5);
        let r = decode_step_aux(&naive, &mut c, 1, &[0]).unwrap_err();
        assert_eq!((c.pos, &c.kv), (5, &stopped));
        assert!(decode_step_aux(&plain, &mut cache(5), 1, &[0]).unwrap().starts_with(&r.ops));
        assert_eq!(r.ops.last(), Some(&last));

        let mut c = cache(5);
        let r = decode_step_dc(&naive, &mut c, 100).unwrap_err();
        assert_eq!((c.pos, &c.kv), (5, &stopped));
        assert!(decode_step_dc(&plain, &mut cache(5), 100).unwrap().starts_with(&r.ops));
        let counted = [
            Op::AppendKvCounted { seq: 0, layer: 1, k: Buf::Kn, v: Buf::V },
            Op::IncLen { seq: 0, layer: 1 },
        ];
        assert!(r.ops.ends_with(&counted));

        let mut c = cache(5);
        let r = decode_step_dc_cap(&naive, &mut c, 100, 64).unwrap_err();
        assert_eq!((c.pos, &c.kv), (5, &cache(5).kv));
        let whole = decode_step_dc_cap(&plain, &mut cache(5), 100, 64).unwrap();
        assert!(whole.starts_with(&r.ops));
        assert!(r.ops.ends_with(&counted));
    }
}

#[test]
fn refused_steps() {
    for (il, kv_after) in [(0, vec![None, kv(5), kv(5)]), (2, vec![None, kv(6), kv(6)])] {
        let mut blocked = context(true, true);
        let mut gate = tensor(128, true);
        gate.separable = false;
        blocked.layers[il].ffn =
            Ffn::Dense { ffn_gate: gate, ffn_up: tensor(128, true), ffn_down: tensor(64, true) };
        blocked.layers[il].kernels.dual_gate_up = false;
        let mut c = cache(5);
        let r = decode_step_h(&blocked, &mut c, 1, false).unwrap_err();
        assert_eq!(r.why, PlanError::GateUpNotSeparable);
        assert_eq!((c.pos, &c.kv), (5, &kv_after));
        let up = Weight::Layer(il, Slot::FfnUp);
        assert!(matches!(
            r.ops[r.ops.len() - 2..],
            [Op::AddRmsNormQ8 { sum: Buf::X1, .. }, Op::MatmulRaw { w, .. }] if w == up
        ));
    }
    assert_eq!(step_route(true, true), StepRoute::Gemma4E4b);
    assert_eq!(step_route(false, true), StepRoute::Gemma4);
    assert_eq!(step_route(false, false), StepRoute::Trunk);
}

#[test]
fn batching_changes_nothing() {
    for fast in [true, false] {
        let ctx = context(fast, false);
        let tokens = [7u32, 8, 9];
        let mut caches: Vec<StepCache> = [3, 30, 11].iter().map(|&p| cache(p)).collect();
        let mut batch = device(fast);
        assert_eq!(check_batch(&ctx, 3, 3, false), Ok(()));
        batch.run(&decode_step_batch(&ctx, &tokens, &mut caches));
        let logits = batch.get(Buf::Logits);
        assert_eq!(logits.len(), 3);
        for (i, &p) in [3usize, 30, 11].iter().enumerate() {
            let mut alone = device(fast);
            let map = |b: Buf, seq: usize| match b {
                Buf::Conv { layer, .. } => Buf::Conv { seq, layer },
                Buf::Ssm { layer, .. } => Buf::Ssm { seq, layer },
                Buf::KCache { layer, .. } => Buf::KCache { seq, layer },
                Buf::VCache { layer, .. } => Buf::VCache { seq, layer },
                other => other,
            };
            for s in STATE {
                let initial = Device::new().get(map(s, i));
                alone.set(s, initial);
            }
            alone.run(&decode_step_h(&ctx, &mut cache(p), tokens[i], false).unwrap());
            assert_eq!(alone.get(Buf::Logits)[0], logits[i]);
            for s in STATE {
                assert_eq!(alone.get(s), batch.get(map(s, i)));
            }
            assert_eq!(caches[i].pos, p + 1);
            assert_eq!(caches[i].kv, vec![None, kv(p + 1), kv(p + 1)]);
        }
    }
}

#[test]
fn refused_batches() {
    let mut ctx = context(false, false);
    assert_eq!(check_batch(&ctx, 0, 0, false), Err(BatchRefusal::LengthMismatch));
    assert_eq!(check_batch(&ctx, 2, 3, false), Err(BatchRefusal::LengthMismatch));
    assert_eq!(check_batch(&ctx, 9, 9, false), Err(BatchRefusal::TooManySequences));
    assert_eq!(check_batch(&ctx, 8, 8, false), Ok(()));
    assert_eq!(check_batch(&ctx, 2, 2, true), Err(BatchRefusal::Gemma4));
    ctx.cfg.m3_moe_layer_freq = Some(vec![1, 1, 1]);
    assert_eq!(check_batch(&ctx, 2, 2, false), Err(BatchRefusal::M3Dense));
    for l in &mut ctx.layers {
        l.ffn = Ffn::Moe;
    }
    assert_eq!(check_batch(&ctx, 2, 2, false), Ok(()));
}

fn dense_model() -> DenseModel {
    DenseModel {
        cfg: config(),
        layers: vec![
            DenseLayer { q_norm: true, k_norm: true, ffn: dense(false) },
            DenseLayer { q_norm: false, k_norm: false, ffn: Ffn::Moe },
        ],
    }
}

#[test]
fn passes_are_causal() {
    let m = dense_model();
    let run = |tokens: &[u32]| {
        let mut d = device(false);
        d.run(&m.forward(tokens));
        d.get(Buf::Logits)
    };
    let whole = run(&[5, 6, 7, 8]);
    assert_eq!(whole.len(), 4);
    for n in 1..4 {
        assert_eq!(run(&[5, 6, 7, 8][..n]), whole[..n].to_vec());
    }
    assert_ne!(run(&[5, 6, 9, 8])[2], whole[2]);
    assert_eq!(run(&[5, 6, 9, 8])[1], whole[1]);
    assert_eq!(last_row(4, 100), (300, 400));
    assert_eq!(row_of(400, 4, 1), (100, 200));
}

fn draft_config() -> DflashCfg {
    DflashCfg {
        hidden: 64,
        n_head: 4,
        n_kv: 2,
        head_dim: 16,
        n_ff: 128,
        n_layer: 2,
        eps: 1e-6f32.to_bits(),
        rope_theta: 1e6f32.to_bits(),
        block_size: 3,
        mask_token_id: 4,
        target_layer_ids: vec![1, 3],
        sliding_window: 2048,
        layer_sliding: vec![true, false],
    }
}

#[test]
fn block_drafts_read_context_and_block() {
    let t = tensor(64, false);
    let layer = DflashLayer {
        wq: t,
        wk: t,
        wv: t,
        wo: t,
        w_gate: t,
        w_up: t,
        w_down: t,
        ln_in: t,
        ln_post: t,
        q_norm: t,
        k_norm: t,
    };
    let d = DflashDraft {
        cfg: draft_config(),
        layers: vec![layer, layer],
        fc: t,
        hidden_norm: t,
        norm: t,
    };
    let o = DflashOptions { norope: false, fused: false };
    let pos: Vec<i32> = (0..5).collect();
    let ops = d.forward(&pos, 2, o);
    let run = |ops: &[Op], taps: &[i64], noise: &[i64]| {
        let mut dev = Device::new();
        dev.set(Buf::Cat, taps.iter().map(|&n| Term::Int(n)).collect());
        dev.set(Buf::Noise, noise.iter().map(|&n| Term::Int(n)).collect());
        dev.run(ops);
        dev
    };
    let a = run(&ops, &[70, 71], &[1, 2, 3]);
    let out = match ops.last().unwrap() {
        Op::RmsNorm { dst, .. } => *dst,
        other => panic!("a pass ends with a norm: {other:?}"),
    };
    assert_eq!(a.get(out).len(), 3);
    let b = run(&ops, &[70, 71], &[1, 2, 9]);
    assert!(a.get(out).iter().zip(&b.get(out)).all(|(x, y)| x != y));
    let c = run(&ops, &[70, 72], &[1, 2, 3]);
    assert!(a.get(out).iter().zip(&c.get(out)).all(|(x, y)| x != y));
    assert_eq!(run(&ops, &[70, 71], &[1, 2, 3]).get(out), a.get(out));
    let unrotated = d.forward(&pos, 2, DflashOptions { norope: true, fused: false });
    assert!(!unrotated.iter().any(|o| matches!(o, Op::RopeAt { .. })));
    let tiled = d.forward(&pos, 2, DflashOptions { norope: false, fused: true });
    assert_ne!(run(&tiled, &[70, 71], &[1, 2, 3]).get(out), a.get(out));
}

fn eagle() -> Eagle3Draft {
    let t = tensor(64, false);
    let mut fc = t;
    fc.in_f = 192;
    let mut q = t;
    q.in_f = 128;
    let mut lm = t;
    lm.out_f = 2;
    Eagle3Draft {
        fc,
        input_layernorm: t,
        hidden_norm: t,
        q_proj: q,
        k_proj: q,
        v_proj: q,
        o_proj: t,
        post_attention_layernorm: t,
        gate_proj: t,
        up_proj: t,
        down_proj: t,
        norm: t,
        lm_head: lm,
        d2t: vec![10, -1],
        n_embd: 64,
        n_head: 4,
        n_head_kv: 2,
        head_dim: 16,
        n_ff: 128,
        draft_vocab: 2,
        rope_dim_count: 16,
        aux_layers: vec![1, 15, 28],
    }
}

#[test]
fn eagle_shapes_are_checked() {
    assert_eq!(eagle().check_shapes(), Ok(()));
    let mut d = eagle();
    d.lm_head.out_f = 3;
    assert_eq!(d.check_shapes(), Err(ShapeError::LmHeadOut));
    d.q_proj.out_f = 1;
    assert_eq!(d.check_shapes(), Err(ShapeError::QOut));
    d.q_proj.in_f = 64;
    assert_eq!(d.check_shapes(), Err(ShapeError::QIn));
    d.fc.out_f = 1;
    assert_eq!(d.check_shapes(), Err(ShapeError::FcOut));
    d.fc.in_f = 1;
    assert_eq!(d.check_shapes(), Err(ShapeError::FcIn));
    d.d2t.pop();
    assert_eq!(d.check_shapes(), Err(ShapeError::D2tLen));
    assert_eq!((eagle().d2t_map(0), eagle().d2t_map(1)), (10, 0));
}

#[test]
fn eagle_steps_chain_through_the_hidden_state() {
    let d = eagle();
    let mut scratch = Eagle3Scratch::new(1, 32, 8);
    assert_eq!((scratch.kv.len, scratch.kv.k_tok_bytes, scratch.kv.k_bytes), (0, 34, 272));
    assert_eq!((scratch.kv.v_tok_bytes, scratch.kv.v_bytes), (24, 192));
    let mut dev = Device::new();
    for i in 0..3 {
        dev.put(Buf::Aux(i), Term::Int(i as i64));
    }
    dev.run(&d.encode());
    let g0 = dev.get(Buf::G);
    dev.run(&d.draft_token(&mut scratch, 5, 20));
    let (g1, l1) = (dev.get(Buf::G), dev.get(Buf::Logits));
    assert_ne!(g0, g1);
    dev.run(&d.draft_token(&mut scratch, 5, 21));
    assert_ne!(dev.get(Buf::Logits), l1);
    assert_eq!(scratch.kv.len, 2);
    scratch.reset();
    assert_eq!(scratch.kv.len, 0);
    let mut swapped = Device::new();
    for i in 0..3 {
        swapped.put(Buf::Aux(i), Term::Int(2 - i as i64));
    }
    swapped.run(&d.encode());
    assert_ne!(swapped.get(Buf::G), g0);
}

fn gemma_draft() -> GemmaDraft {
    let t = tensor(64, false);
    let layer = |swa: bool| GemmaDraftLayer {
        attn_norm: t,
        wq: t,
        wo: t,
        q_norm: t,
        post_attn_norm: t,
        ffn_norm: t,
        ffn_gate: t,
        ffn_up: t,
        ffn_down: t,
        ffn_post_norm: t,
        out_scale: 1.0f32.to_bits(),
        swa,
        hd: 16,
        nh: 4,
    };
    GemmaDraft {
        layers: vec![layer(true), layer(false)],
        pre_proj: t,
        post_proj: t,
        output_norm: t,
        head: t,
        d2t: Some(vec![9, 4, 7]),
        trim_adapt: None,
        n_embd: 64,
        n_backbone: 64,
        rope_base_global: 1e6f32.to_bits(),
        rope_base_swa: 1e4f32.to_bits(),
        sliding_window: 512,
    }
}

#[test]
fn gemma_drafts_read_the_main_caches() {
    assert_eq!(gemma4_draft_kv_target(30, 0, true), 28);
    assert_eq!(gemma4_draft_kv_target(30, 10, false), 19);
    let d = gemma_draft();
    assert_eq!(d.draft_token(1), 4);
    assert_eq!(d.trim_adapt_stats(), None);
    assert!(d.trim_adapt_save(&[]).is_empty());
    for len in [100usize, 512, 513, 2000] {
        let main = Some(MainKv { len, kv_dim_k: 32 });
        let kvs = [None, main, main];
        let run = |rows: CacheRows| {
            let cx = DraftContext { n_layer: 3, shared: 0, kv: &kvs, rows, wkv: false };
            let mut dev = Device::new();
            for layer in [1, 2] {
                dev.put(Buf::Len { seq: 0, layer }, Term::Int(len as i64));
            }
            let ops = d.gemma4_draft_step(&cx, 3, 17);
            assert!(!ops.iter().any(|o| matches!(o, Op::AppendKv { .. })));
            dev.run(&ops);
            (dev.get(Buf::Logits), dev.get(Buf::Hn))
        };
        let host = run(CacheRows::Host);
        assert_eq!(host, run(CacheRows::Counted { bucket: 2048 }));
        assert_eq!(host, run(CacheRows::Counted { bucket: 4096 }));
    }
}

#[test]
fn gemma_draft_entries_share_the_trunk() {
    let d = gemma_draft();
    let main = Some(MainKv { len: 40, kv_dim_k: 32 });
    let kvs = [None, main, main];
    let cx = DraftContext { n_layer: 3, shared: 0, kv: &kvs, rows: CacheRows::Host, wkv: false };
    let trunk = d.gemma4_draft_trunk_from_x(&cx);
    let host = d.gemma4_draft_trunk(&cx, 3, 17);
    assert_eq!(host.len(), trunk.len() + 5);
    assert_eq!(host[1], Op::EmbedHost { row: 0, token: 3, dim: 64 });
    assert_eq!(host[4], Op::SetPos { row: 0, pos: 17 });
    assert_eq!(host[5..], trunk[..]);
    let on_device = d.gemma4_draft_trunk_dev(&cx);
    assert_eq!(on_device[0], Op::EmbedDevice { dim: 64 });
    assert_eq!(on_device[2..], trunk[..]);
    let step = d.gemma4_draft_step(&cx, 3, 17);
    assert_eq!(step[..host.len()], host[..]);
    let greedy = d.gemma4_draft_step_greedy(&cx, 3, 17);
    assert_eq!(greedy[..step.len()], step[..]);
    assert_eq!(greedy[step.len()..], [Op::Argmax { src: Buf::Logits, n: d.head.out_f }]);
}
