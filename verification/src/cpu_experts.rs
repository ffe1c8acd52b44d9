//! Routed experts on the CPU: which requests can be served, and what is handed to the backend.

use vstd::prelude::*;
use vstd::string::*;

use crate::qtype::{
    GgmlType, QT_BF16, QT_F32, QT_IQ3_S, QT_IQ4_XS, QT_NVFP4, QT_Q2_K, QT_Q3_K, QT_Q4_0, QT_Q4_K, QT_Q5_K,
    QT_Q6_K, QT_Q8_0,
};
use crate::text;

verus! {

/// Why a thread count is refused.
#[derive(Clone, Copy, Debug, PartialEq, Eq, Structural)]
pub enum ThreadError {
    NotInteger,
    OutOfRange { threads: i32 },
}

/// The text of a thread count; eight threads where it is absent.
pub open spec fn thread_text(value: Option<&str>) -> Seq<char> {
    match value {
        Some(s) => s@,
        None => seq!['8'],
    }
}

/// A thread count as the integer that its text spells.
pub open spec fn thread_number(value: Option<&str>) -> Option<int> {
    text::signed(thread_text(value), 0x8000_0000, 0x7fff_ffff)
}

/// Reads a thread count from 1 up to 256; eight where none is given.
pub fn parse_thread_count(value: Option<&str>) -> (r: Result<i32, ThreadError>)
    ensures
        match r {
            Ok(n) => thread_number(value) == Some(n as int) && 1 <= n <= 256,
            Err(ThreadError::NotInteger) => thread_number(value) is None,
            Err(ThreadError::OutOfRange { threads }) => thread_number(value) == Some(threads as int)
                && !(1 <= threads <= 256),
        },
{
    let raw: Vec<char> = match value {
        Some(s) => text::chars_of(s),
        None => vec!['8'],
    };
    assert(raw@ =~= thread_text(value));
    match text::parse_i32(raw.as_slice()) {
        Some(threads) => if 1 <= threads && threads <= 256 {
            Ok(threads)
        } else {
            Err(ThreadError::OutOfRange { threads })
        },
        None => Err(ThreadError::NotInteger),
    }
}

/// What is said of a backend with another interface version.
pub open spec fn abi_message(abi: nat) -> Seq<char> {
    "CPU expert ABI "@ + text::decimal(abi) + " is incompatible; bw24 requires v1"@
}

/// Accepts interface version 1 only.
pub fn require_abi_v1(abi: u32) -> (r: Result<(), String>)
    ensures
        match r {
            Ok(()) => abi == 1,
            Err(m) => abi != 1 && m@ == abi_message(abi as nat),
        },
{
    if abi == 1 {
        Ok(())
    } else {
        let mut m = "CPU expert ABI ".to_owned();
        text::push_decimal(&mut m, abi as u64);
        m.append(" is incompatible; bw24 requires v1");
        Err(m)
    }
}

/// Functions that a backend exports.
pub const N_SYMBOLS: usize = 4;

/// The name of function `i` of a backend.
pub open spec fn symbol_name(i: int) -> Seq<char> {
    if i == 0 {
        "bw24_cpu_experts_abi_version"@
    } else if i == 1 {
        "bw24_cpu_moe_token_v1"@
    } else if i == 2 {
        "bw24_cpu_expert_cache_stats_v1"@
    } else {
        "bw24_cpu_expert_profile_stats_v1"@
    }
}

/// The name of function `i` of a backend.
pub fn backend_symbol(i: usize) -> (r: &'static str)
    requires
        i < N_SYMBOLS,
    ensures
        r@ == symbol_name(i as int),
{
    if i == 0 {
        "bw24_cpu_experts_abi_version"
    } else if i == 1 {
        "bw24_cpu_moe_token_v1"
    } else if i == 2 {
        "bw24_cpu_expert_cache_stats_v1"
    } else {
        "bw24_cpu_expert_profile_stats_v1"
    }
}

/// `i` is the first function that is missing.
pub open spec fn first_missing(found: Seq<bool>, i: int) -> bool {
    &&& 0 <= i < found.len()
    &&& !found[i]
    &&& forall|j: int| 0 <= j < i ==> #[trigger] found[j]
}

/// Accepts a library that exports all functions, and otherwise names the first that it lacks.
pub fn require_symbols(found: &[bool]) -> (r: Result<(), String>)
    requires
        found@.len() == N_SYMBOLS,
    ensures
        match r {
            Ok(()) => forall|i: int| 0 <= i < N_SYMBOLS ==> #[trigger] found@[i],
            Err(m) => exists|i: int| #[trigger]
                first_missing(found@, i) && m@ == "missing symbol "@ + symbol_name(i),
        },
{
    let mut i: usize = 0;
    while i < N_SYMBOLS
        invariant
            i <= N_SYMBOLS,
            found@.len() == N_SYMBOLS,
            forall|j: int| 0 <= j < i ==> #[trigger] found@[j],
        decreases N_SYMBOLS - i,
    {
        if !found[i] {
            assert(first_missing(found@, i as int));
            let mut m = "missing symbol ".to_owned();
            m.append(backend_symbol(i));
            return Err(m);
        }
        i += 1;
    }
    Ok(())
}

/// The backend's code of a format.
pub open spec fn backend_type(qtype: i32) -> Option<i32> {
    if qtype == QT_F32 {
        Some(0)
    } else if qtype == QT_Q4_0 {
        Some(2)
    } else if qtype == QT_Q8_0 {
        Some(8)
    } else if qtype == QT_Q2_K {
        Some(10)
    } else if qtype == QT_Q3_K {
        Some(11)
    } else if qtype == QT_Q4_K {
        Some(12)
    } else if qtype == QT_Q5_K {
        Some(13)
    } else if qtype == QT_Q6_K {
        Some(14)
    } else if qtype == QT_IQ3_S {
        Some(21)
    } else if qtype == QT_IQ4_XS {
        Some(23)
    } else if qtype == QT_BF16 {
        Some(30)
    } else if qtype == QT_NVFP4 {
        Some(40)
    } else {
        None
    }
}

/// What is said of a format that the backend does not know.
pub open spec fn qtype_message(qtype: i32) -> Seq<char> {
    "CPU expert backend does not map bw24 qtype "@ + text::signed_decimal(qtype as int)
}

fn backend_code(qtype: i32) -> (r: Option<i32>)
    ensures
        r == backend_type(qtype),
{
    if qtype == QT_F32 {
        Some(0)
    } else if qtype == QT_Q4_0 {
        Some(2)
    } else if qtype == QT_Q8_0 {
        Some(8)
    } else if qtype == QT_Q2_K {
        Some(10)
    } else if qtype == QT_Q3_K {
        Some(11)
    } else if qtype == QT_Q4_K {
        Some(12)
    } else if qtype == QT_Q5_K {
        Some(13)
    } else if qtype == QT_Q6_K {
        Some(14)
    } else if qtype == QT_IQ3_S {
        Some(21)
    } else if qtype == QT_IQ4_XS {
        Some(23)
    } else if qtype == QT_BF16 {
        Some(30)
    } else if qtype == QT_NVFP4 {
        Some(40)
    } else {
        None
    }
}

/// Maps a format code to the backend's.
pub fn ggml_type(qtype: i32) -> (r: Result<i32, String>)
    ensures
        match r {
            Ok(t) => backend_type(qtype) == Some(t),
            Err(m) => backend_type(qtype) is None && m@ == qtype_message(qtype),
        },
{
    match backend_code(qtype) {
        Some(t) => Ok(t),
        None => {
            let mut m = "CPU expert backend does not map bw24 qtype ".to_owned();
            text::push_signed_decimal(&mut m, qtype as i64);
            Err(m)
        },
    }
}

/// Where the bytes of an expert are.
#[derive(Clone, Copy, Debug, PartialEq, Eq, Structural)]
pub enum ExpertSource {
    /// In a file.
    Disk { offset: u64, len: usize },
    /// In page-locked memory that the CPU is slow to read.
    WriteCombined,
    /// In other memory.
    Memory,
}

/// One expert of a projection.
#[derive(Clone, Copy, Debug, PartialEq, Eq, Structural)]
pub struct ExpertMeta {
    /// Bytes at hand.
    pub bytes: usize,
    /// Bytes that the layout says.
    pub len: usize,
    pub row_bytes: usize,
    pub qtype: i32,
    pub source: ExpertSource,
    /// Bits of the macro scale, a 32-bit float.
    pub scale: u32,
}

/// The experts of one projection.
pub struct ExpertStack {
    pub in_f: usize,
    pub out_f: usize,
    pub experts: Vec<ExpertMeta>,
}

/// What the backend is told of one projection.
#[derive(Clone, Copy, Debug, PartialEq, Eq, Structural)]
pub struct Projection {
    pub ggml_type: i32,
    pub in_features: i32,
    pub out_features: i32,
    pub row_bytes: usize,
    pub byte_len: usize,
    /// The bytes are read from a file, from `file_offset` on.
    pub from_file: bool,
    pub file_offset: u64,
    pub scale: u32,
}

/// Why a projection cannot be served.
#[derive(Clone, Copy, Debug, PartialEq, Eq, Structural)]
pub enum ProjectionError {
    /// Bytes, layout and rows disagree.
    Extent,
    /// The extent on disk differs from the layout.
    DiskExtent,
    /// The bytes are in memory that the CPU must not read.
    WriteCombined,
    /// The backend does not know the format.
    Qtype { qtype: i32 },
    /// The input is too wide.
    InWidth,
    /// The output is too wide.
    OutWidth,
}

/// What is wrong with a projection of one expert, the first thing first.
pub open spec fn projection_error(s: ExpertStack, m: ExpertMeta) -> Option<ProjectionError> {
    if m.bytes != m.len || m.len != m.row_bytes * s.out_f {
        Some(ProjectionError::Extent)
    } else if m.source matches ExpertSource::Disk { offset, len } && len != m.len {
        Some(ProjectionError::DiskExtent)
    } else if m.source == ExpertSource::WriteCombined {
        Some(ProjectionError::WriteCombined)
    } else if backend_type(m.qtype) is None {
        Some(ProjectionError::Qtype { qtype: m.qtype })
    } else if s.in_f > i32::MAX {
        Some(ProjectionError::InWidth)
    } else if s.out_f > i32::MAX {
        Some(ProjectionError::OutWidth)
    } else {
        None
    }
}

/// What the backend is told of one expert's projection.
pub open spec fn described(s: ExpertStack, m: ExpertMeta) -> Projection {
    Projection {
        ggml_type: backend_type(m.qtype)->0,
        in_features: s.in_f as i32,
        out_features: s.out_f as i32,
        row_bytes: m.row_bytes,
        byte_len: m.len,
        from_file: m.source is Disk,
        file_offset: match m.source {
            ExpertSource::Disk { offset, len } => offset,
            _ => 0,
        },
        scale: m.scale,
    }
}

/// Describes one expert's projection to the backend.
pub fn projection(s: &ExpertStack, expert: usize) -> (r: Result<Projection, ProjectionError>)
    requires
        expert < s.experts@.len(),
    ensures
        match r {
            Ok(p) => projection_error(*s, s.experts@[expert as int]) is None && p == described(
                *s,
                s.experts@[expert as int],
            ),
            Err(e) => projection_error(*s, s.experts@[expert as int]) == Some(e),
        },
{
    let m = s.experts[expert];
    let whole = match m.row_bytes.checked_mul(s.out_f) {
        Some(n) => n == m.len,
        None => false,
    };
    if m.bytes != m.len || !whole {
        return Err(ProjectionError::Extent);
    }
    let (from_file, file_offset): (bool, u64) = match m.source {
        ExpertSource::Disk { offset, len } => {
            if len != m.len {
                return Err(ProjectionError::DiskExtent);
            }
            (true, offset)
        },
        ExpertSource::WriteCombined => {
            return Err(ProjectionError::WriteCombined);
        },
        ExpertSource::Memory => (false, 0),
    };
    let ggml_type = match backend_code(m.qtype) {
        Some(t) => t,
        None => {
            return Err(ProjectionError::Qtype { qtype: m.qtype });
        },
    };
    if s.in_f > i32::MAX as usize {
        return Err(ProjectionError::InWidth);
    }
    if s.out_f > i32::MAX as usize {
        return Err(ProjectionError::OutWidth);
    }
    Ok(
        Projection {
            ggml_type,
            in_features: s.in_f as i32,
            out_features: s.out_f as i32,
            row_bytes: m.row_bytes,
            byte_len: m.len,
            from_file,
            file_offset,
            scale: m.scale,
        },
    )
}

/// The experts of one layer.
pub struct LayerExperts {
    pub gate: ExpertStack,
    pub up: ExpertStack,
    pub down: ExpertStack,
    /// Per expert, whether it was kept, where some were pruned.
    pub active: Option<Vec<bool>>,
}

impl LayerExperts {
    /// The stacks and the list of kept experts cover all experts.
    pub open spec fn covers(&self) -> bool {
        &&& self.up.experts@.len() >= self.gate.experts@.len()
        &&& self.down.experts@.len() >= self.gate.experts@.len()
        &&& self.active matches Some(a) ==> a@.len() >= self.gate.experts@.len()
    }
}

/// An expert that the router picked, and the bits of its weight.
#[derive(Clone, Copy, Debug, PartialEq, Eq, Structural)]
pub struct Selected {
    pub expert: usize,
    pub route_weight: u32,
}

/// What the backend is told of one expert.
#[derive(Clone, Copy, Debug, PartialEq, Eq, Structural)]
pub struct OwnedExpert {
    pub expert: usize,
    pub gate: Projection,
    pub up: Projection,
    pub down: Projection,
    pub route_weight: u32,
}

/// A request to the backend.
#[derive(Debug)]
pub struct CpuExpertJob {
    pub experts: Vec<OwnedExpert>,
    pub output_features: usize,
    pub threads: i32,
}

/// Why a request cannot be made.
#[derive(Clone, Copy, Debug, PartialEq, Eq, Structural)]
pub enum JobError {
    Empty,
    /// The input does not have the width of the experts.
    InputLen { expected: usize },
    /// There is no such expert.
    OutOfRange { expert: usize },
    /// The router picked an expert that was pruned.
    Pruned { expert: usize },
    Projection { expert: usize, error: ProjectionError },
    Threads { why: ThreadError },
}

/// What is wrong with one picked expert.
pub open spec fn selected_error(w: LayerExperts, expert: usize) -> Option<JobError> {
    if expert >= w.gate.experts@.len() {
        Some(JobError::OutOfRange { expert })
    } else if w.active matches Some(a) && !a@[expert as int] {
        Some(JobError::Pruned { expert })
    } else {
        let i = expert as int;
        match projection_error(w.gate, w.gate.experts@[i]) {
            Some(error) => Some(JobError::Projection { expert, error }),
            None => match projection_error(w.up, w.up.experts@[i]) {
                Some(error) => Some(JobError::Projection { expert, error }),
                None => match projection_error(w.down, w.down.experts@[i]) {
                    Some(error) => Some(JobError::Projection { expert, error }),
                    None => None,
                },
            },
        }
    }
}

/// What is wrong with the first picked expert with which something is.
pub open spec fn first_error(w: LayerExperts, selected: Seq<Selected>) -> Option<JobError>
    decreases selected.len(),
{
    if selected.len() == 0 {
        None
    } else {
        match first_error(w, selected.drop_last()) {
            Some(e) => Some(e),
            None => selected_error(w, selected.last().expert),
        }
    }
}

/// Everything that can be wrong with a request, in the order in which it is found.
pub open spec fn job_error(
    w: LayerExperts,
    selected: Seq<Selected>,
    input_len: nat,
    threads: Result<i32, ThreadError>,
) -> Option<JobError> {
    if selected.len() == 0 {
        Some(JobError::Empty)
    } else if input_len != w.gate.in_f {
        Some(JobError::InputLen { expected: w.gate.in_f })
    } else {
        match first_error(w, selected) {
            Some(e) => Some(e),
            None => match threads {
                Ok(_) => None,
                Err(why) => Some(JobError::Threads { why }),
            },
        }
    }
}

/// What the backend is told of one picked expert.
pub open spec fn expert_of(w: LayerExperts, s: Selected) -> OwnedExpert {
    let i = s.expert as int;
    OwnedExpert {
        expert: s.expert,
        gate: described(w.gate, w.gate.experts@[i]),
        up: described(w.up, w.up.experts@[i]),
        down: described(w.down, w.down.experts@[i]),
        route_weight: s.route_weight,
    }
}

/// `p` tells the backend of expert `i` of the stack `s`: its format, both widths, its bytes and
/// where they are, and its macro scale.
pub open spec fn tells(p: Projection, s: ExpertStack, i: int) -> bool {
    let m = s.experts@[i];
    &&& backend_type(m.qtype) == Some(p.ggml_type)
    &&& p.in_features == s.in_f
    &&& p.out_features == s.out_f
    &&& p.row_bytes == m.row_bytes
    &&& p.row_bytes * p.out_features == p.byte_len
    &&& p.byte_len == m.bytes
    &&& p.scale == m.scale
    &&& match m.source {
        ExpertSource::Disk { offset, len } => p.from_file && p.file_offset == offset && len
            == p.byte_len,
        ExpertSource::WriteCombined => false,
        ExpertSource::Memory => !p.from_file,
    }
}

/// `e` tells the backend of a picked expert: each projection is that of the stack of the same name.
pub open spec fn tells_expert(e: OwnedExpert, w: LayerExperts, s: Selected) -> bool {
    &&& e.expert == s.expert
    &&& e.route_weight == s.route_weight
    &&& tells(e.gate, w.gate, s.expert as int)
    &&& tells(e.up, w.up, s.expert as int)
    &&& tells(e.down, w.down, s.expert as int)
}

/// Of every picked expert with which nothing is wrong the backend is told each of the three
/// projections under its own name: gate as gate, up as up, down as down.
pub proof fn law_experts_keep_their_places(w: LayerExperts, s: Selected)
    requires
        selected_error(w, s.expert) is None,
    ensures
        tells_expert(expert_of(w, s), w, s),
{
}

/// An accepted request holds the picked experts in their order, each told as it is, and none that
/// was pruned or is not there.
pub proof fn law_job_tells_all(
    job: CpuExpertJob,
    w: LayerExperts,
    selected: Seq<Selected>,
    input_len: nat,
    threads: Result<i32, ThreadError>,
    k: int,
)
    requires
        job_error(w, selected, input_len, threads) is None,
        job.experts@ == selected.map_values(|s: Selected| expert_of(w, s)),
        0 <= k < selected.len(),
    ensures
        job.experts@.len() == selected.len(),
        tells_expert(job.experts@[k], w, selected[k]),
        selected[k].expert < w.gate.experts@.len(),
        w.active matches Some(a) ==> a@[selected[k].expert as int],
        input_len == w.gate.in_f,
{
    lemma_no_error(w, selected, k);
}

proof fn lemma_no_error(w: LayerExperts, selected: Seq<Selected>, k: int)
    requires
        first_error(w, selected) is None,
        0 <= k < selected.len(),
    ensures
        selected_error(w, selected[k].expert) is None,
    decreases selected.len(),
{
    if k < selected.len() - 1 {
        lemma_no_error(w, selected.drop_last(), k);
    }
}

fn prepare_one(w: &LayerExperts, s: Selected) -> (r: Result<OwnedExpert, JobError>)
    requires
        w.covers(),
    ensures
        match r {
            Ok(e) => selected_error(*w, s.expert) is None && e == expert_of(*w, s),
            Err(e) => selected_error(*w, s.expert) == Some(e),
        },
{
    let expert = s.expert;
    if expert >= w.gate.experts.len() {
        return Err(JobError::OutOfRange { expert });
    }
    match &w.active {
        Some(a) => {
            if !a[expert] {
                return Err(JobError::Pruned { expert });
            }
        },
        None => {},
    }
    let gate = match projection(&w.gate, expert) {
        Ok(p) => p,
        Err(error) => {
            return Err(JobError::Projection { expert, error });
        },
    };
    let up = match projection(&w.up, expert) {
        Ok(p) => p,
        Err(error) => {
            return Err(JobError::Projection { expert, error });
        },
    };
    let down = match projection(&w.down, expert) {
        Ok(p) => p,
        Err(error) => {
            return Err(JobError::Projection { expert, error });
        },
    };
    Ok(OwnedExpert { expert, gate, up, down, route_weight: s.route_weight })
}

proof fn lemma_error_prefix(w: LayerExperts, selected: Seq<Selected>, k: int)
    requires
        0 <= k <= selected.len(),
        first_error(w, selected.take(k)) is Some,
    ensures
        first_error(w, selected) == first_error(w, selected.take(k)),
    decreases selected.len(),
{
    if k == selected.len() {
        assert(selected.take(k) =~= selected);
    } else {
        assert(selected.drop_last().take(k) =~= selected.take(k));
        lemma_error_prefix(w, selected.drop_last(), k);
    }
}

/// Makes a request for the picked experts on an input of `input_len` values.
pub fn prepare_job(
    w: &LayerExperts,
    selected: &[Selected],
    input_len: usize,
    threads: Result<i32, ThreadError>,
) -> (r: Result<CpuExpertJob, JobError>)
    requires
        w.covers(),
    ensures
        match r {
            Ok(j) => {
                &&& job_error(*w, selected@, input_len as nat, threads) is None
                &&& j.experts@ == selected@.map_values(|s: Selected| expert_of(*w, s))
                &&& forall|k: int|
                    0 <= k < selected@.len() ==> tells_expert(
                        #[trigger] j.experts@[k],
                        *w,
                        selected@[k],
                    )
                &&& j.output_features == w.down.out_f
                &&& threads == Ok::<i32, ThreadError>(j.threads)
            },
            Err(e) => job_error(*w, selected@, input_len as nat, threads) == Some(e),
        },
{
    if selected.len() == 0 {
        return Err(JobError::Empty);
    }
    if input_len != w.gate.in_f {
        return Err(JobError::InputLen { expected: w.gate.in_f });
    }
    let ghost all = selected@.map_values(|s: Selected| expert_of(*w, s));
    let mut experts: Vec<OwnedExpert> = Vec::new();
    let mut i: usize = 0;
    while i < selected.len()
        invariant
            i <= selected@.len(),
            selected@.len() > 0,
            input_len == w.gate.in_f,
            w.covers(),
            all == selected@.map_values(|s: Selected| expert_of(*w, s)),
            first_error(*w, selected@.take(i as int)) is None,
            experts@ == all.take(i as int),
        decreases selected@.len() - i,
    {
        let ghost t = selected@.take(i + 1);
        proof {
            assert(t.drop_last() =~= selected@.take(i as int));
            assert(t.last() == selected@[i as int]);
        }
        match prepare_one(w, selected[i]) {
            Ok(e) => {
                experts.push(e);
                assert(experts@ =~= all.take(i + 1));
            },
            Err(e) => {
                proof {
                    lemma_error_prefix(*w, selected@, i + 1);
                }
                return Err(e);
            },
        }
        i += 1;
    }
    assert(selected@.take(selected@.len() as int) =~= selected@);
    assert(all.take(selected@.len() as int) =~= all);
    match threads {
        Ok(threads) => {
            proof {
                assert forall|k: int| 0 <= k < selected@.len() implies tells_expert(
                    #[trigger] experts@[k],
                    *w,
                    selected@[k],
                ) by {
                    lemma_no_error(*w, selected@, k);
                }
            }
            Ok(CpuExpertJob { experts, output_features: w.down.out_f, threads })
        },
        Err(why) => Err(JobError::Threads { why }),
    }
}

/// The number of experts of a request, as the backend takes it; none when it does not fit.
pub fn expert_count(job: &CpuExpertJob) -> (r: Option<i32>)
    ensures
        match r {
            Some(n) => n == job.experts@.len(),
            None => job.experts@.len() > i32::MAX,
        },
{
    let n = job.experts.len();
    if n <= i32::MAX as usize {
        Some(n as i32)
    } else {
        None
    }
}

/// What the backend did so far. The counters wrap around.
#[derive(Clone, Copy, Debug, PartialEq, Eq, Structural)]
pub struct CpuStats {
    pub calls: u64,
    pub experts: u64,
    pub wall_ns: u64,
    /// Requests of which no, one or two projections were on the device already.
    pub resident_0: u64,
    pub resident_1: u64,
    pub resident_2: u64,
}

/// `v` counted one further, around the end of its range.
pub open spec fn bumped(v: u64, by: u64) -> u64 {
    ((v + by) % 0x1_0000_0000_0000_0000) as u64
}

fn bump(v: u64, by: u64) -> (r: u64)
    ensures
        r == bumped(v, by),
{
    v.wrapping_add(by)
}

impl CpuStats {
    /// Nothing done yet.
    pub fn new() -> (r: CpuStats)
        ensures
            r == (CpuStats {
                calls: 0,
                experts: 0,
                wall_ns: 0,
                resident_0: 0,
                resident_1: 0,
                resident_2: 0,
            }),
    {
        CpuStats { calls: 0, experts: 0, wall_ns: 0, resident_0: 0, resident_1: 0, resident_2: 0 }
    }

    /// Counts one call for `experts` experts that took `ns` nanoseconds.
    pub fn record_call(&mut self, experts: u64, ns: u64)
        ensures
            *final(self) == (CpuStats {
                calls: bumped(old(self).calls, 1),
                experts: bumped(old(self).experts, experts),
                wall_ns: bumped(old(self).wall_ns, ns),
                ..*old(self)
            }),
    {
        self.calls = bump(self.calls, 1);
        self.experts = bump(self.experts, experts);
        self.wall_ns = bump(self.wall_ns, ns);
    }

    /// Counts a request of which some projections, but not all, were on the device already.
    pub fn record_incomplete_gpu_residency(&mut self, resident_projections: usize)
        ensures
            *final(self) == (match resident_projections {
                0 => CpuStats { resident_0: bumped(old(self).resident_0, 1), ..*old(self) },
                1 => CpuStats { resident_1: bumped(old(self).resident_1, 1), ..*old(self) },
                2 => CpuStats { resident_2: bumped(old(self).resident_2, 1), ..*old(self) },
                _ => *old(self),
            }),
    {
        if resident_projections == 0 {
            self.resident_0 = bump(self.resident_0, 1);
        } else if resident_projections == 1 {
            self.resident_1 = bump(self.resident_1, 1);
        } else if resident_projections == 2 {
            self.resident_2 = bump(self.resident_2, 1);
        }
    }

    /// Requests of which no, one or two projections were on the device already.
    pub fn incomplete_gpu_residency_stats(&self) -> (r: (u64, u64, u64))
        ensures
            r == (self.resident_0, self.resident_1, self.resident_2),
    {
        (self.resident_0, self.resident_1, self.resident_2)
    }
}

/// A request that the worker may still be reading model memory for.
#[derive(Debug)]
pub struct CpuExpertTicket {
    outstanding: bool,
}

impl CpuExpertTicket {
    /// The worker's reply was not received yet.
    pub closed spec fn is_outstanding(&self) -> bool {
        self.outstanding
    }

    /// A request was handed to the worker.
    pub fn submitted() -> (r: CpuExpertTicket)
        ensures
            r.is_outstanding(),
    {
        CpuExpertTicket { outstanding: true }
    }

    /// Waits for the reply, or gives the ticket up; either way the reply is received first where
    /// it was not yet. Returns whether it has to be received now.
    pub fn join(&mut self) -> (receive: bool)
        ensures
            receive == old(self).is_outstanding(),
            !final(self).is_outstanding(),
    {
        let receive = self.outstanding;
        self.outstanding = false;
        receive
    }
}

/// The number of a format in checkpoint files.
pub open spec fn file_type(t: GgmlType) -> i32 {
    match t {
        GgmlType::F32 => 0,
        GgmlType::Q4_0 => 2,
        GgmlType::Q8_0 => 8,
        GgmlType::Q2_K => 10,
        GgmlType::Q3_K => 11,
        GgmlType::Q4_K => 12,
        GgmlType::Q5_K => 13,
        GgmlType::Q6_K => 14,
        GgmlType::IQ3_S => 21,
        GgmlType::IQ4_XS => 23,
        GgmlType::BF16 => 30,
        GgmlType::NVFP4 => 40,
    }
}

/// The backend's code of a format is its number in checkpoint files, and no two codes share one.
pub proof fn law_backend_types(t: GgmlType, a: i32, b: i32)
    ensures
        backend_type(t.code()) == Some(file_type(t)),
        backend_type(a) is Some && backend_type(a) == backend_type(b) ==> a == b,
{
}

/// A projection is served exactly where bytes, layout and rows agree, a file holds as much as the
/// layout says, the CPU may read it, the backend knows the format, and the widths fit.
pub proof fn law_projection_is_served(s: ExpertStack, m: ExpertMeta)
    ensures
        projection_error(s, m) is None <==> {
            &&& m.bytes == m.len
            &&& m.len == m.row_bytes * s.out_f
            &&& (m.source matches ExpertSource::Disk { offset, len } ==> len == m.bytes)
            &&& m.source != ExpertSource::WriteCombined
            &&& backend_type(m.qtype) is Some
            &&& s.in_f <= i32::MAX
            &&& s.out_f <= i32::MAX
        },
{
}

/// A thread count reads back as it is written, and without one there are eight threads.
pub proof fn law_thread_counts(value: &str, n: int)
    requires
        -0x8000_0000 <= n <= 0x7fff_ffff,
        value@ == text::signed_decimal(n),
    ensures
        thread_number(Some(value)) == Some(n),
        thread_number(None) == Some(8int),
{
    text::law_signed_decimal_reads_back(n, 0x8000_0000, 0x7fff_ffff);
    text::law_signed_decimal_reads_back(8, 0x8000_0000, 0x7fff_ffff);
    assert(text::signed_decimal(8) =~= seq!['8']);
}

} // verus!
