//! Routed experts that stay on the device: whether they fit, how their rows lie there, and where
//! the kernels find them.

use vstd::prelude::*;
use vstd::slice::slice_subrange;

verus! {

/// The experts of one projection as they lie in host memory.
pub struct HostExps<'a> {
    pub bytes: &'a [u8],
    pub n_expert: usize,
    pub in_f: usize,
    pub out_f: usize,
    /// Bytes of one row.
    pub row_bytes: usize,
    /// Bytes from one expert to the next.
    pub expert_stride: usize,
    /// Some experts are mapped from disk.
    pub tiered: bool,
}

impl<'a> HostExps<'a> {
    /// First byte of row `o` of expert `ex`.
    pub open spec fn row_at(&self, ex: int, o: int) -> int {
        ex * self.expert_stride + o * self.row_bytes
    }

    /// Row `o` of expert `ex`.
    pub open spec fn row(&self, ex: int, o: int) -> Seq<u8> {
        self.bytes@.subrange(self.row_at(ex, o), self.row_at(ex, o) + self.row_bytes)
    }

    /// The bytes hold all rows of all experts.
    pub open spec fn whole(&self) -> bool {
        forall|ex: int, o: int|
            0 <= ex < self.n_expert && 0 <= o < self.out_f ==> (#[trigger] self.row_at(ex, o))
                + self.row_bytes <= self.bytes@.len()
    }
}

/// Bytes of one layer's experts.
pub open spec fn layer_bytes(gate: HostExps, up: HostExps, down: HostExps) -> nat {
    gate.bytes@.len() + up.bytes@.len() + down.bytes@.len()
}

/// Whether all experts stay on the device: not when that is switched off or experts are mapped
/// from disk, and only when `n_layer` times one layer's experts fit the budget. Without a budget
/// nothing fits.
pub fn resident_decision(
    off: bool,
    tiered: bool,
    budget: Option<usize>,
    per_layer: usize,
    n_layer: usize,
) -> (r: bool)
    requires
        per_layer * n_layer <= usize::MAX,
    ensures
        r <==> !off && !tiered && (budget matches Some(b) && per_layer * n_layer <= b),
{
    if off || tiered {
        return false;
    }
    match budget {
        Some(b) => per_layer * n_layer <= b,
        None => false,
    }
}

/// Bytes of one layer's experts, if they can be counted.
pub fn per_layer_bytes(gate: &HostExps, up: &HostExps, down: &HostExps) -> (r: Option<usize>)
    ensures
        match r {
            Some(n) => n == layer_bytes(*gate, *up, *down),
            None => layer_bytes(*gate, *up, *down) > usize::MAX,
        },
{
    match gate.bytes.len().checked_add(up.bytes.len()) {
        Some(a) => a.checked_add(down.bytes.len()),
        None => None,
    }
}

/// Gate and up rows are interleaved when that is asked for and they have the same shape.
pub fn interleaves(asked: bool, gate: &HostExps, up: &HostExps) -> (r: bool)
    ensures
        r == (asked && gate.out_f == up.out_f && gate.in_f == up.in_f),
{
    asked && gate.out_f == up.out_f && gate.in_f == up.in_f
}

/// The first `k` rows of expert `ex`: each gate row, then the up row.
pub open spec fn expert_rows(gate: HostExps, up: HostExps, ex: int, k: nat) -> Seq<u8>
    decreases k,
{
    if k == 0 {
        Seq::empty()
    } else {
        expert_rows(gate, up, ex, (k - 1) as nat) + gate.row(ex, k - 1) + up.row(ex, k - 1)
    }
}

/// The rows of the first `n` experts.
pub open spec fn interleaved(gate: HostExps, up: HostExps, n: nat) -> Seq<u8>
    decreases n,
{
    if n == 0 {
        Seq::empty()
    } else {
        interleaved(gate, up, (n - 1) as nat) + expert_rows(
            gate,
            up,
            n - 1,
            gate.out_f as nat,
        )
    }
}

/// Interleaves gate and up rows, expert by expert.
pub fn interleave(gate: &HostExps, up: &HostExps) -> (r: Vec<u8>)
    requires
        gate.whole(),
        up.whole(),
        gate.out_f == up.out_f,
        gate.n_expert <= up.n_expert,
    ensures
        r@ == interleaved(*gate, *up, gate.n_expert as nat),
{
    let n_rows = gate.out_f;
    let mut out: Vec<u8> = Vec::new();
    let mut ex: usize = 0;
    while ex < gate.n_expert
        invariant
            ex <= gate.n_expert,
            gate.whole(),
            up.whole(),
            n_rows == gate.out_f,
            n_rows == up.out_f,
            gate.n_expert <= up.n_expert,
            out@ == interleaved(*gate, *up, ex as nat),
        decreases gate.n_expert - ex,
    {
        let ghost before = out@;
        let mut o: usize = 0;
        assert(out@ =~= before + expert_rows(*gate, *up, ex as int, 0));
        while o < n_rows
            invariant
                o <= n_rows,
                ex < gate.n_expert,
                gate.whole(),
                up.whole(),
                n_rows == gate.out_f,
                n_rows == up.out_f,
                gate.n_expert <= up.n_expert,
                before == interleaved(*gate, *up, ex as nat),
                out@ == before + expert_rows(*gate, *up, ex as int, o as nat),
            decreases n_rows - o,
        {
            push_row(&mut out, gate, ex, o);
            push_row(&mut out, up, ex, o);
            assert(out@ =~= before + expert_rows(*gate, *up, ex as int, (o + 1) as nat));
            o += 1;
        }
        ex += 1;
    }
    out
}

fn push_row(out: &mut Vec<u8>, e: &HostExps, ex: usize, o: usize)
    requires
        e.whole(),
        ex < e.n_expert,
        o < e.out_f,
    ensures
        final(out)@ == old(out)@ + e.row(ex as int, o as int),
{
    let len = e.bytes.len();
    assert(e.row_at(ex as int, o as int) + e.row_bytes <= e.bytes@.len());
    assert(0 <= ex * e.expert_stride && 0 <= o * e.row_bytes) by (nonlinear_arith)
        requires
            0 <= ex,
            0 <= o,
            0 <= e.expert_stride,
            0 <= e.row_bytes,
    ;
    let at: usize = ex * e.expert_stride + o * e.row_bytes;
    out.extend_from_slice(slice_subrange(e.bytes, at, at + e.row_bytes));
}

proof fn lemma_expert_rows_len(gate: HostExps, up: HostExps, ex: int, k: nat)
    requires
        gate.whole(),
        up.whole(),
        0 <= ex < gate.n_expert,
        gate.n_expert <= up.n_expert,
        k <= gate.out_f,
        gate.out_f == up.out_f,
    ensures
        expert_rows(gate, up, ex, k).len() == k * (gate.row_bytes + up.row_bytes),
    decreases k,
{
    if k > 0 {
        lemma_expert_rows_len(gate, up, ex, (k - 1) as nat);
        lemma_row_len(gate, ex, k - 1);
        lemma_row_len(up, ex, k - 1);
        assert((k - 1) * (gate.row_bytes + up.row_bytes) + (gate.row_bytes + up.row_bytes) == k * (
        gate.row_bytes + up.row_bytes)) by (nonlinear_arith);
    } else {
        assert(0 * (gate.row_bytes + up.row_bytes) == 0);
    }
}

proof fn lemma_row_len(e: HostExps, ex: int, o: int)
    requires
        e.whole(),
        0 <= ex < e.n_expert,
        0 <= o < e.out_f,
    ensures
        e.row(ex, o).len() == e.row_bytes,
{
    assert(e.row_at(ex, o) + e.row_bytes <= e.bytes@.len());
    assert(0 <= ex * e.expert_stride && 0 <= o * e.row_bytes) by (nonlinear_arith)
        requires
            0 <= ex,
            0 <= o,
            0 <= e.expert_stride,
            0 <= e.row_bytes,
    ;
}

proof fn lemma_interleaved_len(gate: HostExps, up: HostExps, n: nat)
    requires
        gate.whole(),
        up.whole(),
        n <= gate.n_expert,
        gate.n_expert <= up.n_expert,
        gate.out_f == up.out_f,
    ensures
        interleaved(gate, up, n).len() == n * (gate.out_f * (gate.row_bytes + up.row_bytes)),
    decreases n,
{
    let w = gate.out_f * (gate.row_bytes + up.row_bytes);
    if n > 0 {
        lemma_interleaved_len(gate, up, (n - 1) as nat);
        lemma_expert_rows_len(gate, up, n - 1, gate.out_f as nat);
        assert((n - 1) * w + w == n * w) by (nonlinear_arith);
    } else {
        assert(0 * w == 0);
    }
}

proof fn lemma_row_in_expert(gate: HostExps, up: HostExps, ex: int, k: nat, o: int)
    requires
        gate.whole(),
        up.whole(),
        0 <= ex < gate.n_expert,
        gate.n_expert <= up.n_expert,
        0 <= o < k <= gate.out_f,
        gate.out_f == up.out_f,
    ensures
        ({
            let w = gate.row_bytes + up.row_bytes;
            let rows = expert_rows(gate, up, ex, k);
            &&& 0 <= o * w && o * w + w <= rows.len()
            &&& rows.subrange(o * w, o * w + gate.row_bytes) == gate.row(ex, o)
            &&& rows.subrange(o * w + gate.row_bytes, o * w + w) == up.row(ex, o)
        }),
    decreases k,
{
    let w = gate.row_bytes + up.row_bytes;
    let rows = expert_rows(gate, up, ex, k);
    lemma_expert_rows_len(gate, up, ex, k);
    lemma_expert_rows_len(gate, up, ex, (k - 1) as nat);
    lemma_row_len(gate, ex, k - 1);
    lemma_row_len(up, ex, k - 1);
    assert(0 <= o * w && o * w + w <= k * w) by (nonlinear_arith)
        requires
            0 <= o < k,
            0 <= w,
    ;
    let before = expert_rows(gate, up, ex, (k - 1) as nat);
    if o == k - 1 {
        assert(rows.subrange(o * w, o * w + gate.row_bytes) =~= gate.row(ex, o));
        assert(rows.subrange(o * w + gate.row_bytes, o * w + w) =~= up.row(ex, o));
    } else {
        lemma_row_in_expert(gate, up, ex, (k - 1) as nat, o);
        assert(rows.subrange(o * w, o * w + gate.row_bytes) =~= before.subrange(
            o * w,
            o * w + gate.row_bytes,
        ));
        assert(rows.subrange(o * w + gate.row_bytes, o * w + w) =~= before.subrange(
            o * w + gate.row_bytes,
            o * w + w,
        ));
    }
}

/// Offset of expert `ex` in the interleaved rows, and in the rows as they are.
pub open spec fn gate_offset(gate: HostExps, up: HostExps, il: bool, ex: int) -> int {
    if il {
        ex * (gate.out_f * (gate.row_bytes + up.row_bytes))
    } else {
        ex * gate.expert_stride
    }
}

/// With both projections' row width as the stride, expert `ex`'s gate offset leads to each of its
/// gate rows, and that plus a gate row's width to each of its up rows.
pub proof fn law_interleaved_rows(gate: HostExps, up: HostExps, n: nat, ex: int, o: int)
    requires
        gate.whole(),
        up.whole(),
        gate.n_expert <= up.n_expert,
        gate.out_f == up.out_f,
        0 <= ex < n <= gate.n_expert,
        0 <= o < gate.out_f,
    ensures
        ({
            let w = gate.row_bytes + up.row_bytes;
            let at = gate_offset(gate, up, true, ex) + o * w;
            let all = interleaved(gate, up, n);
            &&& 0 <= at && at + w <= all.len()
            &&& all.subrange(at, at + gate.row_bytes) == gate.row(ex, o)
            &&& all.subrange(at + gate.row_bytes, at + w) == up.row(ex, o)
        }),
    decreases n,
{
    let w = gate.row_bytes + up.row_bytes;
    let ew = gate.out_f * w;
    let at = ex * ew + o * w;
    let all = interleaved(gate, up, n);
    let before = interleaved(gate, up, (n - 1) as nat);
    lemma_interleaved_len(gate, up, n);
    lemma_interleaved_len(gate, up, (n - 1) as nat);
    assert(0 <= o * w && o * w + w <= ew) by (nonlinear_arith)
        requires
            0 <= o < gate.out_f,
            ew == gate.out_f * w,
            0 <= w,
    ;
    assert(0 <= ex * ew && ex * ew + ew <= n * ew) by (nonlinear_arith)
        requires
            0 <= ex < n,
            0 <= ew,
    ;
    if ex == n - 1 {
        let rows = expert_rows(gate, up, ex, gate.out_f as nat);
        lemma_row_in_expert(gate, up, ex, gate.out_f as nat, o);
        lemma_expert_rows_len(gate, up, ex, gate.out_f as nat);
        assert(all.subrange(at, at + gate.row_bytes) =~= rows.subrange(
            o * w,
            o * w + gate.row_bytes,
        ));
        assert(all.subrange(at + gate.row_bytes, at + w) =~= rows.subrange(
            o * w + gate.row_bytes,
            o * w + w,
        ));
    } else {
        law_interleaved_rows(gate, up, (n - 1) as nat, ex, o);
        assert(ex * ew + ew <= (n - 1) * ew) by (nonlinear_arith)
            requires
                0 <= ex < n - 1,
                0 <= ew,
        ;
        assert(all.subrange(at, at + gate.row_bytes) =~= before.subrange(at, at + gate.row_bytes));
        assert(all.subrange(at + gate.row_bytes, at + w) =~= before.subrange(
            at + gate.row_bytes,
            at + w,
        ));
    }
}

/// Device addresses of the three slabs; `up` is not used where gate and up are interleaved.
#[derive(Clone, Copy, Debug, PartialEq, Eq, Structural)]
pub struct SlabPtrs {
    pub gate: u64,
    pub up: u64,
    pub down: u64,
}

/// Offset of expert `ex`'s up rows from the slab that holds them.
pub open spec fn up_offset(gate: HostExps, up: HostExps, il: bool, ex: int) -> int {
    if il {
        gate_offset(gate, up, true, ex) + gate.row_bytes
    } else {
        ex * up.expert_stride
    }
}

/// Where the kernels find the experts: all gate addresses, all up addresses, all down addresses.
pub open spec fn pointer_row(
    gate: HostExps,
    up: HostExps,
    down: HostExps,
    p: SlabPtrs,
    il: bool,
) -> Seq<u64> {
    let n = gate.n_expert as nat;
    Seq::new(n, |ex: int| (p.gate + gate_offset(gate, up, il, ex)) as u64) + Seq::new(
        n,
        |ex: int|
            ((if il {
                p.gate
            } else {
                p.up
            }) + up_offset(gate, up, il, ex)) as u64,
    ) + Seq::new(n, |ex: int| (p.down + ex * down.expert_stride) as u64)
}

/// All addresses fit.
pub open spec fn pointers_fit(
    gate: HostExps,
    up: HostExps,
    down: HostExps,
    p: SlabPtrs,
    il: bool,
) -> bool {
    let n = gate.n_expert as int;
    let w = gate.out_f * (gate.row_bytes + up.row_bytes);
    &&& if il {
        &&& gate.row_bytes + up.row_bytes <= usize::MAX
        &&& w <= usize::MAX
        &&& n * w + gate.row_bytes <= usize::MAX
        &&& p.gate + n * w + gate.row_bytes <= u64::MAX
    } else {
        &&& n * gate.expert_stride <= usize::MAX
        &&& n * up.expert_stride <= usize::MAX
        &&& p.gate + n * gate.expert_stride <= u64::MAX
        &&& p.up + n * up.expert_stride <= u64::MAX
    }
    &&& n * down.expert_stride <= usize::MAX
    &&& p.down + n * down.expert_stride <= u64::MAX
}

fn scaled(base: u64, stride: usize, extra: usize, n: usize) -> (r: Vec<u64>)
    requires
        n * stride + extra <= usize::MAX,
        base + n * stride + extra <= u64::MAX,
    ensures
        r@ == Seq::new(n as nat, |ex: int| (base + (ex * stride + extra)) as u64),
{
    let mut out: Vec<u64> = Vec::new();
    let mut ex: usize = 0;
    let ghost want = Seq::new(n as nat, |ex: int| (base + (ex * stride + extra)) as u64);
    while ex < n
        invariant
            ex <= n,
            n * stride + extra <= usize::MAX,
            base + n * stride + extra <= u64::MAX,
            want == Seq::new(n as nat, |ex: int| (base + (ex * stride + extra)) as u64),
            out@ == want.take(ex as int),
        decreases n - ex,
    {
        assert(0 <= ex * stride <= n * stride) by (nonlinear_arith)
            requires
                0 <= ex <= n,
                0 <= stride,
        ;
        out.push(base + (ex * stride + extra) as u64);
        assert(out@ =~= want.take(ex + 1));
        ex += 1;
    }
    assert(want.take(n as int) =~= want);
    out
}

/// Builds the addresses that the kernels read.
pub fn expert_pointers(
    gate: &HostExps,
    up: &HostExps,
    down: &HostExps,
    p: SlabPtrs,
    il: bool,
) -> (r: Vec<u64>)
    requires
        pointers_fit(*gate, *up, *down, p, il),
    ensures
        r@ == pointer_row(*gate, *up, *down, p, il),
{
    let n = gate.n_expert;
    let (mut a, mut b) = if il {
        let w: usize = gate.out_f * (gate.row_bytes + up.row_bytes);
        (scaled(p.gate, w, 0, n), scaled(p.gate, w, gate.row_bytes, n))
    } else {
        (scaled(p.gate, gate.expert_stride, 0, n), scaled(p.up, up.expert_stride, 0, n))
    };
    let mut c = scaled(p.down, down.expert_stride, 0, n);
    assert(a@ =~= Seq::new(n as nat, |ex: int| (p.gate + gate_offset(*gate, *up, il, ex)) as u64));
    assert(b@ =~= Seq::new(
        n as nat,
        |ex: int|
            ((if il {
                p.gate
            } else {
                p.up
            }) + up_offset(*gate, *up, il, ex)) as u64,
    ));
    assert(c@ =~= Seq::new(n as nat, |ex: int| (p.down + ex * down.expert_stride) as u64));
    a.append(&mut b);
    a.append(&mut c);
    a
}

/// Each address leads to what it is listed for. An expert's rows lie one stride apart from there:
/// apart, each projection's own rows in its own slab; together, a gate row and then an up row in
/// the slab that holds both. Down rows are never mixed.
pub proof fn law_pointers_lead_to_rows(
    gate: HostExps,
    up: HostExps,
    down: HostExps,
    p: SlabPtrs,
    il: bool,
    ex: int,
    o: int,
)
    requires
        gate.whole(),
        up.whole(),
        pointers_fit(gate, up, down, p, il),
        gate.n_expert <= up.n_expert,
        gate.out_f == up.out_f,
        0 <= ex < gate.n_expert,
        0 <= o < gate.out_f,
    ensures
        ({
            let n = gate.n_expert as int;
            let t = pointer_row(gate, up, down, p, il);
            &&& t.len() == 3 * n
            &&& !il ==> t[ex] - p.gate + o * gate.row_bytes == gate.row_at(ex, o)
            &&& !il ==> t[n + ex] - p.up + o * up.row_bytes == up.row_at(ex, o)
            &&& il ==> {
                let all = interleaved(gate, up, gate.n_expert as nat);
                let stride = gate.row_bytes + up.row_bytes;
                let g = t[ex] - p.gate + o * stride;
                let u = t[n + ex] - p.gate + o * stride;
                &&& 0 <= g && g + gate.row_bytes <= all.len()
                &&& 0 <= u && u + up.row_bytes <= all.len()
                &&& all.subrange(g, g + gate.row_bytes) == gate.row(ex, o)
                &&& all.subrange(u, u + up.row_bytes) == up.row(ex, o)
            }
            &&& t[2 * n + ex] - p.down + o * down.row_bytes == down.row_at(ex, o)
        }),
{
    let n = gate.n_expert as int;
    let w = gate.out_f * (gate.row_bytes + up.row_bytes);
    assert(0 <= ex * gate.expert_stride <= n * gate.expert_stride) by (nonlinear_arith)
        requires
            0 <= ex < n,
    ;
    assert(0 <= ex * up.expert_stride <= n * up.expert_stride) by (nonlinear_arith)
        requires
            0 <= ex < n,
    ;
    assert(0 <= ex * down.expert_stride <= n * down.expert_stride) by (nonlinear_arith)
        requires
            0 <= ex < n,
    ;
    assert(0 <= w) by (nonlinear_arith)
        requires
            w == gate.out_f * (gate.row_bytes + up.row_bytes),
    ;
    assert(0 <= ex * w <= n * w) by (nonlinear_arith)
        requires
            0 <= ex < n,
            0 <= w,
    ;
    if il {
        law_interleaved_rows(gate, up, gate.n_expert as nat, ex, o);
    }
}

} // verus!
