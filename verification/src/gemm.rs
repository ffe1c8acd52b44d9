//! Matrix products at prompt time: which kernels may serve a weight, and the buffers they need.

use vstd::prelude::*;
use vstd::string::*;

use crate::floats;
use crate::qtype::{GgmlType, QT_Q4_0, QT_Q8_0};
use crate::settings;
use crate::text;

verus! {

/// Whether half-precision mirrors are used: as set, and otherwise on the hardware that has room
/// for them.
pub fn pp_f16_enabled(setting: Option<&str>, hopper: bool) -> (r: bool)
    ensures
        r == (settings::says(setting, '1') || (!settings::says(setting, '0') && hopper)),
{
    if settings::setting_is(setting, '1') {
        true
    } else if settings::setting_is(setting, '0') {
        false
    } else {
        hopper
    }
}

/// Whether 8-bit floats are used at prompt time: only when set.
pub fn pp_fp8_enabled(setting: Option<&str>) -> (r: bool)
    ensures
        r == settings::says(setting, '1'),
{
    settings::setting_is(setting, '1')
}

/// Whether 8-bit floats are loaded as they are: only when set.
pub fn st_e4m3_enabled(setting: Option<&str>) -> (r: bool)
    ensures
        r == settings::says(setting, '1'),
{
    settings::setting_is(setting, '1')
}

/// What has to be done to a scratch buffer before a launch.
#[derive(Clone, Copy, Debug, PartialEq, Eq, Structural)]
pub enum Grow {
    Keep,
    /// Build it, and the workspace beside it.
    Build { bytes: usize },
    /// Replace it by a larger one.
    Replace { bytes: usize },
}

/// Bytes of the workspace beside a scratch buffer.
pub const WS_BYTES: usize = 0x400_0000;

/// A scratch buffer that is built on first use and grows to the largest need.
#[derive(Clone, Copy, Debug, PartialEq, Eq, Structural)]
pub struct Scratch {
    /// Its bytes, once it is built.
    pub cap: Option<usize>,
}

/// What makes room for `need` bytes in a buffer of `cap`.
pub open spec fn grow_for(cap: Option<usize>, need: usize) -> Grow {
    match cap {
        None => Grow::Build { bytes: need },
        Some(c) => if need > c {
            Grow::Replace { bytes: need }
        } else {
            Grow::Keep
        },
    }
}

/// The buffer's bytes afterwards: it never shrinks.
pub open spec fn cap_after(cap: Option<usize>, need: usize) -> usize {
    match cap {
        Some(c) if c >= need => c,
        _ => need,
    }
}

/// Bytes of a scratch buffer that is only built for the workspace beside it.
pub const MIN_SCRATCH: usize = 2;

impl Scratch {
    /// Not built yet.
    pub fn empty() -> (r: Scratch)
        ensures
            r.cap is None,
    {
        Scratch { cap: None }
    }

    /// Built with `bytes` bytes.
    pub fn with_capacity(bytes: usize) -> (r: Scratch)
        ensures
            r.cap == Some(bytes),
    {
        Scratch { cap: Some(bytes) }
    }

    /// Makes room for `need` bytes.
    pub fn reserve(&mut self, need: usize) -> (r: Grow)
        ensures
            r == grow_for(old(self).cap, need),
            final(self).cap == Some(cap_after(old(self).cap, need)),
    {
        match self.cap {
            None => {
                self.cap = Some(need);
                Grow::Build { bytes: need }
            },
            Some(c) => if need > c {
                self.cap = Some(need);
                Grow::Replace { bytes: need }
            } else {
                Grow::Keep
            },
        }
    }

    /// Makes sure that there is a workspace, for rows that bring their own buffer: a scratch buffer
    /// that is there stays as it is.
    pub fn ensure_built(&mut self) -> (r: Grow)
        ensures
            old(self).cap is None ==> r == (Grow::Build { bytes: MIN_SCRATCH }) && final(self).cap
                == Some(MIN_SCRATCH),
            old(self).cap is Some ==> r == Grow::Keep && *final(self) == *old(self),
    {
        if self.cap.is_none() {
            self.cap = Some(MIN_SCRATCH);
            Grow::Build { bytes: MIN_SCRATCH }
        } else {
            Grow::Keep
        }
    }
}

/// The two-dimensional quantized weight of a product, as the host sees it.
#[derive(Clone, Copy, Debug, PartialEq, Eq, Structural)]
pub struct MmWeight {
    pub in_f: usize,
    pub out_f: usize,
    /// It has a half-precision mirror.
    pub mirror: bool,
    /// Bits of the macro scale, a 32-bit float.
    pub scale: u32,
}

/// A product on a half-precision mirror.
#[derive(Clone, Copy, Debug, PartialEq, Eq, Structural)]
pub struct F16Plan {
    pub m: usize,
    pub n: usize,
    pub k: usize,
    /// Elements of the result to multiply by the macro scale afterwards, if any.
    pub rescale: Option<usize>,
}

/// A product of `m` rows with `w`.
pub open spec fn f16_plan(w: MmWeight, m: usize) -> F16Plan {
    F16Plan {
        m,
        n: w.out_f,
        k: w.in_f,
        rescale: if w.scale != floats::ONE {
            Some((m * w.out_f) as usize)
        } else {
            None
        },
    }
}

/// Plans the product of `m` rows with a weight on its half-precision mirror; none where it has no
/// mirror.
pub fn try_f16_gemm_pre(w: &MmWeight, m: usize) -> (r: Option<F16Plan>)
    requires
        m * w.out_f <= usize::MAX,
    ensures
        r == (if w.mirror {
            Some(f16_plan(*w, m))
        } else {
            None
        }),
{
    if !w.mirror {
        return None;
    }
    let rescale = if w.scale != floats::ONE {
        Some(m * w.out_f)
    } else {
        None
    };
    Some(F16Plan { m, n: w.out_f, k: w.in_f, rescale })
}

/// The same, and the bytes that the activation needs as half-precision numbers.
pub fn try_f16_gemm(w: &MmWeight, m: usize, scratch: &mut Scratch) -> (r: Option<(F16Plan, Grow)>)
    requires
        m * w.out_f <= usize::MAX,
        m * w.in_f * 2 <= usize::MAX,
    ensures
        !w.mirror ==> r is None && *final(scratch) == *old(scratch),
        w.mirror ==> {
            let need = (m * w.in_f * 2) as usize;
            &&& r == Some((f16_plan(*w, m), grow_for(old(scratch).cap, need)))
            &&& final(scratch).cap == Some(cap_after(old(scratch).cap, need))
        },
{
    match try_f16_gemm_pre(w, m) {
        Some(p) => {
            assert(m * w.in_f <= m * w.in_f * 2) by (nonlinear_arith)
                requires
                    0 <= m,
                    0 <= w.in_f,
            ;
            let g = scratch.reserve(m * w.in_f * 2);
            Some((p, g))
        },
        None => None,
    }
}

/// Plans the product into a buffer of `y_len` elements, from element `off` on; none where the
/// weight has no mirror, or a macro scale that would have to be applied to a part of the buffer.
pub fn try_f16_gemm_pre_into_off(w: &MmWeight, m: usize, y_len: usize, off: usize) -> (r: Option<
    F16Plan,
>)
    requires
        w.mirror ==> off + m * w.out_f <= y_len,
    ensures
        r == (if w.mirror && w.scale == floats::ONE {
            Some(f16_plan(*w, m))
        } else {
            None
        }),
{
    if !w.mirror || w.scale != floats::ONE {
        return None;
    }
    Some(F16Plan { m, n: w.out_f, k: w.in_f, rescale: None })
}

/// Plans the product into a buffer of `y_len` elements; none where the weight has no mirror.
pub fn try_f16_gemm_pre_into(w: &MmWeight, m: usize, y_len: usize) -> (r: Option<F16Plan>)
    requires
        w.mirror ==> m * w.out_f <= y_len,
        m * w.out_f <= usize::MAX,
    ensures
        r == (if w.mirror {
            Some(f16_plan(*w, m))
        } else {
            None
        }),
{
    try_f16_gemm_pre(w, m)
}

/// Where the 8-bit operand of a product comes from.
#[derive(Clone, Copy, Debug, PartialEq, Eq, Structural)]
pub enum Fp8Operand {
    /// The weight's own bytes.
    Resident,
    /// A copy that is kept beside the weight.
    Stash,
}

/// The 8-bit operand of a weight, if it has one: its own bytes where that is its format, the copy
/// beside it where that is switched on.
pub fn fp8_operand(portable: bool, e4m3: bool, stash: bool, pp_fp8: bool) -> (r: Option<Fp8Operand>)
    ensures
        r == (if portable {
            None
        } else if e4m3 {
            Some(Fp8Operand::Resident)
        } else if stash && pp_fp8 {
            Some(Fp8Operand::Stash)
        } else {
            None
        }),
{
    if portable {
        None
    } else if e4m3 {
        Some(Fp8Operand::Resident)
    } else if stash && pp_fp8 {
        Some(Fp8Operand::Stash)
    } else {
        None
    }
}

/// A product on an 8-bit operand.
#[derive(Clone, Copy, Debug, PartialEq, Eq, Structural)]
pub struct Fp8Plan {
    pub operand: Fp8Operand,
    pub m: usize,
    pub n: usize,
    pub k: usize,
    pub grow: Grow,
}

/// Plans the product of `m` rows with a weight on its 8-bit operand; none where it has none. The
/// activation takes one byte per element.
pub fn try_fp8_gemm(
    operand: Option<Fp8Operand>,
    in_f: usize,
    out_f: usize,
    m: usize,
    scratch: &mut Scratch,
) -> (r: Option<Fp8Plan>)
    requires
        m * in_f <= usize::MAX,
    ensures
        match operand {
            None => r is None && *final(scratch) == *old(scratch),
            Some(o) => {
                &&& r == Some(
                    Fp8Plan {
                        operand: o,
                        m,
                        n: out_f,
                        k: in_f,
                        grow: grow_for(old(scratch).cap, (m * in_f) as usize),
                    },
                )
                &&& final(scratch).cap == Some(cap_after(old(scratch).cap, (m * in_f) as usize))
            },
        },
{
    match operand {
        None => None,
        Some(operand) => {
            let grow = scratch.reserve(m * in_f);
            Some(Fp8Plan { operand, m, n: out_f, k: in_f, grow })
        },
    }
}

/// A weight that may get a half-precision mirror.
#[derive(Clone, Copy, Debug, PartialEq, Eq, Structural)]
pub struct MirrorCandidate {
    pub qtype: i32,
    /// Number of dimensions.
    pub dims: usize,
    pub in_f: usize,
    pub out_f: usize,
    pub row_bytes: usize,
    /// It has a mirror already.
    pub mirror: bool,
}

/// Bytes of a block of 32 elements in the two formats that can be mirrored.
pub open spec fn mirror_block(qtype: i32) -> int {
    if qtype == QT_Q4_0 {
        18
    } else {
        34
    }
}

/// The weight can be mirrored: two dimensions, one of the two formats, whole rows.
pub open spec fn mirrors(t: MirrorCandidate) -> bool {
    &&& t.qtype == QT_Q8_0 || t.qtype == QT_Q4_0
    &&& !t.mirror
    &&& t.dims == 2
    &&& t.in_f as int % 32 == 0
    &&& t.row_bytes == (t.in_f as int / 32) * mirror_block(t.qtype)
}

/// Memory for mirrors, given to the weights in the order in which they ask.
#[derive(Clone, Copy, Debug, PartialEq, Eq, Structural)]
pub struct MirrorBudget {
    pub spent: usize,
    pub budget: usize,
}

impl MirrorBudget {
    /// No more is spent than there is.
    pub open spec fn wf(&self) -> bool {
        self.spent <= self.budget
    }

    /// Decides whether a weight gets a mirror, and charges for it.
    pub fn build_q8_f16(&mut self, t: &MirrorCandidate) -> (r: bool)
        requires
            old(self).wf(),
        ensures
            r == (mirrors(*t) && old(self).spent + t.out_f * t.in_f * 2 <= old(self).budget),
            final(self).budget == old(self).budget,
            final(self).spent == (if r {
                old(self).spent + t.out_f * t.in_f * 2
            } else {
                old(self).spent as int
            }),
            final(self).wf(),
    {
        let q4 = t.qtype == QT_Q4_0;
        if (t.qtype != QT_Q8_0 && !q4) || t.mirror || t.dims != 2 || t.in_f % 32 != 0 {
            return false;
        }
        let per_block: usize = if q4 {
            18
        } else {
            34
        };
        let whole = match (t.in_f / 32).checked_mul(per_block) {
            Some(n) => n == t.row_bytes,
            None => false,
        };
        if !whole {
            return false;
        }
        let size = match t.out_f.checked_mul(t.in_f) {
            Some(n) => match n.checked_mul(2) {
                Some(b) => b,
                None => {
                    return false;
                },
            },
            None => {
                assert(t.out_f * t.in_f * 2 > usize::MAX) by (nonlinear_arith)
                    requires
                        t.out_f * t.in_f > usize::MAX,
                ;
                return false;
            },
        };
        if size > self.budget - self.spent {
            return false;
        }
        self.spent = self.spent + size;
        true
    }
}

/// The mirrors' memory in bytes: the setting in units of a mebibyte, 32768 of them where it is
/// absent or no number; a product that does not fit loses its high bits.
pub fn mirror_budget_bytes(setting: Option<&[char]>) -> (r: u64)
    ensures
        r == (match setting {
            Some(s) => match text::unsigned(s@, u64::MAX as nat) {
                Some(v) => (v * 0x10_0000) % 0x1_0000_0000_0000_0000,
                None => 32768 * 0x10_0000,
            },
            None => 32768 * 0x10_0000,
        }),
{
    let mb: u64 = match setting {
        Some(s) => match text::parse_unsigned(s, u64::MAX) {
            Some(v) => v,
            None => 32768,
        },
        None => 32768,
    };
    mb.wrapping_mul(0x10_0000)
}

/// Buffers of a weight in the 4-bit kernel's layout: packed elements, and one scale per sixteen.
pub fn fp4_operand_bytes(rows: usize, k: usize) -> (r: (usize, usize))
    requires
        rows * k <= usize::MAX,
    ensures
        r.0 == rows * k / 2,
        r.1 == rows * (k as int / 16),
{
    assert(rows * (k as int / 16) <= rows * k) by (nonlinear_arith)
        requires
            0 <= rows,
            0 <= k,
    ;
    (rows * k / 2, rows * (k / 16))
}

/// Bytes to allocate for a workspace; an empty one still gets a byte.
pub fn fp4_workspace(bytes: usize) -> (r: usize)
    ensures
        r == (if bytes == 0 {
            1
        } else {
            bytes
        }),
{
    if bytes == 0 {
        1
    } else {
        bytes
    }
}

/// After a need was met, the buffer has room for it, is no smaller than before, and is no larger
/// than both call for; it is only touched where it had no room.
pub proof fn law_scratch_has_room(cap: Option<usize>, need: usize)
    ensures
        cap_after(cap, need) >= need,
        cap matches Some(c) ==> cap_after(cap, need) >= c,
        cap_after(cap, need) == need || cap == Some(cap_after(cap, need)),
        grow_for(cap, need) == Grow::Keep <==> (cap matches Some(c) && c >= need),
        grow_for(cap, need) is Build <==> cap is None,
        grow_for(cap, need) matches Grow::Build { bytes } ==> bytes == cap_after(cap, need),
        grow_for(cap, need) matches Grow::Replace { bytes } ==> bytes == cap_after(cap, need),
{
}

/// The same needs in either order leave the same buffer, and a need that was met once is met.
pub proof fn law_scratch_needs_commute(cap: Option<usize>, a: usize, b: usize)
    ensures
        cap_after(Some(cap_after(cap, a)), b) == cap_after(Some(cap_after(cap, b)), a),
        grow_for(Some(cap_after(cap, a)), a) == Grow::Keep,
{
}

/// A product takes `m` rows as wide as the weight's input to `m` rows as wide as its output, and
/// a macro scale is applied to all of them or, where it is one, to none.
pub proof fn law_f16_plan(w: MmWeight, m: usize)
    requires
        m * w.out_f <= usize::MAX,
    ensures
        f16_plan(w, m).m * f16_plan(w, m).k == m * w.in_f,
        f16_plan(w, m).m * f16_plan(w, m).n == m * w.out_f,
        f16_plan(w, m).m == m,
        f16_plan(w, m).rescale is None <==> w.scale == floats::ONE,
        f16_plan(w, m).rescale matches Some(n) ==> n == f16_plan(w, m).m * f16_plan(w, m).n,
{
}

/// A weight that is mirrored has rows of whole blocks of its format.
pub proof fn law_mirrored_rows(t: MirrorCandidate, ty: GgmlType)
    requires
        mirrors(t),
        t.qtype == ty.code(),
    ensures
        ty == GgmlType::Q8_0 || ty == GgmlType::Q4_0,
        t.in_f as int % ty.block() as int == 0,
        t.row_bytes == t.in_f as int / ty.block() as int * ty.size(),
        !t.mirror && t.dims == 2,
{
}

} // verus!
