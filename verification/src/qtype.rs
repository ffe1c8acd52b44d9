//! Quantization formats: their codes, and how their blocks are laid out.

use vstd::prelude::*;

verus! {

pub const QT_Q8_0: i32 = 0;

pub const QT_Q4_K: i32 = 1;

pub const QT_Q6_K: i32 = 2;

pub const QT_Q5_K: i32 = 3;

pub const QT_Q3_K: i32 = 4;

pub const QT_IQ4_XS: i32 = 5;

pub const QT_IQ3_S: i32 = 6;

pub const QT_NVFP4: i32 = 7;

pub const QT_F32: i32 = 8;

pub const QT_BF16: i32 = 11;

pub const QT_Q4_0: i32 = 12;

pub const QT_Q2_K: i32 = 13;

/// A tensor format.
#[allow(non_camel_case_types)]
#[derive(Clone, Copy, Debug, PartialEq, Eq, Structural)]
pub enum GgmlType {
    F32,
    BF16,
    Q8_0,
    Q4_0,
    Q2_K,
    Q3_K,
    Q4_K,
    Q5_K,
    Q6_K,
    IQ3_S,
    IQ4_XS,
    NVFP4,
}

impl GgmlType {
    /// Elements of a block.
    pub open spec fn block(&self) -> nat {
        match *self {
            GgmlType::F32 | GgmlType::BF16 => 1,
            GgmlType::Q8_0 | GgmlType::Q4_0 => 32,
            GgmlType::NVFP4 => 64,
            _ => 256,
        }
    }

    /// Bytes of a block.
    pub open spec fn size(&self) -> nat {
        match *self {
            GgmlType::F32 => 4,
            GgmlType::BF16 => 2,
            GgmlType::Q8_0 => 34,
            GgmlType::Q4_0 => 18,
            GgmlType::Q2_K => 84,
            GgmlType::Q3_K => 110,
            GgmlType::Q4_K => 144,
            GgmlType::Q5_K => 176,
            GgmlType::Q6_K => 210,
            GgmlType::IQ3_S => 110,
            GgmlType::IQ4_XS => 136,
            GgmlType::NVFP4 => 36,
        }
    }

    /// The format's code.
    pub open spec fn code(&self) -> i32 {
        match *self {
            GgmlType::Q8_0 => QT_Q8_0,
            GgmlType::Q4_K => QT_Q4_K,
            GgmlType::Q6_K => QT_Q6_K,
            GgmlType::Q5_K => QT_Q5_K,
            GgmlType::Q3_K => QT_Q3_K,
            GgmlType::IQ4_XS => QT_IQ4_XS,
            GgmlType::IQ3_S => QT_IQ3_S,
            GgmlType::NVFP4 => QT_NVFP4,
            GgmlType::F32 => QT_F32,
            GgmlType::BF16 => QT_BF16,
            GgmlType::Q4_0 => QT_Q4_0,
            GgmlType::Q2_K => QT_Q2_K,
        }
    }

    /// Elements and bytes of a block.
    pub fn block_and_type_size(&self) -> (r: (usize, usize))
        ensures
            r.0 == self.block(),
            r.1 == self.size(),
            r.0 > 0,
    {
        match *self {
            GgmlType::F32 => (1, 4),
            GgmlType::BF16 => (1, 2),
            GgmlType::Q8_0 => (32, 34),
            GgmlType::Q4_0 => (32, 18),
            GgmlType::Q2_K => (256, 84),
            GgmlType::Q3_K => (256, 110),
            GgmlType::Q4_K => (256, 144),
            GgmlType::Q5_K => (256, 176),
            GgmlType::Q6_K => (256, 210),
            GgmlType::IQ3_S => (256, 110),
            GgmlType::IQ4_XS => (256, 136),
            GgmlType::NVFP4 => (64, 36),
        }
    }

    /// The format's code.
    pub fn qtype(&self) -> (r: i32)
        ensures
            r == self.code(),
    {
        match *self {
            GgmlType::Q8_0 => QT_Q8_0,
            GgmlType::Q4_K => QT_Q4_K,
            GgmlType::Q6_K => QT_Q6_K,
            GgmlType::Q5_K => QT_Q5_K,
            GgmlType::Q3_K => QT_Q3_K,
            GgmlType::IQ4_XS => QT_IQ4_XS,
            GgmlType::IQ3_S => QT_IQ3_S,
            GgmlType::NVFP4 => QT_NVFP4,
            GgmlType::F32 => QT_F32,
            GgmlType::BF16 => QT_BF16,
            GgmlType::Q4_0 => QT_Q4_0,
            GgmlType::Q2_K => QT_Q2_K,
        }
    }
}

/// Different formats have different codes.
pub proof fn law_codes_are_distinct(a: GgmlType, b: GgmlType)
    requires
        a.code() == b.code(),
    ensures
        a == b,
{
}

/// A block holds its weights at the bits that the format's name gives, and beside them its scales
/// and minima: one half-precision scale in the plain formats, packed block scales and one or two
/// half-precision numbers in the others.
pub proof fn law_block_bytes(t: GgmlType)
    ensures
        t == GgmlType::F32 ==> 8 * t.size() == 32 * t.block(),
        t == GgmlType::BF16 ==> 8 * t.size() == 16 * t.block(),
        t == GgmlType::Q8_0 ==> 8 * (t.size() - 2) == 8 * t.block() && t.block() == 32,
        t == GgmlType::Q4_0 ==> 8 * (t.size() - 2) == 4 * t.block() && t.block() == 32,
        t == GgmlType::Q2_K ==> 8 * (t.size() - 16 - 4) == 2 * t.block() && t.block() == 256,
        t == GgmlType::Q3_K ==> 8 * (t.size() - 12 - 2) == 3 * t.block() && t.block() == 256,
        t == GgmlType::Q4_K ==> 8 * (t.size() - 12 - 4) == 4 * t.block() && t.block() == 256,
        t == GgmlType::Q5_K ==> 8 * (t.size() - 12 - 4) == 5 * t.block() && t.block() == 256,
        t == GgmlType::Q6_K ==> 8 * (t.size() - 16 - 2) == 6 * t.block() && t.block() == 256,
        t == GgmlType::IQ3_S ==> 8 * (t.size() - 12 - 2) == 3 * t.block() && t.block() == 256,
        t == GgmlType::IQ4_XS ==> 8 * (t.size() - 6 - 2) == 4 * t.block() && t.block() == 256,
        t == GgmlType::NVFP4 ==> 8 * (t.size() - 4) == 4 * t.block() && t.block() == 64,
{
}

} // verus!
