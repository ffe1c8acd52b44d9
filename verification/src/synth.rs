//! Reproducible test weights.

use vstd::prelude::*;

use crate::bytes;
use crate::qtype::GgmlType;

verus! {

/// `s` with the two bytes of `value` at `offset`.
pub open spec fn put_half(s: Seq<u8>, offset: int, value: u16) -> Seq<u8> {
    s.update(offset, (value % 256) as u8).update(offset + 1, (value / 256) as u8)
}

/// Writes `value` at `offset`, low byte first.
pub fn write_half(raw: &mut Vec<u8>, offset: usize, value: u16)
    requires
        offset + 2 <= old(raw)@.len(),
    ensures
        final(raw)@ == put_half(old(raw)@, offset as int, value),
{
    let n = raw.len();
    raw.set(offset, (value % 256) as u8);
    raw.set(offset + 1, (value / 256) as u8);
}

/// The next state of the byte generator.
pub open spec fn noise_next(s: u32) -> u32 {
    ((s * 1_664_525 + 1_013_904_223) % 0x1_0000_0000) as u32
}

/// The state of the byte generator after `k` bytes.
pub open spec fn noise_state(s: u32, k: nat) -> u32
    decreases k,
{
    if k == 0 {
        s
    } else {
        noise_next(noise_state(s, (k - 1) as nat))
    }
}

/// The first state.
pub const NOISE_SEED: u32 = 0x1234_5678;

/// Byte `k` of the generator.
pub open spec fn noise_byte(k: int) -> u8 {
    (noise_state(NOISE_SEED, (k + 1) as nat) / 0x100_0000) as u8
}

/// `n` bytes of the generator, from byte `from` on.
pub open spec fn noise(from: nat, n: nat) -> Seq<u8> {
    Seq::new(n, |i: int| noise_byte(from + i))
}

/// A block of noise with the format's scales set to small finite numbers.
pub open spec fn tamed(ty: GgmlType, s: Seq<u8>) -> Seq<u8> {
    match ty {
        GgmlType::Q8_0 | GgmlType::Q4_0 => put_half(s, 0, 0x3800),
        GgmlType::Q2_K => put_half(put_half(s, 80, 0x3400), 82, 0x3000),
        GgmlType::Q4_K | GgmlType::Q5_K => put_half(put_half(s, 0, 0x3000), 2, 0x2c00),
        GgmlType::Q6_K => put_half(s, 208, 0x3000),
        GgmlType::Q3_K => put_half(s, 108, 0x3000),
        GgmlType::IQ3_S => put_half(s, 0, 0x3000),
        GgmlType::IQ4_XS => put_half(s, 0, 0x3000),
        GgmlType::NVFP4 => put_half(put_half(s, 0, 0x3f3f), 2, 0x3f3f),
        GgmlType::F32 | GgmlType::BF16 => s,
    }
}

/// Block `b` of a fixture, whose noise starts at byte `from`. The float formats hold the given
/// values.
pub open spec fn fixture_block(ty: GgmlType, from: nat, b: int, floats: Seq<u32>) -> Seq<u8> {
    match ty {
        GgmlType::F32 => bytes::le_bytes(floats[b] as nat, 4),
        GgmlType::BF16 => bytes::le_bytes((floats[b] / 0x1_0000) as nat, 2),
        _ => tamed(ty, noise(from, ty.size())),
    }
}

/// The first `n` blocks of a fixture.
pub open spec fn fixture_blocks(ty: GgmlType, n: nat, floats: Seq<u32>) -> Seq<u8>
    decreases n,
{
    if n == 0 {
        Seq::empty()
    } else {
        let before = fixture_blocks(ty, (n - 1) as nat, floats);
        before + fixture_block(ty, (ty.size() * (n - 1)) as nat, n - 1, floats)
    }
}

fn tame(block: &mut Vec<u8>, ty: GgmlType)
    requires
        old(block)@.len() == ty.size(),
    ensures
        final(block)@ == tamed(ty, old(block)@),
{
    match ty {
        GgmlType::Q8_0 | GgmlType::Q4_0 => {
            write_half(block, 0, 0x3800);
        },
        GgmlType::Q2_K => {
            write_half(block, 80, 0x3400);
            write_half(block, 82, 0x3000);
        },
        GgmlType::Q4_K | GgmlType::Q5_K => {
            write_half(block, 0, 0x3000);
            write_half(block, 2, 0x2c00);
        },
        GgmlType::Q6_K => {
            write_half(block, 208, 0x3000);
        },
        GgmlType::Q3_K => {
            write_half(block, 108, 0x3000);
        },
        GgmlType::IQ3_S => {
            write_half(block, 0, 0x3000);
        },
        GgmlType::IQ4_XS => {
            write_half(block, 0, 0x3000);
        },
        GgmlType::NVFP4 => {
            write_half(block, 0, 0x3f3f);
            write_half(block, 2, 0x3f3f);
        },
        GgmlType::F32 | GgmlType::BF16 => {},
    }
}

fn noise_block(state: &mut u32, n: usize, Ghost(from): Ghost<nat>) -> (r: Vec<u8>)
    requires
        *old(state) == noise_state(NOISE_SEED, from),
    ensures
        r@ == noise(from, n as nat),
        *final(state) == noise_state(NOISE_SEED, from + n as nat),
{
    let mut out: Vec<u8> = Vec::new();
    let mut i: usize = 0;
    while i < n
        invariant
            i <= n,
            out@ == noise(from, i as nat),
            *state == noise_state(NOISE_SEED, from + i as nat),
        decreases n - i,
    {
        let s: u32 = *state;
        let next: u32 = s.wrapping_mul(1_664_525).wrapping_add(1_013_904_223);
        proof {
            lemma_wrap(s);
            assert(next == noise_next(s));
        }
        *state = next;
        out.push((next / 0x100_0000) as u8);
        assert(out@ =~= noise(from, (i + 1) as nat));
        i += 1;
    }
    out
}

proof fn lemma_wrap(s: u32)
    ensures
        ((s * 1_664_525) % 0x1_0000_0000 + 1_013_904_223) % 0x1_0000_0000 == (s * 1_664_525
            + 1_013_904_223) % 0x1_0000_0000,
{
    vstd::arithmetic::div_mod::lemma_add_mod_noop_right(
        1_013_904_223,
        s * 1_664_525,
        0x1_0000_0000,
    );
}

/// Weights of `n` elements in format `ty`: reproducible noise with tame scales. The float formats
/// take the bits of their values from `floats`.
pub fn fixture(ty: GgmlType, n: usize, floats: &[u32]) -> (r: Vec<u8>)
    requires
        (ty == GgmlType::F32 || ty == GgmlType::BF16) ==> floats@.len() >= n,
    ensures
        r@ == fixture_blocks(ty, (n as int / ty.block() as int) as nat, floats@),
{
    let (block, size) = ty.block_and_type_size();
    let n_blocks: usize = n / block;
    let mut raw: Vec<u8> = Vec::new();
    let mut state: u32 = NOISE_SEED;
    let mut b: usize = 0;
    while b < n_blocks
        invariant
            b <= n_blocks,
            size == ty.size(),
            (ty == GgmlType::F32 || ty == GgmlType::BF16) ==> floats@.len() >= n_blocks,
            raw@ == fixture_blocks(ty, b as nat, floats@),
            state == noise_state(NOISE_SEED, (ty.size() * b) as nat),
        decreases n_blocks - b,
    {
        let ghost from = (ty.size() * b) as nat;
        let mut part = noise_block(&mut state, size, Ghost(from));
        assert(from + size == ty.size() * (b + 1)) by (nonlinear_arith)
            requires
                from == ty.size() * b,
                size == ty.size(),
        ;
        match ty {
            GgmlType::F32 => {
                bytes::push_le(&mut raw, floats[b] as u64, 4);
            },
            GgmlType::BF16 => {
                bytes::push_le(&mut raw, (floats[b] / 0x1_0000) as u64, 2);
            },
            _ => {
                tame(&mut part, ty);
                raw.append(&mut part);
            },
        }
        b += 1;
    }
    raw
}

/// A generator of 31-bit numbers.
pub struct Lcg(pub u64);

/// The next state of the generator.
pub open spec fn lcg_next(s: u64) -> u64 {
    ((s * 6364136223846793005 + 1442695040888963407) % 0x1_0000_0000_0000_0000) as u64
}

/// The state after `k` numbers.
pub open spec fn lcg_state(s: u64, k: nat) -> u64
    decreases k,
{
    if k == 0 {
        s
    } else {
        lcg_next(lcg_state(s, (k - 1) as nat))
    }
}

/// Number `k` of the generator, from 1 on.
pub open spec fn lcg_out(s: u64, k: nat) -> u32 {
    (lcg_state(s, k) / 0x2_0000_0000) as u32
}

proof fn lemma_lcg_wrap(s: u64)
    ensures
        ((s * 6364136223846793005) % 0x1_0000_0000_0000_0000 + 1442695040888963407)
            % 0x1_0000_0000_0000_0000 == (s * 6364136223846793005 + 1442695040888963407)
            % 0x1_0000_0000_0000_0000,
{
    vstd::arithmetic::div_mod::lemma_add_mod_noop_right(
        1442695040888963407,
        s * 6364136223846793005,
        0x1_0000_0000_0000_0000,
    );
}

proof fn lemma_lcg_steps(s: u64, a: nat, b: nat)
    ensures
        lcg_state(lcg_state(s, a), b) == lcg_state(s, a + b),
    decreases b,
{
    if b > 0 {
        lemma_lcg_steps(s, a, (b - 1) as nat);
    }
}

impl Lcg {
    /// The next number.
    pub fn next(&mut self) -> (r: u32)
        ensures
            final(self).0 == lcg_next(old(self).0),
            r == lcg_out(old(self).0, 1),
            r < 0x8000_0000,
    {
        proof {
            lemma_lcg_wrap(self.0);
            reveal_with_fuel(lcg_state, 2);
        }
        self.0 = self.0.wrapping_mul(6364136223846793005).wrapping_add(1442695040888963407);
        (self.0 / 0x2_0000_0000) as u32
    }
}

/// A scale from -32 up to 31, as a byte.
pub open spec fn scale_byte(v: u32) -> u8 {
    (if v % 64 < 32 {
        v % 64 + 224
    } else {
        v % 64 - 32
    }) as u8
}

/// The block scale, a 16-bit float with a fixed exponent.
pub open spec fn block_scale(v: u32) -> u16 {
    (0x2800 + v % 1024) as u16
}

/// A block of the format: quants, scales, and the block scale.
pub open spec fn q6k_block(s: u64) -> Seq<u8> {
    Seq::new(192, |i: int| (lcg_out(s, (i + 1) as nat) % 256) as u8) + Seq::new(
        16,
        |i: int| scale_byte(lcg_out(s, (i + 193) as nat)),
    ) + bytes::le_bytes(block_scale(lcg_out(s, 209)) as nat, 2)
}

/// The first `n` blocks, each from where the one before left the generator.
pub open spec fn q6k_blocks(s: u64, n: nat) -> Seq<u8>
    decreases n,
{
    if n == 0 {
        Seq::empty()
    } else {
        q6k_blocks(s, (n - 1) as nat) + q6k_block(lcg_state(s, (209 * (n - 1)) as nat))
    }
}

/// The block scales are finite positive numbers: sign and the top exponent bits are clear.
pub proof fn law_block_scale_is_finite(v: u32)
    ensures
        0x2800 <= block_scale(v) < 0x2c00,
{
}

fn push_q6k_block(w: &mut Vec<u8>, rng: &mut Lcg)
    ensures
        final(w)@ == old(w)@ + q6k_block(old(rng).0),
        final(rng).0 == lcg_state(old(rng).0, 209),
{
    let ghost s = rng.0;
    let ghost w0 = w@;
    let ghost quants = Seq::new(192, |i: int| (lcg_out(s, (i + 1) as nat) % 256) as u8);
    let ghost scales = Seq::new(16, |i: int| scale_byte(lcg_out(s, (i + 193) as nat)));
    let mut i: usize = 0;
    assert(quants.take(0) =~= Seq::<u8>::empty());
    while i < 192
        invariant
            i <= 192,
            quants == Seq::new(192, |i: int| (lcg_out(s, (i + 1) as nat) % 256) as u8),
            w@ == w0 + quants.take(i as int),
            rng.0 == lcg_state(s, i as nat),
        decreases 192 - i,
    {
        proof {
            reveal_with_fuel(lcg_state, 2);
            lemma_lcg_steps(s, i as nat, 1);
        }
        let v = rng.next();
        w.push((v % 256) as u8);
        assert(quants.take(i + 1) =~= quants.take(i as int).push(quants[i as int]));
        assert(w@ =~= w0 + quants.take(i + 1));
        i += 1;
    }
    assert(quants.take(192) =~= quants);
    let mut j: usize = 0;
    assert(scales.take(0) =~= Seq::<u8>::empty());
    assert(w@ =~= w0 + quants + scales.take(0));
    while j < 16
        invariant
            j <= 16,
            scales == Seq::new(16, |i: int| scale_byte(lcg_out(s, (i + 193) as nat))),
            w@ == w0 + quants + scales.take(j as int),
            rng.0 == lcg_state(s, (192 + j) as nat),
        decreases 16 - j,
    {
        proof {
            reveal_with_fuel(lcg_state, 2);
            lemma_lcg_steps(s, (192 + j) as nat, 1);
        }
        let v = rng.next();
        let m: u32 = v % 64;
        let b: u32 = if m < 32 {
            m + 224
        } else {
            m - 32
        };
        w.push(b as u8);
        assert(scales.take(j + 1) =~= scales.take(j as int).push(scales[j as int]));
        assert(w@ =~= w0 + quants + scales.take(j + 1));
        j += 1;
    }
    assert(scales.take(16) =~= scales);
    proof {
        reveal_with_fuel(lcg_state, 2);
        lemma_lcg_steps(s, 208, 1);
    }
    let v = rng.next();
    let h: u32 = 0x2800 + v % 1024;
    bytes::push_le(w, h as u64, 2);
    assert(w@ =~= w0 + q6k_block(s));
}

/// Plausible weights of `rows` rows of `in_f` elements.
pub fn synth_q6k(rows: usize, in_f: usize, rng: &mut Lcg) -> (w: Vec<u8>)
    requires
        rows * (in_f as int / 256) <= usize::MAX,
    ensures
        w@ == q6k_blocks(old(rng).0, (rows * (in_f as int / 256)) as nat),
        final(rng).0 == lcg_state(old(rng).0, (209 * (rows * (in_f as int / 256))) as nat),
{
    let ghost s = rng.0;
    let per_row: usize = in_f / 256;
    let n: usize = rows * per_row;
    let mut w: Vec<u8> = Vec::new();
    let mut b: usize = 0;
    while b < n
        invariant
            b <= n,
            w@ == q6k_blocks(s, b as nat),
            rng.0 == lcg_state(s, (209 * b) as nat),
        decreases n - b,
    {
        push_q6k_block(&mut w, rng);
        proof {
            lemma_lcg_steps(s, (209 * b) as nat, 209);
        }
        b += 1;
    }
    w
}

/// The numerator, below two to the 24, of the reproducible fraction with index `i`.
pub fn pr_numerator(i: usize) -> (r: u32)
    ensures
        r == ((((i as int % 0x1_0000_0000) * 2654435761) % 0x1_0000_0000) as u32 ^ 0x9E37_79B9u32)
            / 256,
{
    let lo: u32 = (i as u64 % 0x1_0000_0000) as u32;
    let x: u32 = lo.wrapping_mul(2654435761) ^ 0x9E37_79B9u32;
    x / 256
}

} // verus!
