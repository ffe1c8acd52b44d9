//! Order of 32-bit floats, by their bits.

use vstd::prelude::*;

verus! {

/// Minus infinity.
pub const NEG_INFINITY: u32 = 0xff80_0000;

/// One.
pub const ONE: u32 = 0x3f80_0000;

/// The bits without the sign.
pub open spec fn magnitude(b: u32) -> int {
    b as int % 0x8000_0000
}

/// The bits stand for no number.
pub open spec fn is_nan(b: u32) -> bool {
    magnitude(b) > 0x7f80_0000
}

/// A number with the order of the floats; both zeros have the same.
pub open spec fn key(b: u32) -> int {
    if b >= 0x8000_0000 {
        -magnitude(b)
    } else {
        magnitude(b)
    }
}

/// The first float is greater than the second.
pub open spec fn greater(a: u32, b: u32) -> bool {
    !is_nan(a) && !is_nan(b) && key(a) > key(b)
}

/// Whether the first float is greater than the second.
pub fn gt(a: u32, b: u32) -> (r: bool)
    ensures
        r == greater(a, b),
{
    let (ma, mb): (u32, u32) = (a % 0x8000_0000, b % 0x8000_0000);
    if ma > 0x7f80_0000 || mb > 0x7f80_0000 {
        return false;
    }
    if a >= 0x8000_0000 {
        b >= 0x8000_0000 && ma < mb
    } else if b >= 0x8000_0000 {
        ma > 0 || mb > 0
    } else {
        ma > mb
    }
}

/// `r` is the first place of the greatest number of `s`; zero where nothing is greater than minus
/// infinity.
pub open spec fn is_argmax(s: Seq<u32>, r: int) -> bool {
    if exists|j: int| 0 <= j < s.len() && greater(#[trigger] s[j], NEG_INFINITY) {
        &&& 0 <= r < s.len()
        &&& greater(s[r], NEG_INFINITY)
        &&& forall|j: int| 0 <= j < s.len() ==> !greater(#[trigger] s[j], s[r])
        &&& forall|j: int| 0 <= j < r ==> is_nan(#[trigger] s[j]) || greater(s[r], s[j])
    } else {
        r == 0
    }
}

/// The first place of the greatest number.
pub open spec fn argmax_of(s: Seq<u32>) -> int {
    choose|r: int| is_argmax(s, r)
}

/// The first place of the greatest number.
pub fn argmax(logits: &[u32]) -> (best: usize)
    ensures
        is_argmax(logits@, best as int),
        best == argmax_of(logits@),
        logits@.len() > 0 ==> best < logits@.len(),
{
    let mut best: usize = 0;
    let mut bv: u32 = NEG_INFINITY;
    let mut i: usize = 0;
    while i < logits.len()
        invariant
            i <= logits@.len(),
            !is_nan(bv),
            greater(bv, NEG_INFINITY) ==> best < i && bv == logits@[best as int] && forall|j: int|
                0 <= j < best ==> is_nan(#[trigger] logits@[j]) || greater(bv, logits@[j]),
            !greater(bv, NEG_INFINITY) ==> best == 0 && bv == NEG_INFINITY,
            forall|j: int| 0 <= j < i ==> !greater(#[trigger] logits@[j], bv),
        decreases logits@.len() - i,
    {
        let v = logits[i];
        if gt(v, bv) {
            assert forall|j: int| 0 <= j < i implies is_nan(#[trigger] logits@[j]) || greater(
                v,
                logits@[j],
            ) by {
                assert(!greater(logits@[j], bv));
            }
            bv = v;
            best = i;
        }
        i += 1;
    }
    proof {
        assert(is_argmax(logits@, best as int));
        law_argmax_is_unique(logits@, best as int, argmax_of(logits@));
    }
    best
}

/// There is one such place.
pub proof fn law_argmax_is_unique(s: Seq<u32>, a: int, b: int)
    requires
        is_argmax(s, a),
        is_argmax(s, b),
    ensures
        a == b,
{
    if exists|j: int| 0 <= j < s.len() && greater(#[trigger] s[j], NEG_INFINITY) {
        if a < b {
            assert(is_nan(s[a]) || greater(s[b], s[a]));
            assert(!greater(s[b], s[a]));
        } else if b < a {
            assert(is_nan(s[b]) || greater(s[a], s[b]));
            assert(!greater(s[a], s[b]));
        }
    }
}

/// Floats are ordered as the numbers they stand for: of two positive ones the one with the larger
/// bits is greater, of two negative ones the one with the smaller; a positive one is greater than
/// a negative one, unless both are zero.
pub proof fn law_order_of_bits(a: u32, b: u32)
    requires
        !is_nan(a),
        !is_nan(b),
    ensures
        a < 0x8000_0000 && b < 0x8000_0000 ==> (greater(a, b) <==> a > b),
        a >= 0x8000_0000 && b >= 0x8000_0000 ==> (greater(a, b) <==> a < b),
        a < 0x8000_0000 && b >= 0x8000_0000 ==> (greater(a, b) <==> !(a == 0 && b == 0x8000_0000)),
        a >= 0x8000_0000 && b < 0x8000_0000 ==> !greater(a, b),
{
}

/// The order is strict, and numbers that are not ordered are the same for a third.
pub proof fn law_order_is_strict(a: u32, b: u32, c: u32)
    ensures
        !greater(a, a),
        greater(a, b) ==> !greater(b, a),
        greater(a, b) && greater(b, c) ==> greater(a, c),
        !is_nan(a) && !is_nan(b) && !greater(a, b) && !greater(b, a) ==> greater(a, c) == greater(
            b,
            c,
        ),
        is_nan(a) ==> !greater(a, b) && !greater(b, a),
{
}

/// Every number but minus infinity is greater than that, and infinity is a number.
pub proof fn law_infinities(a: u32)
    ensures
        greater(a, NEG_INFINITY) <==> !is_nan(a) && a != NEG_INFINITY,
        !is_nan(a) && a != 0x7f80_0000 <==> greater(0x7f80_0000, a),
{
}

} // verus!
