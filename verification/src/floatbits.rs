use vstd::prelude::*;

verus! {

// IEEE-754 binary64 comparisons and negation on bit patterns
// (`f64::to_bits`): a value's sign is its top bit, its exponent the next
// eleven bits and its mantissa the low fifty-two bits.

pub open spec fn sign_bit(b: u64) -> bool {
    b >= 0x8000_0000_0000_0000
}

/// The pattern with its sign bit cleared.
pub open spec fn magnitude(b: u64) -> u64 {
    (b % 0x8000_0000_0000_0000) as u64
}

/// A NaN: all exponent bits set and a nonzero mantissa.
pub open spec fn is_nan(b: u64) -> bool {
    magnitude(b) > 0x7FF0_0000_0000_0000
}

/// Positive or negative zero.
pub open spec fn is_zero(b: u64) -> bool {
    magnitude(b) == 0
}

/// IEEE equality: no NaN is equal to anything, the two zeros are equal,
/// otherwise equal patterns.
pub open spec fn float_eq(a: u64, b: u64) -> bool {
    !is_nan(a) && !is_nan(b) && (a == b || (is_zero(a) && is_zero(b)))
}

/// IEEE less-than.
pub open spec fn float_lt(a: u64, b: u64) -> bool {
    if is_nan(a) || is_nan(b) || (is_zero(a) && is_zero(b)) {
        false
    } else if sign_bit(a) != sign_bit(b) {
        sign_bit(a)
    } else if !sign_bit(a) {
        magnitude(a) < magnitude(b)
    } else {
        magnitude(a) > magnitude(b)
    }
}

/// IEEE negation: the sign bit flipped.
pub open spec fn float_neg(b: u64) -> u64 {
    if sign_bit(b) {
        (b - 0x8000_0000_0000_0000) as u64
    } else {
        (b + 0x8000_0000_0000_0000) as u64
    }
}

pub fn mag(b: u64) -> (res: u64)
    ensures
        res == magnitude(b),
{
    b % 0x8000_0000_0000_0000
}

pub fn eq_bits(a: u64, b: u64) -> (res: bool)
    ensures
        res == float_eq(a, b),
{
    let ma = mag(a);
    let mb = mag(b);
    let nan = ma > 0x7FF0_0000_0000_0000 || mb > 0x7FF0_0000_0000_0000;
    !nan && (a == b || (ma == 0 && mb == 0))
}

pub fn lt_bits(a: u64, b: u64) -> (res: bool)
    ensures
        res == float_lt(a, b),
{
    let ma = mag(a);
    let mb = mag(b);
    if ma > 0x7FF0_0000_0000_0000 || mb > 0x7FF0_0000_0000_0000 || (ma == 0 && mb == 0) {
        false
    } else {
        let sa = a >= 0x8000_0000_0000_0000;
        let sb = b >= 0x8000_0000_0000_0000;
        if sa != sb {
            sa
        } else if !sa {
            ma < mb
        } else {
            ma > mb
        }
    }
}

pub fn neg_bits(b: u64) -> (res: u64)
    ensures
        res == float_neg(b),
{
    if b >= 0x8000_0000_0000_0000 {
        b - 0x8000_0000_0000_0000
    } else {
        b + 0x8000_0000_0000_0000
    }
}

} // verus!
