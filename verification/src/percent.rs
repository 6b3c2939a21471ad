//! Volumes as bit patterns of 64-bit floating-point percentages.
//!
//! A pattern holds a sign, an exponent of eleven bits and a fraction of 52
//! bits. Its value is given here as a multiple of the smallest positive
//! number, two to the power of minus 1074.

use vstd::arithmetic::power2::{lemma_pow2_adds, lemma_pow2_strictly_increases, pow2};
use vstd::prelude::*;

verus! {

/// The number of fractions for each exponent.
pub const FRACTIONS: u64 = 0x10_0000_0000_0000;

/// The number of patterns without a sign.
pub const UNSIGNED: u64 = 0x8000_0000_0000_0000;

/// The first pattern without a sign that stands for no finite number.
pub const INFINITE: u64 = 0x7ff0_0000_0000_0000;

/// The pattern of one hundred.
pub const HUNDRED: u64 = 0x4059_0000_0000_0000;

/// The pattern of one hundred and fifty.
pub const HUNDRED_FIFTY: u64 = 0x4062_c000_0000_0000;

/// The pattern of three quarters.
pub const THREE_QUARTERS: u64 = 0x3fe8_0000_0000_0000;

/// The pattern without its sign.
pub open spec fn unsigned(bits: u64) -> u64 {
    bits % UNSIGNED
}

/// Whether the pattern has a minus sign.
pub open spec fn is_negative(bits: u64) -> bool {
    bits >= UNSIGNED
}

/// Whether the pattern stands for a finite number.
pub open spec fn is_finite(bits: u64) -> bool {
    unsigned(bits) < INFINITE
}

/// The size of the number that a pattern stands for, as a multiple of the
/// smallest positive number.
pub open spec fn magnitude(bits: u64) -> nat {
    let exponent = unsigned(bits) / FRACTIONS;
    let fraction = (unsigned(bits) % FRACTIONS) as nat;
    if exponent == 0 {
        fraction
    } else {
        (FRACTIONS as nat + fraction) * pow2((exponent - 1) as nat)
    }
}

/// The number that a pattern stands for, as a multiple of the smallest
/// positive number.
pub open spec fn value(bits: u64) -> int {
    if is_negative(bits) {
        -(magnitude(bits) as int)
    } else {
        magnitude(bits) as int
    }
}

/// A whole number as a multiple of the smallest positive number.
pub open spec fn whole(n: nat) -> int {
    (n * pow2(1074)) as int
}

/// Patterns without a sign are ordered as the numbers that they stand for.
pub proof fn lemma_order(a: u64, b: u64)
    requires
        a < b < UNSIGNED,
    ensures
        magnitude(a) < magnitude(b),
{
    let ea = a / FRACTIONS;
    let eb = b / FRACTIONS;
    let fa = (a % FRACTIONS) as nat;
    let fb = (b % FRACTIONS) as nat;
    assert(a == ea * FRACTIONS + fa && b == eb * FRACTIONS + fb);
    assert(unsigned(a) == a && unsigned(b) == b);
    if ea == eb {
        if ea > 0 {
            let p = pow2((ea - 1) as nat);
            vstd::arithmetic::power2::lemma_pow2_pos((ea - 1) as nat);
            assert((FRACTIONS as nat + fa) * p < (FRACTIONS as nat + fb) * p) by (nonlinear_arith)
                requires
                    fa < fb,
                    p > 0,
            ;
        }
    } else {
        assert(ea < eb);
        let q = pow2((eb - 1) as nat);
        vstd::arithmetic::power2::lemma_pow2_pos((eb - 1) as nat);
        if ea == 0 {
            assert(fa < (FRACTIONS as nat + fb) * q) by (nonlinear_arith)
                requires
                    fa < FRACTIONS,
                    q >= 1,
            ;
        } else {
            let p = pow2((ea - 1) as nat);
            lemma_pow2_adds(1, (eb - 2) as nat);
            vstd::arithmetic::power2::lemma2_to64();
            assert(q == 2 * pow2((eb - 2) as nat));
            if ea - 1 < eb - 2 {
                lemma_pow2_strictly_increases((ea - 1) as nat, (eb - 2) as nat);
            }
            assert(2 * p <= q);
            vstd::arithmetic::power2::lemma_pow2_pos((ea - 1) as nat);
            assert((FRACTIONS as nat + fa) * p < (FRACTIONS as nat + fb) * q) by (nonlinear_arith)
                requires
                    fa < FRACTIONS,
                    2 * p <= q,
                    p > 0,
            ;
        }
    }
}

/// The patterns of one hundred, one hundred and fifty, and three quarters.
pub proof fn lemma_constants()
    ensures
        value(HUNDRED) == whole(100),
        value(HUNDRED_FIFTY) == whole(150),
        4 * value(THREE_QUARTERS) == whole(3),
{
    vstd::arithmetic::power2::lemma2_to64();
    vstd::arithmetic::power2::lemma2_to64_rest();
    assert(HUNDRED / FRACTIONS == 1029 && HUNDRED % FRACTIONS == 0x9_0000_0000_0000);
    assert(HUNDRED_FIFTY / FRACTIONS == 1030 && HUNDRED_FIFTY % FRACTIONS == 0x2_c000_0000_0000);
    assert(THREE_QUARTERS / FRACTIONS == 1022 && THREE_QUARTERS % FRACTIONS
        == 0x8_0000_0000_0000);
    lemma_pow2_adds(46, 1028);
    lemma_pow2_adds(45, 1029);
    lemma_pow2_adds(53, 1021);
    let a = pow2(1028);
    let b = pow2(1029);
    let c = pow2(1021);
    assert(0x19_0000_0000_0000 * a == 100 * (0x4000_0000_0000 * a)) by (nonlinear_arith);
    assert(0x12_c000_0000_0000 * b == 150 * (0x2000_0000_0000 * b)) by (nonlinear_arith);
    assert(4 * (0x18_0000_0000_0000 * c) == 3 * (0x20_0000_0000_0000 * c)) by (nonlinear_arith);
}

/// Whether the pattern stands for no number at all.
pub open spec fn is_nan(bits: u64) -> bool {
    unsigned(bits) > INFINITE
}

/// The highest volume that a setting allows, in percent: 150 or 100.
pub open spec fn highest(maximum: u16) -> u16 {
    if maximum == 150 {
        150
    } else {
        100
    }
}

/// The highest volume that a setting allows, in percent: 150 or 100.
pub fn sanitize_maximum_volume(value: u16) -> (res: u16)
    ensures
        res == highest(value),
{
    if value == 150 {
        150
    } else {
        100
    }
}

/// The pattern of the highest volume that a setting allows.
pub open spec fn highest_pattern(maximum: u16) -> u64 {
    if maximum == 150 {
        HUNDRED_FIFTY
    } else {
        HUNDRED
    }
}

/// A volume brought into the range from zero to the highest that the setting
/// allows. What is no number stays as it is.
pub open spec fn clamped(bits: u64, maximum: u16) -> u64 {
    if is_nan(bits) {
        bits
    } else if value(bits) < 0 {
        0
    } else if value(bits) > whole(highest(maximum) as nat) {
        highest_pattern(maximum)
    } else {
        bits
    }
}

/// The volume to order: within the range that the setting allows, and zero
/// where the wish is no finite number.
pub open spec fn target_of(bits: u64, maximum: u16) -> u64 {
    if is_finite(bits) {
        clamped(bits, maximum)
    } else {
        0
    }
}

/// Brings a volume into the range from zero to the highest that the setting
/// allows.
pub fn clamp_percent(bits: u64, maximum: u16) -> (res: u64)
    ensures
        res == clamped(bits, maximum),
{
    let limit: u64 = if maximum == 150 {
        HUNDRED_FIFTY
    } else {
        HUNDRED
    };
    proof {
        lemma_constants();
        assert(value(limit) == whole(highest(maximum) as nat));
        let plain = unsigned(bits);
        assert(magnitude(plain) == magnitude(bits));
        if plain > 0 {
            lemma_order(0, plain);
        }
        if plain < limit {
            lemma_order(plain, limit);
        }
        if limit < plain {
            lemma_order(limit, plain);
        }
        lemma_order(0, limit);
    }
    if bits % UNSIGNED > INFINITE {
        bits
    } else if bits > UNSIGNED {
        0
    } else if bits == UNSIGNED {
        bits
    } else if bits > limit {
        limit
    } else {
        bits
    }
}

/// The volume to order for a wish.
pub fn clamp_target_percent(bits: u64, maximum: u16) -> (res: u64)
    ensures
        res == target_of(bits, maximum),
{
    if bits % UNSIGNED >= INFINITE {
        0
    } else {
        clamp_percent(bits, maximum)
    }
}

/// Whatever is wished for, what is ordered is a number from zero to the
/// highest volume that the setting allows, and ordering that again changes
/// nothing.
pub proof fn target_is_in_range(bits: u64, maximum: u16)
    ensures
        is_finite(target_of(bits, maximum)),
        0 <= value(target_of(bits, maximum)) <= whole(highest(maximum) as nat),
        target_of(target_of(bits, maximum), maximum) == target_of(bits, maximum),
{
    lemma_constants();
    lemma_order(0, HUNDRED);
    lemma_order(0, HUNDRED_FIFTY);
    assert(value(0) == 0);
}

/// A higher wish is never answered with a lower volume.
pub proof fn target_is_monotonic(a: u64, b: u64, maximum: u16)
    requires
        is_finite(a),
        is_finite(b),
        value(a) <= value(b),
    ensures
        value(target_of(a, maximum)) <= value(target_of(b, maximum)),
{
    lemma_constants();
    lemma_order(0, HUNDRED);
    lemma_order(0, HUNDRED_FIFTY);
    assert(value(0) == 0);
}

/// The highest volume is 150 percent where the setting says exactly that, and
/// 100 percent else.
pub proof fn highest_is_one_of_two(maximum: u16)
    ensures
        highest(maximum) == 100 || highest(maximum) == 150,
        highest(maximum) == 150 <==> maximum == 150,
        highest(highest(maximum)) == highest(maximum),
{
}

/// A wish within the range is ordered exactly as it is. One below it gives
/// zero, one above it the highest volume, and one that is no finite number
/// gives zero.
pub proof fn wishes_in_range_are_kept(bits: u64, maximum: u16)
    ensures
        is_finite(bits) && 0 <= value(bits) <= whole(highest(maximum) as nat) ==> target_of(
            bits,
            maximum,
        ) == bits,
        is_finite(bits) && value(bits) < 0 ==> target_of(bits, maximum) == 0,
        is_finite(bits) && value(bits) > whole(highest(maximum) as nat) ==> value(
            target_of(bits, maximum),
        ) == whole(highest(maximum) as nat),
        !is_finite(bits) ==> target_of(bits, maximum) == 0,
        !is_nan(bits) && 0 <= value(bits) <= whole(highest(maximum) as nat) ==> clamped(
            bits,
            maximum,
        ) == bits,
        !is_nan(bits) ==> 0 <= value(clamped(bits, maximum)) <= whole(highest(maximum) as nat),
        is_nan(bits) ==> clamped(bits, maximum) == bits,
        !is_negative(bits) ==> value(bits) >= 0,
        is_negative(bits) ==> value(bits) <= 0,
{
    lemma_constants();
    lemma_order(0, HUNDRED);
    lemma_order(0, HUNDRED_FIFTY);
    assert(value(0) == 0);
}

/// Whether two volumes with this difference count as the same: they are at
/// most three quarters of a percent apart.
pub open spec fn is_small(difference: u64) -> bool {
    is_finite(difference) && 4 * magnitude(difference) <= whole(3)
}

/// Whether two volumes with this difference count as the same.
pub fn is_settled(difference: u64) -> (res: bool)
    ensures
        res == is_small(difference),
{
    let plain: u64 = difference % UNSIGNED;
    proof {
        lemma_constants();
        assert(magnitude(plain) == magnitude(difference));
        if plain < THREE_QUARTERS {
            lemma_order(plain, THREE_QUARTERS);
        }
        if THREE_QUARTERS < plain {
            lemma_order(THREE_QUARTERS, plain);
        }
    }
    plain <= THREE_QUARTERS
}

/// Two volumes count as the same exactly where they are at most three quarters
/// of a percent apart, whichever of them is the higher.
pub proof fn small_differences_settle(difference: u64)
    requires
        is_finite(difference),
    ensures
        is_small(difference) <==> -whole(3) <= 4 * value(difference) <= whole(3),
{
    if is_negative(difference) {
        assert(4 * value(difference) == -(4 * magnitude(difference)));
    }
}

} // verus!
