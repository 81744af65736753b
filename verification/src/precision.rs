//! Between single and double precision, by the bits.
//!
//! Without its sign, a number is an exponent above a fraction. The fraction counts
//! steps from one power of two to the next: 23 bits of it in single precision and 52 in
//! double. An exponent of nought stands for the numbers closest to zero, whose steps are
//! those of the exponent one.

use crate::json;
use crate::json::{DOUBLE_INFINITE, DOUBLE_SIGN};
use crate::single::{Single, INFINITE, SIGN};
use vstd::arithmetic::div_mod::{lemma_div_by_multiple, lemma_mod_multiples_basic};
use vstd::arithmetic::power2::{
    lemma2_to64, lemma2_to64_rest, lemma_pow2_pos, lemma_pow2_strictly_increases, lemma_pow2_unfold,
    pow2,
};
use vstd::prelude::*;

verus! {

/// The steps from one power of two to the next in single precision.
pub const SINGLE_STEPS: u64 = 0x80_0000;

/// The same in double precision.
pub const DOUBLE_STEPS: u64 = 0x10_0000_0000_0000;

/// How many bits longer a fraction is in double precision.
pub const SPARE_BITS: u64 = 29;

/// The exponent in double precision of the smallest number that has an exponent of its
/// own in single precision, where that is one.
pub const LEAST_EXPONENT: u64 = 897;

/// How many of a unit a number comes to, to the closest whole one, and to the even one
/// where two are as close.
pub open spec fn rounded(n: nat, unit: nat) -> nat {
    let whole = n / unit;
    let rest = n % unit;
    if 2 * rest > unit || (2 * rest == unit && whole % 2 == 1) {
        whole + 1
    } else {
        whole
    }
}

/// The bits in single precision, without the sign, of what is closest to a number in
/// double precision. What is too large is infinite.
pub open spec fn narrowed_size(size: nat) -> nat {
    let exponent = if size < DOUBLE_STEPS {
        1
    } else {
        size / (DOUBLE_STEPS as nat)
    };
    let steps = (size - (exponent - 1) * DOUBLE_STEPS) as nat;
    let bits = if exponent < LEAST_EXPONENT {
        rounded(steps, pow2((SPARE_BITS + LEAST_EXPONENT - exponent) as nat))
    } else {
        let above = rounded(steps, pow2(SPARE_BITS as nat));
        ((exponent - LEAST_EXPONENT) * SINGLE_STEPS + above) as nat
    };
    if bits > INFINITE {
        INFINITE as nat
    } else {
        bits
    }
}

/// The number in single precision that is closest to one in double precision.
pub open spec fn narrowed(bits: u64) -> Single {
    if bits < DOUBLE_SIGN {
        Single { bits: narrowed_size(bits as nat) as u32 }
    } else {
        Single { bits: (SIGN + narrowed_size((bits - DOUBLE_SIGN) as nat)) as u32 }
    }
}

/// The bits in double precision of so many steps at an exponent, which is lowered until
/// they are enough.
pub open spec fn raised(steps: nat, exponent: int) -> int
    decreases 2 * DOUBLE_STEPS - steps,
{
    if steps >= DOUBLE_STEPS || steps == 0 {
        (exponent - 1) * DOUBLE_STEPS + steps
    } else {
        raised(2 * steps, exponent - 1)
    }
}

/// The bits in double precision, without the sign, of a number in single precision.
pub open spec fn widened_size(size: nat) -> int {
    if size == 0 {
        0
    } else if size < SINGLE_STEPS {
        raised(size * pow2(SPARE_BITS as nat), LEAST_EXPONENT as int)
    } else {
        size * pow2(SPARE_BITS as nat) + (LEAST_EXPONENT - 1) * DOUBLE_STEPS
    }
}

/// The bits in double precision of a number in single precision, which it is exactly,
/// and `None` of what is not finite.
pub open spec fn widened(s: Single) -> Option<u64> {
    if !s.finite() {
        None
    } else if s.bits < SIGN {
        Some(widened_size(s.magnitude() as nat) as u64)
    } else {
        Some((DOUBLE_SIGN + widened_size(s.magnitude() as nat)) as u64)
    }
}

/// Two to a power.
fn power(n: u64) -> (p: u64)
    requires
        n <= 53,
    ensures
        p == pow2(n as nat),
        p <= 0x20_0000_0000_0000,
{
    let mut p: u64 = 1;
    let mut i: u64 = 0;
    proof {
        lemma2_to64();
    }
    while i < n
        invariant
            i <= n <= 53,
            p == pow2(i as nat),
            p <= 0x20_0000_0000_0000,
        decreases n - i,
    {
        proof {
            lemma2_to64_rest();
            lemma_pow2_unfold((i + 1) as nat);
            if i + 1 < 53 {
                lemma_pow2_strictly_increases((i + 1) as nat, 53);
            }
        }
        p = p * 2;
        i = i + 1;
    }
    p
}

fn round(n: u64, unit: u64) -> (r: u64)
    requires
        0 < unit <= 0x20_0000_0000_0000,
        n < 0x20_0000_0000_0000,
    ensures
        r == rounded(n as nat, unit as nat),
        r <= n + 1,
{
    let whole: u64 = n / unit;
    let rest: u64 = n % unit;
    assert(whole <= n) by (nonlinear_arith)
        requires
            unit > 0,
            whole == n / unit,
    ;
    if 2 * rest > unit || (2 * rest == unit && whole % 2 == 1) {
        whole + 1
    } else {
        whole
    }
}

/// Nothing is left of what is smaller than half a unit.
proof fn too_small_to_count(n: nat, unit: nat)
    requires
        2 * n < unit,
    ensures
        rounded(n, unit) == 0,
{
    assert(n / unit == 0 && n % unit == n) by (nonlinear_arith)
        requires
            n < unit,
    ;
}

fn narrow_size(size: u64) -> (r: u32)
    requires
        size < DOUBLE_INFINITE,
    ensures
        r == narrowed_size(size as nat),
        r <= INFINITE,
{
    let exponent: u64 = if size < DOUBLE_STEPS {
        1
    } else {
        size / DOUBLE_STEPS
    };
    let steps: u64 = size - (exponent - 1) * DOUBLE_STEPS;
    proof {
        lemma2_to64();
        lemma2_to64_rest();
    }
    let bits: u64 = if exponent < LEAST_EXPONENT {
        let spare: u64 = SPARE_BITS + LEAST_EXPONENT - exponent;
        if spare > 53 {
            proof {
                if spare > 54 {
                    lemma_pow2_strictly_increases(54, spare as nat);
                }
                too_small_to_count(steps as nat, pow2(spare as nat));
            }
            0
        } else {
            let unit: u64 = power(spare);
            proof {
                lemma_pow2_pos(spare as nat);
            }
            round(steps, unit)
        }
    } else {
        let unit: u64 = power(SPARE_BITS);
        let above: u64 = round(steps, unit);
        (exponent - LEAST_EXPONENT) * SINGLE_STEPS + above
    };
    if bits > INFINITE as u64 {
        INFINITE
    } else {
        bits as u32
    }
}

/// The number in single precision that is closest to a finite one in double precision.
pub fn narrow(bits: u64) -> (s: Single)
    requires
        json::finite_double(bits),
    ensures
        s == narrowed(bits),
{
    if bits < DOUBLE_SIGN {
        Single { bits: narrow_size(bits) }
    } else {
        Single { bits: SIGN + narrow_size(bits - DOUBLE_SIGN) }
    }
}

/// Two to a power that is smaller than two to another is the lower power.
proof fn lower_power(a: nat, b: nat)
    requires
        pow2(a) < pow2(b),
    ensures
        a < b,
{
    if b < a {
        lemma_pow2_strictly_increases(b, a);
    }
}

fn widen_size(size: u32) -> (r: u64)
    requires
        size < INFINITE,
    ensures
        r == widened_size(size as nat),
        r < DOUBLE_INFINITE,
{
    if size == 0 {
        return 0;
    }
    let unit: u64 = power(SPARE_BITS);
    proof {
        lemma2_to64();
    }
    if size as u64 >= SINGLE_STEPS {
        return size as u64 * unit + (LEAST_EXPONENT - 1) * DOUBLE_STEPS;
    }
    let mut steps: u64 = size as u64 * unit;
    let mut exponent: u64 = LEAST_EXPONENT;
    while steps < DOUBLE_STEPS
        invariant
            0 < size < SINGLE_STEPS,
            0 < exponent <= LEAST_EXPONENT,
            steps >= pow2((SPARE_BITS + LEAST_EXPONENT - exponent) as nat),
            steps < 2 * DOUBLE_STEPS,
            steps > 0,
            raised(steps as nat, exponent as int) == widened_size(size as nat),
        decreases 2 * DOUBLE_STEPS - steps,
    {
        proof {
            lemma2_to64_rest();
            let spare = (SPARE_BITS + LEAST_EXPONENT - exponent) as nat;
            lower_power(spare, 52);
            lemma_pow2_unfold((spare + 1) as nat);
        }
        steps = steps * 2;
        exponent = exponent - 1;
    }
    (exponent - 1) * DOUBLE_STEPS + steps
}

/// The bits in double precision of a number in single precision, and `None` when it is
/// not finite.
pub fn widen(s: Single) -> (r: Option<u64>)
    ensures
        r == widened(s),
{
    if !s.is_finite() {
        return None;
    }
    if s.bits < SIGN {
        Some(widen_size(s.bits))
    } else {
        Some(DOUBLE_SIGN + widen_size(s.bits - SIGN))
    }
}

/// Whole units are rounded to themselves.
proof fn whole_units(n: nat, unit: nat)
    requires
        unit > 0,
    ensures
        rounded(n * unit, unit) == n,
{
    lemma_div_by_multiple(n as int, unit as int);
    lemma_mod_multiples_basic(n as int, unit as int);
}

proof fn raising_is_undone(size: nat, steps: nat, exponent: int)
    requires
        0 < size < SINGLE_STEPS,
        874 <= exponent <= LEAST_EXPONENT,
        steps == size * pow2((SPARE_BITS + LEAST_EXPONENT - exponent) as nat),
        steps < 2 * DOUBLE_STEPS,
    ensures
        0 <= raised(steps, exponent) < DOUBLE_INFINITE,
        narrowed_size(raised(steps, exponent) as nat) == size,
    decreases 2 * DOUBLE_STEPS - steps,
{
    lemma2_to64_rest();
    let spare = (SPARE_BITS + LEAST_EXPONENT - exponent) as nat;
    lemma_pow2_pos(spare);
    assert(steps >= pow2(spare)) by (nonlinear_arith)
        requires
            steps == size * pow2(spare),
            size > 0,
    ;
    if steps >= DOUBLE_STEPS {
        let bits = raised(steps, exponent);
        assert(bits / (DOUBLE_STEPS as int) == exponent);
        whole_units(size, pow2(spare));
    } else {
        lower_power(spare, 52);
        lemma_pow2_unfold((spare + 1) as nat);
        assert(2 * steps == size * pow2((spare + 1) as nat)) by (nonlinear_arith)
            requires
                steps == size * pow2(spare),
                pow2((spare + 1) as nat) == 2 * pow2(spare),
        ;
        raising_is_undone(size, 2 * steps, exponent - 1);
    }
}

/// A finite number in single precision has its like in double precision, and that is
/// brought back to the very same number.
pub proof fn widening_is_undone(s: Single)
    requires
        s.finite(),
    ensures
        widened(s) matches Some(bits) && json::finite_double(bits) && narrowed(bits) == s,
{
    lemma2_to64();
    let size = s.magnitude() as nat;
    if size == 0 {
        lemma_pow2_pos((SPARE_BITS + LEAST_EXPONENT - 1) as nat);
        too_small_to_count(0, pow2((SPARE_BITS + LEAST_EXPONENT - 1) as nat));
    } else if size < SINGLE_STEPS {
        raising_is_undone(size, size * pow2(SPARE_BITS as nat), LEAST_EXPONENT as int);
    } else {
        let bits = widened_size(size);
        let exponent = size / (SINGLE_STEPS as nat);
        assert(bits / (DOUBLE_STEPS as int) == exponent + LEAST_EXPONENT - 1);
        let steps = (size - (exponent - 1) * SINGLE_STEPS) as nat;
        whole_units(steps, pow2(SPARE_BITS as nat));
    }
}

/// Whatever is narrowed is a number, if only an infinite one.
pub proof fn what_is_narrowed_is_a_number(bits: u64)
    ensures
        narrowed(bits).is_number(),
{
}

/// Rounding gives the closest number of units, and the even one of two that are as close.
pub proof fn rounding_goes_to_the_closest(n: nat, unit: nat)
    requires
        unit > 0,
    ensures
        -(unit as int) <= 2 * (n - unit * rounded(n, unit)) <= unit,
        2 * (n - unit * rounded(n, unit)) == unit || 2 * (n - unit * rounded(n, unit)) == -(
        unit as int) ==> rounded(n, unit) % 2 == 0,
{
    let (whole, rest) = (n / unit, n % unit);
    assert(n == unit * whole + rest && 0 <= rest < unit && unit * (whole + 1) == unit * whole
        + unit) by (nonlinear_arith)
        requires
            unit > 0,
            whole == n / unit,
            rest == n % unit,
    ;
}

/// A number that is narrowed goes to the closest number in single precision. So many steps
/// at an exponent of double precision become, at the same power of two, so many of the
/// larger steps of single precision as are closest, and an even number where two are as
/// close; below the least exponent of single precision the steps no longer grow smaller.
/// What lies beyond the largest is infinite.
pub proof fn narrowing_goes_to_the_closest(exponent: nat, steps: nat)
    requires
        1 <= exponent <= 2046,
        steps < 0x20_0000_0000_0000,
        exponent > 1 ==> steps >= 0x10_0000_0000_0000,
    ensures
        ({
            let size = ((exponent - 1) * 0x10_0000_0000_0000 + steps) as nat;
            let bits = narrowed_size(size);
            let (base, unit) = if exponent >= 897 {
                ((exponent - 897) * 0x80_0000, pow2(29))
            } else {
                (0int, pow2((926 - exponent) as nat))
            };
            let off = 2 * (steps - unit * (bits - base));
            &&& bits <= 0x7f80_0000
            &&& bits < 0x7f80_0000 ==> -(unit as int) <= off <= unit
            &&& bits < 0x7f80_0000 && (off == unit || off == -(unit as int)) ==> (bits - base) % 2
                == 0
            &&& bits == 0x7f80_0000 ==> off >= -(unit as int)
        }),
{
    let size = ((exponent - 1) * 0x10_0000_0000_0000 + steps) as nat;
    assert(size < 0x10_0000_0000_0000 ==> exponent == 1);
    assert(size >= 0x10_0000_0000_0000 ==> size / 0x10_0000_0000_0000nat == exponent) by {
        if steps >= 0x10_0000_0000_0000 {
            assert(size == exponent * 0x10_0000_0000_0000 + (steps - 0x10_0000_0000_0000));
        }
    }
    let unit = if exponent >= 897 {
        pow2(29)
    } else {
        pow2((926 - exponent) as nat)
    };
    lemma_pow2_pos(29);
    if exponent < 897 {
        lemma_pow2_pos((926 - exponent) as nat);
    }
    let base = if exponent >= 897 {
        (exponent - 897) * 0x80_0000
    } else {
        0
    };
    rounding_goes_to_the_closest(steps, unit);
    let above = rounded(steps, unit);
    if base + above > 0x7f80_0000 {
        assert(unit * (0x7f80_0000 - base) <= unit * above) by (nonlinear_arith)
            requires
                0x7f80_0000 - base <= above,
                unit > 0,
        ;
    }
}

/// A number in single precision is the same number in double precision: the power of two is
/// the same, and every step is as many of the smaller ones as there are to it.
pub proof fn widening_keeps_the_number(exponent: nat, fraction: nat)
    requires
        1 <= exponent <= 254,
        fraction < 0x80_0000,
    ensures
        widened_size((exponent * 0x80_0000 + fraction) as nat) == (exponent + 896)
            * 0x10_0000_0000_0000 + fraction * 0x2000_0000,
{
    lemma2_to64();
    let size = (exponent * 0x80_0000 + fraction) as nat;
    assert(size * 0x2000_0000 == exponent * 0x10_0000_0000_0000 + fraction * 0x2000_0000)
        by (nonlinear_arith)
        requires
            size == exponent * 0x80_0000 + fraction,
    ;
}

/// The sign of a number stays what it was, and everything else goes by the number without
/// it.
pub proof fn the_sign_stays(size: u64, s: Single)
    requires
        size < 0x7ff0_0000_0000_0000,
        s.finite(),
        s.bits < 0x8000_0000,
    ensures
        narrowed(size).bits == narrowed_size(size as nat),
        narrowed((0x8000_0000_0000_0000 + size) as u64).bits == 0x8000_0000 + narrowed_size(
            size as nat,
        ),
        widened(s) is Some,
        widened(Single { bits: (0x8000_0000 + s.bits) as u32 }) is Some,
        widened(Single { bits: (0x8000_0000 + s.bits) as u32 })->0 == (0x8000_0000_0000_0000
            + widened_size(s.bits as nat)) as u64,
        widened(s)->0 == widened_size(s.bits as nat) as u64,
{
}

} // verus!
