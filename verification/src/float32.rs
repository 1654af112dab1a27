//! Single-precision numbers by their bit pattern, ordered and multiplied
//! without floating point arithmetic.
use vstd::arithmetic::div_mod;
use vstd::arithmetic::power2;
use vstd::prelude::*;

verus! {

/// An IEEE 754 single-precision number, held as its 32 bits.
#[derive(Debug, Clone, Copy, PartialEq, Eq, Hash, Structural)]
pub struct Float32 {
    pub bits: u32,
}

/// Bits of the sign.
pub const SIGN_BIT: u32 = 0x8000_0000;

/// Bits of positive infinity; larger magnitudes are not numbers.
pub const INFINITY_BITS: u32 = 0x7f80_0000;

/// Bits of one.
pub const ONE_BITS: u32 = 0x3f80_0000;

impl Float32 {
    /// The number with these bits.
    pub fn from_bits(bits: u32) -> (result: Self)
        ensures
            result.bits == bits,
    {
        Float32 { bits }
    }

    /// The bits without the sign.
    pub open spec fn magnitude(self) -> u32 {
        if self.bits >= SIGN_BIT {
            (self.bits - SIGN_BIT) as u32
        } else {
            self.bits
        }
    }

    /// Whether the pattern denotes no number.
    pub open spec fn not_a_number(self) -> bool {
        self.magnitude() > INFINITY_BITS
    }

    /// Whether the pattern denotes a finite number.
    pub open spec fn finite(self) -> bool {
        self.magnitude() < INFINITY_BITS
    }

    /// Position of a number in the order of the numbers; both zeros share one.
    pub open spec fn rank(self) -> int {
        if self.bits >= SIGN_BIT {
            -(self.magnitude() as int)
        } else {
            self.magnitude() as int
        }
    }

    /// Whether this number is less than another, false when either is no number.
    pub open spec fn less(self, other: Float32) -> bool {
        !self.not_a_number() && !other.not_a_number() && self.rank() < other.rank()
    }

    /// Whether this number lies between two others, both included.
    pub open spec fn within(self, low: Float32, high: Float32) -> bool {
        &&& !self.not_a_number()
        &&& !low.not_a_number()
        &&& !high.not_a_number()
        &&& low.rank() <= self.rank() <= high.rank()
    }

    fn size(&self) -> (result: u32)
        ensures
            result == self.magnitude(),
    {
        if self.bits >= SIGN_BIT {
            self.bits - SIGN_BIT
        } else {
            self.bits
        }
    }

    fn position(&self) -> (result: i64)
        ensures
            result == self.rank(),
    {
        if self.bits >= SIGN_BIT {
            -(self.size() as i64)
        } else {
            self.size() as i64
        }
    }

    /// Whether the pattern denotes no number.
    pub fn is_nan(&self) -> (result: bool)
        ensures
            result == self.not_a_number(),
    {
        self.size() > INFINITY_BITS
    }

    /// Whether the pattern denotes a finite number.
    pub fn is_finite(&self) -> (result: bool)
        ensures
            result == self.finite(),
    {
        self.size() < INFINITY_BITS
    }

    /// Whether this number is less than another.
    pub fn is_less(&self, other: &Float32) -> (result: bool)
        ensures
            result == self.less(*other),
    {
        !self.is_nan() && !other.is_nan() && self.position() < other.position()
    }

    /// Whether this number lies between two others, both included.
    pub fn is_within(&self, low: &Float32, high: &Float32) -> (result: bool)
        ensures
            result == self.within(*low, *high),
    {
        !self.is_nan() && !low.is_nan() && !high.is_nan() && low.position() <= self.position()
            && self.position() <= high.position()
    }
}

/// Numbers are compared as a strict weak order: of two numbers that are not
/// less than one another, a third is less than both or neither.
pub proof fn order_is_weak(a: Float32, b: Float32, c: Float32)
    requires
        !a.not_a_number(),
        !b.not_a_number(),
        !c.not_a_number(),
    ensures
        !a.less(a),
        a.less(b) ==> !b.less(a),
        a.less(b) && b.less(c) ==> a.less(c),
        !a.less(b) && !b.less(a) ==> (a.less(c) <==> b.less(c)) && (c.less(a) <==> c.less(b)),
{
}

/// Bits of a significand, the leading one aside.
pub const FRACTION_SIZE: u32 = 0x0080_0000;

/// The sums of two ratios that single-precision addition rounds to a number no
/// further than a thousandth from one lie above this count of steps of 2^-25.
pub const UNIT_SUM_ABOVE: u128 = 33_520_877;

/// They reach up to this count of steps of 2^-25.
pub const UNIT_SUM_UP_TO: u128 = 33_587_986;

impl Float32 {
    /// The biased exponent.
    pub open spec fn exponent(self) -> nat {
        self.magnitude() as nat / 0x80_0000
    }

    /// The significand as a whole number, below 2^24.
    pub open spec fn significand(self) -> nat {
        let fraction = self.magnitude() as nat % 0x80_0000;
        if self.exponent() == 0 {
            fraction
        } else {
            fraction + 0x80_0000
        }
    }

    /// How often the significand is doubled, counted from the smallest step.
    pub open spec fn scale(self) -> nat {
        if self.exponent() == 0 {
            0
        } else {
            (self.exponent() - 1) as nat
        }
    }

    /// The size of a finite number in steps of 2^-149.
    pub open spec fn steps(self) -> nat {
        self.significand() * power2::pow2(self.scale())
    }

    fn parts(&self) -> (result: (u32, u32))
        ensures
            result.0 == self.significand(),
            result.1 == self.scale(),
            result.0 < 0x100_0000,
            result.1 <= 255,
    {
        let magnitude: u32 = self.size();
        let exponent: u32 = magnitude / FRACTION_SIZE;
        let fraction: u32 = magnitude % FRACTION_SIZE;
        if exponent == 0 {
            (fraction, 0)
        } else {
            (fraction + FRACTION_SIZE, exponent - 1)
        }
    }
}

/// Powers of two stay in range below the width of the type.
proof fn powers_fit(exponent: nat)
    requires
        exponent <= 127,
    ensures
        0 < power2::pow2(exponent) <= 0x8000_0000_0000_0000_0000_0000_0000_0000,
    decreases exponent,
{
    power2::lemma2_to64_rest();
    power2::lemma_pow2_pos(exponent);
    if exponent > 63 {
        power2::lemma_pow2_adds(63, (exponent - 63) as nat);
        if exponent > 126 {
            power2::lemma_pow2_adds(63, 1);
        }
        powers_below_64((exponent - 63) as nat);
        assert(power2::pow2(63) * power2::pow2((exponent - 63) as nat) <= 0x8000_0000_0000_0000
            * 0x1_0000_0000_0000_0000) by (nonlinear_arith)
            requires
                power2::pow2(63) == 0x8000_0000_0000_0000,
                power2::pow2((exponent - 63) as nat) <= 0x1_0000_0000_0000_0000,
        ;
    } else {
        powers_below_64(exponent);
    }
}

proof fn powers_below_64(exponent: nat)
    requires
        exponent <= 64,
    ensures
        0 < power2::pow2(exponent) <= 0x1_0000_0000_0000_0000,
{
    power2::lemma2_to64();
    power2::lemma_pow2_pos(exponent);
    if exponent < 64 {
        power2::lemma_pow2_strictly_increases(exponent, 64);
    }
}

fn power_of_two(exponent: u32) -> (result: u128)
    requires
        exponent <= 127,
    ensures
        result == power2::pow2(exponent as nat),
        result > 0,
{
    let mut result: u128 = 1;
    let mut done: u32 = 0;
    proof {
        power2::lemma2_to64();
    }
    while done < exponent
        invariant
            done <= exponent <= 127,
            result == power2::pow2(done as nat),
        decreases exponent - done,
    {
        proof {
            powers_fit((done + 1) as nat);
            power2::lemma_pow2_unfold((done + 1) as nat);
        }
        result = result * 2;
        done = done + 1;
    }
    proof {
        powers_fit(exponent as nat);
    }
    result
}

/// Whether two numbers between zero and one sum up, in single precision, to a
/// number no further than a thousandth from one.
pub open spec fn sums_to_one(left: Float32, right: Float32) -> bool {
    UNIT_SUM_ABOVE * power2::pow2(124) < left.steps() + right.steps() <= UNIT_SUM_UP_TO * power2::pow2(124)
}

/// Two halves sum up to one.
pub proof fn halves_sum_to_one()
    ensures
        sums_to_one(Float32 { bits: 0x3f00_0000 }, Float32 { bits: 0x3f00_0000 }),
{
    let half = Float32 { bits: 0x3f00_0000 };
    assert(half.exponent() == 126);
    assert(half.significand() == 0x80_0000);
    power2::lemma_pow2_adds(124, 1);
    power2::lemma2_to64();
    let unit = power2::pow2(124);
    power2::lemma_pow2_pos(124);
    assert(0x80_0000 * (unit * 2) + 0x80_0000 * (unit * 2) == 0x200_0000 * unit) by (nonlinear_arith);
    assert(half.steps() == 0x80_0000 * (unit * 2));
    assert(UNIT_SUM_ABOVE * unit < 0x200_0000 * unit <= UNIT_SUM_UP_TO * unit) by (nonlinear_arith)
        requires
            unit > 0,
            UNIT_SUM_ABOVE < 0x200_0000,
            0x200_0000 <= UNIT_SUM_UP_TO,
    ;
}

/// A number between zero and one in steps of 2^-25 and what is left over, in
/// steps of 2^-149.
fn coarse_steps(value: &Float32) -> (result: (u128, u128))
    requires
        value.scale() <= 126,
    ensures
        value.steps() == result.0 * power2::pow2(124) + result.1,
        result.1 < power2::pow2(124),
        result.0 <= 0x400_0000,
{
    let (significand, scale) = value.parts();
    if scale >= 124 {
        let factor: u128 = power_of_two(scale - 124);
        proof {
            power2::lemma2_to64();
            if scale < 126 {
                power2::lemma_pow2_strictly_increases(
                    (scale - 124) as nat,
                    2,
                );
            }
            assert(factor <= 4);
            power2::lemma_pow2_adds((scale - 124) as nat, 124);
            powers_fit(124);
            assert(significand * (factor * power2::pow2(124)) == (significand * factor) * power2::pow2(124))
                by (nonlinear_arith);
            assert(significand * factor <= 0x100_0000 * 4) by (nonlinear_arith)
                requires
                    significand < 0x100_0000,
                    0 <= factor <= 4,
            ;
        }
        (significand as u128 * factor, 0)
    } else {
        let divisor: u128 = power_of_two(124 - scale);
        let factor: u128 = power_of_two(scale);
        let whole: u128 = significand as u128 / divisor;
        let rest: u128 = significand as u128 % divisor;
        proof {
            power2::lemma_pow2_adds((124 - scale) as nat, scale as nat);
            assert(divisor * factor == power2::pow2(124));
            powers_fit(124);
            assert(significand as int == whole * divisor + rest) by {
                div_mod::lemma_fundamental_div_mod(
                    significand as int,
                    divisor as int,
                );
                assert(whole * divisor == divisor * whole) by (nonlinear_arith);
            }
            assert(significand * factor == whole * (divisor * factor) + rest * factor)
                by (nonlinear_arith)
                requires
                    significand as int == whole * divisor + rest,
            ;
            assert(rest * factor < divisor * factor) by (nonlinear_arith)
                requires
                    0 <= rest < divisor,
                    factor > 0,
            ;
            assert(whole <= significand) by (nonlinear_arith)
                requires
                    whole == significand as u128 / divisor,
                    divisor > 0,
            ;
            assert(0 <= rest * factor) by (nonlinear_arith)
                requires
                    rest >= 0,
                    factor >= 0,
            ;
        }
        (whole, rest * factor)
    }
}

/// Whether two ratios sum up to one.
pub fn ratios_sum_to_one(left: &Float32, right: &Float32) -> (result: bool)
    requires
        left.bits <= ONE_BITS || left.bits == SIGN_BIT,
        right.bits <= ONE_BITS || right.bits == SIGN_BIT,
    ensures
        result == sums_to_one(*left, *right),
{
    let (left_whole, left_rest) = coarse_steps(left);
    let (right_whole, right_rest) = coarse_steps(right);
    let unit: u128 = power_of_two(124);
    proof {
        powers_fit(124);
        power2::lemma2_to64_rest();
        power2::lemma_pow2_adds(62, 62);
        assert(power2::pow2(62) * power2::pow2(62) == 0x1000_0000_0000_0000_0000_0000_0000_0000) by (
        nonlinear_arith)
            requires
                power2::pow2(62) == 0x4000_0000_0000_0000,
        ;
    }
    let rest: u128 = left_rest + right_rest;
    let carried: bool = rest >= unit;
    let whole: u128 = if carried {
        left_whole + right_whole + 1
    } else {
        left_whole + right_whole
    };
    let left_over: u128 = if carried {
        rest - unit
    } else {
        rest
    };
    let ghost total = left.steps() + right.steps();
    proof {
        assert(total == whole * unit + left_over) by (nonlinear_arith)
            requires
                total == (left_whole * unit + left_rest) + (right_whole * unit + right_rest),
                rest == left_rest + right_rest,
                carried ==> whole == left_whole + right_whole + 1 && left_over == rest - unit,
                !carried ==> whole == left_whole + right_whole && left_over == rest,
        ;
        let low = UNIT_SUM_ABOVE as int;
        let high = UNIT_SUM_UP_TO as int;
        assert((low * unit < total) == (whole > low || (whole == low && left_over > 0)))
            by (nonlinear_arith)
            requires
                total == whole * unit + left_over,
                0 <= left_over < unit,
                unit > 0,
        ;
        assert((total <= high * unit) == (whole < high || (whole == high && left_over == 0)))
            by (nonlinear_arith)
            requires
                total == whole * unit + left_over,
                0 <= left_over < unit,
                unit > 0,
        ;
    }
    (whole > UNIT_SUM_ABOVE || (whole == UNIT_SUM_ABOVE && left_over > 0)) && (whole
        < UNIT_SUM_UP_TO || (whole == UNIT_SUM_UP_TO && left_over == 0))
}

/// The power of two that leaves a whole number with 24 digits.
pub open spec fn rounding_step(value: nat) -> nat
    decreases value,
{
    if value < 0x100_0000 {
        1
    } else {
        2 * rounding_step(value / 2)
    }
}

/// A whole number rounded to 24 binary digits, halves to the even neighbour.
pub open spec fn rounded(value: nat) -> nat {
    let step = rounding_step(value);
    let whole = value / step;
    let rest = value % step;
    if 2 * rest > step || (2 * rest == step && whole % 2 == 1) {
        (whole + 1) * step
    } else {
        whole * step
    }
}

/// A whole number times a ratio in single precision, cut to a whole number:
/// nothing where the product is negative or no number, and never more than the
/// largest size.
pub open spec fn share(value: nat, ratio: Float32) -> nat {
    let product = rounded(rounded(value) * ratio.significand());
    if ratio.not_a_number() || ratio.bits >= SIGN_BIT || product == 0 {
        0
    } else if !ratio.finite() {
        usize::MAX as nat
    } else {
        let exact = product * power2::pow2(ratio.scale()) / power2::pow2(149);
        if exact > usize::MAX {
            usize::MAX as nat
        } else {
            exact
        }
    }
}

fn find_rounding_step(value: u128) -> (step: u128)
    requires
        value < 0x10_0000_0000_0000_0000_0000_0000,
    ensures
        step == rounding_step(value as nat),
        0 < step <= 0x10_0000_0000_0000_0000_0000_0000,
{
    let mut step: u128 = 1;
    while value / step >= 0x100_0000
        invariant
            value < 0x10_0000_0000_0000_0000_0000_0000,
            0 < step <= 0x10_0000_0000_0000_0000_0000_0000,
            step * rounding_step((value / step) as nat) == rounding_step(value as nat),
        decreases value / step,
    {
        let ghost digits = value / step;
        proof {
            div_mod::lemma_fundamental_div_mod(value as int, step as int);
            assert(step <= value / 0x100_0000) by (nonlinear_arith)
                requires
                    value == step * digits + value % step,
                    digits >= 0x100_0000,
                    step > 0,
                    value % step >= 0,
            ;
            div_mod::lemma_div_denominator(value as int, step as int, 2);
            assert(step * 2 == 2 * step);
            assert(step * (2 * rounding_step((digits / 2) as nat)) == (step * 2)
                * rounding_step((digits / 2) as nat)) by (nonlinear_arith);
        }
        step = step * 2;
    }
    assert(step * 1 == step);
    step
}

fn round_to_float(value: u128) -> (result: u128)
    requires
        value < 0x10_0000_0000_0000_0000_0000_0000,
    ensures
        result == rounded(value as nat),
        result <= value * 2,
{
    let step: u128 = find_rounding_step(value);
    let whole: u128 = value / step;
    let rest: u128 = value % step;
    proof {
        div_mod::lemma_fundamental_div_mod(value as int, step as int);
        assert(whole * step == step * whole) by (nonlinear_arith);
        assert((whole + 1) * step == whole * step + step) by (nonlinear_arith);
        assert(0 <= whole * step) by (nonlinear_arith)
            requires
                whole >= 0,
                step >= 0,
        ;
        step_is_at_most(value as nat);
    }
    if 2 * rest > step || (2 * rest == step && whole % 2 == 1) {
        (whole + 1) * step
    } else {
        whole * step
    }
}

proof fn step_is_at_most(value: nat)
    ensures
        rounding_step(value) <= value || rounding_step(value) == 1,
    decreases value,
{
    if value >= 0x100_0000 {
        step_is_at_most(value / 2);
    }
}

/// A size times a ratio in single precision, cut to a size.
pub fn scaled(value: usize, ratio: &Float32) -> (result: usize)
    ensures
        result == share(value as nat, *ratio),
{
    let (significand, scale) = ratio.parts();
    let operand: u128 = round_to_float(value as u128);
    proof {
        assert(0 <= operand * significand <= 0x2_0000_0000_0000_0000 * 0x100_0000) by (
        nonlinear_arith)
            requires
                0 <= operand <= 0x2_0000_0000_0000_0000,
                0 <= significand < 0x100_0000,
        ;
    }
    let product: u128 = round_to_float(operand * significand as u128);
    if ratio.is_nan() || ratio.bits >= SIGN_BIT || product == 0 {
        return 0;
    }
    if !ratio.is_finite() {
        return usize::MAX;
    }
    if scale >= 149 {
        if scale >= 149 + 64 {
            proof {
                power2::lemma_pow2_adds((scale - 149) as nat, 149);
                power2::lemma2_to64();
                if scale > 213 {
                    power2::lemma_pow2_strictly_increases(
                        64,
                        (scale - 149) as nat,
                    );
                }
                product_at_scale(product as int, (scale - 149) as nat);
                assert(product * power2::pow2((scale - 149) as nat) > usize::MAX) by (nonlinear_arith)
                    requires
                        product >= 1,
                        power2::pow2((scale - 149) as nat) >= 0x1_0000_0000_0000_0000,
                ;
            }
            return usize::MAX;
        }
        let factor: u128 = power_of_two(scale - 149);
        let most: u128 = usize::MAX as u128 / factor;
        proof {
            product_at_scale(product as int, (scale - 149) as nat);
            div_mod::lemma_fundamental_div_mod(
                usize::MAX as int,
                factor as int,
            );
            let rest = usize::MAX as int % factor as int;
            assert((product > most) == (product * factor > usize::MAX)) by (nonlinear_arith)
                requires
                    usize::MAX as int == factor * most + rest,
                    0 <= rest < factor,
                    factor > 0,
            ;
            assert(product * factor >= 0) by (nonlinear_arith)
                requires
                    product >= 0,
                    factor >= 0,
            ;
        }
        if product > most {
            usize::MAX
        } else {
            (product * factor) as usize
        }
    } else if scale < 22 {
        proof {
            cut_at_scale(product as int, scale as nat);
            power2::lemma_pow2_strictly_increases(127, (149 - scale) as nat);
            power2::lemma2_to64_rest();
            power2::lemma_pow2_adds(63, 64);
            assert(power2::pow2(63) * power2::pow2(64) == 0x8000_0000_0000_0000_0000_0000_0000_0000) by (
            nonlinear_arith)
                requires
                    power2::pow2(63) == 0x8000_0000_0000_0000,
                    power2::pow2(64) == 0x1_0000_0000_0000_0000,
            ;
            assert(product as int / power2::pow2((149 - scale) as nat) as int == 0) by {
                div_mod::lemma_basic_div(
                    product as int,
                    power2::pow2((149 - scale) as nat) as int,
                );
            }
        }
        0
    } else {
        let divisor: u128 = power_of_two(149 - scale);
        let result: u128 = product / divisor;
        proof {
            cut_at_scale(product as int, scale as nat);
        }
        if result > usize::MAX as u128 {
            usize::MAX
        } else {
            result as usize
        }
    }
}

proof fn product_at_scale(product: int, above: nat)
    requires
        0 <= product,
    ensures
        product * power2::pow2(above + 149) / power2::pow2(149) as int == product * power2::pow2(above),
{
    power2::lemma_pow2_adds(above, 149);
    power2::lemma_pow2_pos(149);
    assert(product * (power2::pow2(above) * power2::pow2(149)) == power2::pow2(149) * (product * power2::pow2(above))) by (
    nonlinear_arith);
    div_mod::lemma_div_multiples_vanish(
        product * power2::pow2(above),
        power2::pow2(149) as int,
    );
}

proof fn cut_at_scale(product: int, scale: nat)
    requires
        0 <= product,
        scale < 149,
    ensures
        product * power2::pow2(scale) / power2::pow2(149) as int == product / power2::pow2((149 - scale) as nat) as int,
{
    power2::lemma_pow2_adds(scale, (149 - scale) as nat);
    power2::lemma_pow2_pos(scale);
    power2::lemma_pow2_pos((149 - scale) as nat);
    div_mod::lemma_div_denominator(
        product * power2::pow2(scale),
        power2::pow2(scale) as int,
        power2::pow2((149 - scale) as nat) as int,
    );
    assert(product * power2::pow2(scale) == power2::pow2(scale) * product) by (nonlinear_arith);
    div_mod::lemma_div_multiples_vanish(product, power2::pow2(scale) as int);
}

/// Numbers are ordered as their patterns are: among positive ones the larger
/// pattern is the larger number, among negative ones the smaller, a negative
/// number is less than a positive one, both zeros are equal, and what is no number
/// is neither less nor greater than anything.
pub proof fn patterns_order_the_numbers(left: Float32, right: Float32)
    ensures
        left.not_a_number() || right.not_a_number() ==> !left.less(right),
        left.not_a_number() <==> 0x7f80_0000 < left.bits < 0x8000_0000 || 0xff80_0000 < left.bits,
        !left.not_a_number() && !right.not_a_number() && left.bits < 0x8000_0000 && right.bits
            < 0x8000_0000 ==> (left.less(right) <==> left.bits < right.bits),
        !left.not_a_number() && !right.not_a_number() && left.bits >= 0x8000_0000 && right.bits
            >= 0x8000_0000 ==> (left.less(right) <==> left.bits > right.bits),
        !left.not_a_number() && !right.not_a_number() && left.bits >= 0x8000_0000 && right.bits
            < 0x8000_0000 ==> (left.less(right) <==> left.bits != 0x8000_0000 || right.bits != 0)
            && !right.less(left),
{
}

} // verus!
