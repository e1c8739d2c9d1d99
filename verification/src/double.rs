//! IEEE-754 double-precision numbers as plain data.
//!
//! A [`Double`] is the bit pattern of a double. The library stores, moves and
//! compares such numbers; it never adds or multiplies them. Comparison works
//! on the bits, and [`lemma_order_is_numeric`] says that this is the
//! comparison of the numbers themselves.

use vstd::prelude::*;

verus! {

/// The bit that holds the sign.
pub const SIGN_BIT: u64 = 0x8000_0000_0000_0000;

/// The bit pattern of positive infinity; a larger magnitude is not a number.
pub const INFINITY_BITS: u64 = 0x7ff0_0000_0000_0000;

/// The weight of the lowest exponent bit.
pub const EXPONENT_UNIT: u64 = 0x0010_0000_0000_0000;

/// The bit pattern of the largest finite double.
pub const LARGEST_BITS: u64 = 0x7fef_ffff_ffff_ffff;

/// The bit pattern of the smallest finite double.
pub const SMALLEST_BITS: u64 = 0xffef_ffff_ffff_ffff;

/// The bit pattern of `1.0`.
pub const ONE_BITS: u64 = 0x3ff0_0000_0000_0000;

/// A double-precision number, held by its bit pattern.
#[derive(Clone, Copy, Debug, PartialEq, Eq, Structural)]
pub struct Double {
    pub bits: u64,
}

/// The exact value of the non-negative finite double with bit pattern
/// `magnitude`, counted in units of the smallest positive double.
pub open spec fn units_of_magnitude(magnitude: int) -> int {
    let exponent = magnitude / EXPONENT_UNIT as int;
    let fraction = magnitude % EXPONENT_UNIT as int;
    if exponent == 0 {
        fraction
    } else {
        (EXPONENT_UNIT + fraction) * vstd::arithmetic::power2::pow2((exponent - 1) as nat)
    }
}

impl Double {
    /// The bit pattern without the sign bit.
    pub open spec fn magnitude(self) -> int {
        if self.bits >= SIGN_BIT {
            self.bits - SIGN_BIT
        } else {
            self.bits as int
        }
    }

    /// Whether the sign bit is set.
    pub open spec fn negative(self) -> bool {
        self.bits >= SIGN_BIT
    }

    /// Whether the pattern is not a number.
    pub open spec fn nan(self) -> bool {
        self.magnitude() > INFINITY_BITS
    }

    /// Whether the pattern is an ordinary number, neither infinite nor NaN.
    pub open spec fn finite(self) -> bool {
        self.magnitude() < INFINITY_BITS
    }

    /// The place of the number among all doubles: an integer that is larger
    /// exactly when the number is larger, and the same for both zeros.
    pub open spec fn rank(self) -> int {
        if self.negative() {
            -self.magnitude()
        } else {
            self.magnitude()
        }
    }

    /// The exact value of a finite number in units of the smallest positive
    /// double.
    pub open spec fn units(self) -> int {
        if self.negative() {
            -units_of_magnitude(self.magnitude())
        } else {
            units_of_magnitude(self.magnitude())
        }
    }

    /// `self < other`, which is false when either side is NaN.
    pub open spec fn below(self, other: Double) -> bool {
        !self.nan() && !other.nan() && self.rank() < other.rank()
    }

    /// `self <= other`, which is false when either side is NaN.
    pub open spec fn at_most(self, other: Double) -> bool {
        !self.nan() && !other.nan() && self.rank() <= other.rank()
    }

    /// The number with the opposite sign.
    pub open spec fn negated(self) -> Double {
        if self.negative() {
            Double { bits: (self.bits - SIGN_BIT) as u64 }
        } else {
            Double { bits: (self.bits + SIGN_BIT) as u64 }
        }
    }

    /// The number without its sign.
    pub open spec fn magnitude_double(self) -> Double {
        Double { bits: self.magnitude() as u64 }
    }

    /// Positive zero.
    pub fn zero() -> (res: Double)
        ensures
            res == (Double { bits: 0 }),
            res.units() == 0,
    {
        proof {
            assert(0int / EXPONENT_UNIT as int == 0 && 0int % EXPONENT_UNIT as int == 0);
        }
        Double { bits: 0 }
    }

    /// Whether this is NaN.
    pub fn is_nan(self) -> (res: bool)
        ensures
            res == self.nan(),
    {
        if self.bits >= SIGN_BIT {
            self.bits - SIGN_BIT > INFINITY_BITS
        } else {
            self.bits > INFINITY_BITS
        }
    }

    /// Strictly-less comparison.
    pub fn lt(self, other: Double) -> (res: bool)
        ensures
            res == self.below(other),
    {
        if self.is_nan() || other.is_nan() {
            return false;
        }
        if self.bits >= SIGN_BIT {
            let mine: u64 = self.bits - SIGN_BIT;
            if other.bits >= SIGN_BIT {
                other.bits - SIGN_BIT < mine
            } else {
                mine != 0 || other.bits != 0
            }
        } else if other.bits >= SIGN_BIT {
            false
        } else {
            self.bits < other.bits
        }
    }

    /// Less-or-equal comparison.
    pub fn le(self, other: Double) -> (res: bool)
        ensures
            res == self.at_most(other),
    {
        !self.is_nan() && !other.is_nan() && !other.lt(self)
    }

    /// The number with the opposite sign, exactly.
    pub fn neg(self) -> (res: Double)
        ensures
            res == self.negated(),
            res.rank() == -self.rank(),
            res.nan() == self.nan(),
    {
        if self.bits >= SIGN_BIT {
            Double { bits: self.bits - SIGN_BIT }
        } else {
            Double { bits: self.bits + SIGN_BIT }
        }
    }

    /// The absolute value, exactly.
    pub fn abs(self) -> (res: Double)
        ensures
            res == self.magnitude_double(),
            res.rank() == (if self.rank() < 0 { -self.rank() } else { self.rank() }),
            res.nan() == self.nan(),
    {
        if self.bits >= SIGN_BIT {
            Double { bits: self.bits - SIGN_BIT }
        } else {
            self
        }
    }

    /// The larger of two numbers, the first of equal ones; a NaN loses against
    /// a number.
    pub open spec fn larger(self, other: Double) -> Double {
        if self.nan() || self.below(other) {
            other
        } else {
            self
        }
    }

    /// The smaller of two numbers, the first of equal ones; a NaN loses
    /// against a number.
    pub open spec fn smaller(self, other: Double) -> Double {
        if self.nan() || other.below(self) {
            other
        } else {
            self
        }
    }

    /// The larger of two numbers (see [`Double::larger`]).
    pub fn max(self, other: Double) -> (res: Double)
        ensures
            res == self.larger(other),
    {
        if self.is_nan() || self.lt(other) {
            other
        } else {
            self
        }
    }

    /// The smaller of two numbers (see [`Double::smaller`]).
    pub fn min(self, other: Double) -> (res: Double)
        ensures
            res == self.smaller(other),
    {
        if self.is_nan() || other.lt(self) {
            other
        } else {
            self
        }
    }

    /// The number held inside `[low, high]`: the nearer bound where it lies
    /// outside, itself where it lies inside or is NaN.
    pub fn clamp(self, low: Double, high: Double) -> (res: Double)
        requires
            low.at_most(high),
        ensures
            res == self.clamped(low, high),
            !self.nan() ==> low.at_most(res) && res.at_most(high),
    {
        if self.lt(low) {
            low
        } else if high.lt(self) {
            high
        } else {
            self
        }
    }

    /// What [`Double::clamp`] returns.
    pub open spec fn clamped(self, low: Double, high: Double) -> Double {
        if self.below(low) {
            low
        } else if high.below(self) {
            high
        } else {
            self
        }
    }
}

proof fn lemma_pow2_grows(a: nat, b: nat)
    requires
        a <= b,
    ensures
        0 < vstd::arithmetic::power2::pow2(a) <= vstd::arithmetic::power2::pow2(b),
{
    vstd::arithmetic::power2::lemma_pow2_pos(a);
    if a < b {
        vstd::arithmetic::power2::lemma_pow2_strictly_increases(a, b);
    }
}

proof fn lemma_units_grow(a: int, b: int)
    requires
        0 <= a < b,
    ensures
        0 <= units_of_magnitude(a) < units_of_magnitude(b),
{
    let u = EXPONENT_UNIT as int;
    let (ea, eb) = (a / u, b / u);
    let (fa, fb) = (a % u, b % u);
    assert(ea <= eb) by (nonlinear_arith)
        requires
            a < b,
            u == 0x0010_0000_0000_0000,
            ea == a / u,
            eb == b / u,
    ;
    assert(a == ea * u + fa && b == eb * u + fb && 0 <= fa < u && 0 <= fb < u) by (nonlinear_arith)
        requires
            u == 0x0010_0000_0000_0000,
            ea == a / u,
            eb == b / u,
            fa == a % u,
            fb == b % u,
    ;
    if ea == eb {
        if ea > 0 {
            let p = vstd::arithmetic::power2::pow2((ea - 1) as nat) as int;
            lemma_pow2_grows((ea - 1) as nat, (ea - 1) as nat);
            assert(0 <= (u + fa) * p < (u + fb) * p) by (nonlinear_arith)
                requires
                    0 <= fa < fb,
                    0 < p,
                    0 < u,
            ;
        }
    } else {
        let q = vstd::arithmetic::power2::pow2((eb - 1) as nat) as int;
        lemma_pow2_grows(0, (eb - 1) as nat);
        vstd::arithmetic::power2::lemma2_to64();
        assert(u <= (u + fb) * q) by (nonlinear_arith)
            requires
                1 <= q,
                0 <= fb,
                0 < u,
        ;
        if ea > 0 {
            let p = vstd::arithmetic::power2::pow2((ea - 1) as nat) as int;
            lemma_pow2_grows((ea - 1) as nat, (ea - 1) as nat);
            vstd::arithmetic::power2::lemma_pow2_unfold(ea as nat);
            lemma_pow2_grows(ea as nat, (eb - 1) as nat);
            assert(0 <= (u + fa) * p < (u + fb) * q) by (nonlinear_arith)
                requires
                    0 <= fa < u,
                    0 <= fb,
                    0 < p,
                    2 * p <= q,
            ;
        }
    }
}

/// The order on bit patterns is the order of the numbers: of two finite
/// doubles, one has the smaller rank exactly when its exact value is smaller.
pub proof fn lemma_order_is_numeric(a: Double, b: Double)
    requires
        a.finite(),
        b.finite(),
    ensures
        a.below(b) <==> a.units() < b.units(),
        a.at_most(b) <==> a.units() <= b.units(),
{
    let (ma, mb) = (a.magnitude(), b.magnitude());
    assert(units_of_magnitude(0) == 0) by {
        assert(0int / EXPONENT_UNIT as int == 0 && 0int % EXPONENT_UNIT as int == 0);
    }
    if ma < mb {
        lemma_units_grow(ma, mb);
    }
    if mb < ma {
        lemma_units_grow(mb, ma);
    }
    if ma > 0 {
        lemma_units_grow(0, ma);
    }
    if mb > 0 {
        lemma_units_grow(0, mb);
    }
}

/// The bit pattern of nothing but zeros is the number zero.
pub proof fn lemma_zero_is_nought()
    ensures
        (Double { bits: 0 }).units() == 0,
        (Double { bits: 0 }).finite(),
{
    assert(0int / EXPONENT_UNIT as int == 0 && 0int % EXPONENT_UNIT as int == 0);
}

/// Of two numbers the larger one is one of them and at least each of them, and
/// the smaller one at most each of them; a NaN gives way to a number. A number
/// is held inside bounds by the bound that it lies beyond, and stays where it
/// lies between them.
pub proof fn lemma_extremes_and_bounds(a: Double, b: Double, low: Double, high: Double)
    ensures
        !a.nan() && !b.nan() ==> a.larger(b).rank() >= a.rank() && a.larger(b).rank() >= b.rank()
            && (a.larger(b) == a || a.larger(b) == b),
        !a.nan() && !b.nan() ==> a.smaller(b).rank() <= a.rank() && a.smaller(b).rank() <= b.rank()
            && (a.smaller(b) == a || a.smaller(b) == b),
        a.nan() ==> a.larger(b) == b && a.smaller(b) == b,
        !a.nan() && b.nan() ==> a.larger(b) == a && a.smaller(b) == a,
        low.at_most(high) && a.below(low) ==> a.clamped(low, high) == low,
        low.at_most(high) && high.below(a) ==> a.clamped(low, high) == high,
        low.at_most(a) && a.at_most(high) ==> a.clamped(low, high) == a,
{
}

/// A number and its opposite lie equally far from zero on the two sides, and
/// the opposite of the opposite is the number itself.
pub proof fn lemma_opposites(a: Double)
    ensures
        a.negated().negated() == a,
        a.negated().rank() == -a.rank(),
        a.negated().units() == -a.units(),
        a.magnitude_double().units() == (if a.units() < 0 {
            -a.units()
        } else {
            a.units()
        }),
{
    assert(units_of_magnitude(a.magnitude()) >= 0) by {
        let m = a.magnitude();
        let unit = EXPONENT_UNIT as int;
        assert(m % unit >= 0);
        if m / unit != 0 {
            vstd::arithmetic::power2::lemma_pow2_pos((m / unit - 1) as nat);
            let p = vstd::arithmetic::power2::pow2((m / unit - 1) as nat) as int;
            let f = EXPONENT_UNIT + m % unit;
            assert(f * p >= 0) by (nonlinear_arith)
                requires
                    f >= 0,
                    p >= 0,
            ;
        }
    }
}

// ---------------------------------------------------------------------------
// Whole numbers as doubles
// ---------------------------------------------------------------------------

/// The first whole number above which not every whole number is a double.
pub const EXACT_LIMIT: u64 = 0x0020_0000_0000_0000;

/// How often `n` has to be halved to lie below [`EXACT_LIMIT`].
pub open spec fn halvings(n: nat) -> nat
    decreases n,
{
    if n < EXACT_LIMIT {
        0
    } else {
        1 + halvings(n / 2)
    }
}

/// `n` rounded to a multiple of `unit`, a tie to the even multiple.
pub open spec fn rounded_to(n: nat, unit: nat) -> nat {
    let (q, r) = (n / unit, n % unit);
    if 2 * r > unit || (2 * r == unit && q % 2 == 1) {
        (q + 1) * unit
    } else {
        q * unit
    }
}

/// The double nearest to `n`, a tie to the even one, as a whole number.
pub open spec fn nearest_whole(n: nat) -> nat {
    rounded_to(n, vstd::arithmetic::power2::pow2(halvings(n)))
}

/// Rounding gives a multiple of the unit that lies at most half a unit away,
/// and an even one where two are equally near.
pub proof fn lemma_rounded_to(n: nat, unit: nat)
    requires
        unit > 0,
    ensures
        exists|k: nat| rounded_to(n, unit) == #[trigger] (k * unit),
        2 * (rounded_to(n, unit) - n) <= unit,
        2 * (n - rounded_to(n, unit)) <= unit,
        2 * (n % unit) == unit ==> exists|k: nat|
            rounded_to(n, unit) == #[trigger] ((2 * k) * unit),
        n < EXACT_LIMIT ==> nearest_whole(n) == n,
{
    let (q, r) = (n / unit, n % unit);
    if 2 * r == unit {
        let k: nat = if q % 2 == 1 {
            (q + 1) / 2
        } else {
            q / 2
        };
        assert(2 * k == q || 2 * k == q + 1);
        assert(rounded_to(n, unit) == (2 * k) * unit);
    }
    vstd::arithmetic::div_mod::lemma_fundamental_div_mod(n as int, unit as int);
    assert(unit * q == q * unit) by (nonlinear_arith);
    assert((q + 1) * unit == q * unit + unit) by (nonlinear_arith);
    if 2 * r > unit || (2 * r == unit && q % 2 == 1) {
        assert(rounded_to(n, unit) == (q + 1) * unit);
    } else {
        assert(rounded_to(n, unit) == q * unit);
    }
    vstd::arithmetic::power2::lemma2_to64();
    if n < EXACT_LIMIT {
        assert(halvings(n) == 0);
        assert(vstd::arithmetic::power2::pow2(0) == 1);
        assert(n / 1 == n && n % 1 == 0);
    }
}

/// The double nearest to the whole number `n`.
pub open spec fn double_of_count(n: nat) -> Double {
    choose|d: Double|
        {
            &&& !d.negative()
            &&& d.finite()
            &&& #[trigger] d.units() == nearest_whole(n) * vstd::arithmetic::power2::pow2(1074)
        }
}

/// The double nearest to the whole number `n`.
pub open spec fn double_of_integer(n: int) -> Double {
    if n < 0 {
        double_of_count((-n) as nat).negated()
    } else {
        double_of_count(n as nat)
    }
}

proof fn lemma_count_unique(d: Double, n: nat)
    requires
        !d.negative(),
        d.finite(),
        d.units() == nearest_whole(n) * vstd::arithmetic::power2::pow2(1074),
    ensures
        d == double_of_count(n),
{
    let other = double_of_count(n);
    assert(!other.negative() && other.finite() && other.units() == nearest_whole(n)
        * vstd::arithmetic::power2::pow2(1074));
    if d.magnitude() < other.magnitude() {
        lemma_units_grow(d.magnitude(), other.magnitude());
    }
    if other.magnitude() < d.magnitude() {
        lemma_units_grow(other.magnitude(), d.magnitude());
    }
}

/// The double `mantissa * 2^(exponent - 52)`.
fn assemble(mantissa: u64, exponent: u64) -> (res: Double)
    requires
        EXPONENT_UNIT <= mantissa < EXACT_LIMIT,
        exponent <= 64,
    ensures
        !res.negative(),
        res.finite(),
        res.units() == mantissa * vstd::arithmetic::power2::pow2((exponent + 1022) as nat),
{
    let bits: u64 = (exponent + 1023) * EXPONENT_UNIT + (mantissa - EXPONENT_UNIT);
    proof {
        let u = EXPONENT_UNIT as int;
        let f = mantissa - EXPONENT_UNIT;
        let e = exponent + 1023;
        assert(bits as int == e * u + f);
        assert(bits as int / u == e && bits as int % u == f) by (nonlinear_arith)
            requires
                bits as int == e * u + f,
                0 <= f < u,
                u == 0x0010_0000_0000_0000,
        ;
    }
    Double { bits }
}

impl Double {
    /// The double nearest to a whole number, a tie to the even one.
    pub fn of_count(n: u64) -> (res: Double)
        ensures
            res == double_of_count(n as nat),
            res.finite(),
            !res.negative(),
            res.units() == nearest_whole(n as nat) * vstd::arithmetic::power2::pow2(1074),
    {
        proof {
            vstd::arithmetic::power2::lemma2_to64();
        }
        if n == 0 {
            let res = Double::zero();
            proof {
                assert(nearest_whole(0) == 0);
                lemma_count_unique(res, 0);
            }
            return res;
        }
        let mut k: u64 = 0;
        let mut top: u64 = n;
        let mut unit: u64 = 1;
        while top >= EXACT_LIMIT
            invariant
                n >= 1,
                k <= 11,
                unit == vstd::arithmetic::power2::pow2(k as nat),
                top == n as nat / unit as nat,
                top >= EXPONENT_UNIT || k == 0,
                halvings(n as nat) == k + halvings(top as nat),
                1 <= unit <= 2048,
                top * unit <= n,
            decreases top,
        {
            assert(top * unit >= EXACT_LIMIT * unit) by (nonlinear_arith)
                requires
                    top >= EXACT_LIMIT,
                    unit >= 0,
            ;
            assert(unit < 2048);
            proof {
                vstd::arithmetic::power2::lemma2_to64();
                assert(k != 11);
                lemma_pow2_grows(k as nat, 10);
                assert(unit <= 1024);
                vstd::arithmetic::power2::lemma_pow2_unfold((k + 1) as nat);
                vstd::arithmetic::div_mod::lemma_div_denominator(n as int, unit as int, 2);
            }
            top = top / 2;
            unit = unit * 2;
            k = k + 1;
            assert(top * unit <= n) by (nonlinear_arith)
                requires
                    top == n as nat / unit as nat,
                    unit >= 1,
            ;
        }
        let q: u64 = n / unit;
        let r: u64 = n % unit;
        let up = 2 * r > unit || (2 * r == unit && q % 2 == 1);
        let whole: u64 = if up {
            q + 1
        } else {
            q
        };
        assert(halvings(n as nat) == k);
        let ghost rounded = nearest_whole(n as nat);
        assert(rounded == whole * unit);
        assert(k == 0 ==> unit == 1 && r == 0 && whole == n);
        let mut mantissa: u64 = whole;
        let mut exponent: u64 = 52 + k;
        if mantissa == EXACT_LIMIT {
            mantissa = EXPONENT_UNIT;
            exponent = exponent + 1;
        }
        let ghost start = mantissa as int * vstd::arithmetic::power2::pow2((exponent + 1022) as nat);
        proof {
            vstd::arithmetic::power2::lemma_pow2_adds(k as nat, 1074);
            let p = vstd::arithmetic::power2::pow2((k + 1074) as nat) as int;
            let p0 = vstd::arithmetic::power2::pow2(1074) as int;
            assert(rounded * p0 == whole * p) by (nonlinear_arith)
                requires
                    rounded == whole * unit,
                    p == unit * p0,
            ;
            if whole == EXACT_LIMIT {
                vstd::arithmetic::power2::lemma_pow2_unfold((k + 1075) as nat);
                let p2 = vstd::arithmetic::power2::pow2((k + 1075) as nat) as int;
                assert(EXPONENT_UNIT * p2 == EXACT_LIMIT * p) by (nonlinear_arith)
                    requires
                        p2 == 2 * p,
                ;
            }
            assert(start == rounded * p0);
        }
        while mantissa < EXPONENT_UNIT
            invariant
                1 <= mantissa < EXACT_LIMIT,
                exponent <= 64,
                mantissa < EXPONENT_UNIT ==> exponent <= 52,
                mantissa as int * vstd::arithmetic::power2::pow2((exponent + 1022) as nat) == start,
                exponent >= 1 || mantissa >= EXPONENT_UNIT,
                mantissa < EXPONENT_UNIT ==> mantissa >= vstd::arithmetic::power2::pow2(
                    (52 - exponent) as nat,
                ),
            decreases exponent,
        {
            proof {
                vstd::arithmetic::power2::lemma_pow2_unfold((exponent + 1022) as nat);
                let p = vstd::arithmetic::power2::pow2((exponent + 1022) as nat) as int;
                let p1 = vstd::arithmetic::power2::pow2((exponent + 1021) as nat) as int;
                assert(mantissa * p == (2 * mantissa) * p1) by (nonlinear_arith)
                    requires
                        p == 2 * p1,
                ;
                vstd::arithmetic::power2::lemma_pow2_unfold((53 - exponent) as nat);
                if exponent == 1 {
                    vstd::arithmetic::power2::lemma2_to64();
                }
            }
            mantissa = mantissa * 2;
            exponent = exponent - 1;
            proof {
                vstd::arithmetic::power2::lemma2_to64_rest();
                vstd::arithmetic::power2::lemma2_to64();
            }
        }
        let res = assemble(mantissa, exponent);
        proof {
            lemma_count_unique(res, n as nat);
        }
        res
    }

    /// The double nearest to a whole number of either sign.
    pub fn of_integer(n: i64) -> (res: Double)
        ensures
            res == double_of_integer(n as int),
            res.finite(),
    {
        if n < 0 {
            let magnitude: u64 = (-(n as i128)) as u64;
            Double::of_count(magnitude).neg()
        } else {
            Double::of_count(n as u64)
        }
    }
}

} // verus!
