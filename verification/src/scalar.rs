//! Binary64 numbers as bit patterns, and their order.

use vstd::prelude::*;
use vstd::arithmetic::div_mod::{
    lemma_basic_div, lemma_div_is_ordered, lemma_div_multiples_vanish,
    lemma_div_multiples_vanish_quotient,
};
use vstd::arithmetic::power2::{
    lemma2_to64, lemma2_to64_rest, lemma_pow2_adds, lemma_pow2_pos, lemma_pow2_strictly_increases,
    lemma_pow2_unfold, pow2,
};

verus! {

/// The bit that holds the sign.
pub const SIGN_BIT: u64 = 0x8000_0000_0000_0000;

/// The weight of the implicit leading bit of a normal number: 2^52.
pub const HIDDEN_BIT: u64 = 0x0010_0000_0000_0000;

/// The magnitude bits of an infinity. Larger magnitudes are not numbers.
pub const INFINITY_BITS: u64 = 0x7ff0_0000_0000_0000;

/// A binary64 number, held by its bit pattern: one sign bit, eleven exponent
/// bits, fifty-two fraction bits.
#[derive(Clone, Copy, Debug)]
pub struct Scalar {
    pub bits: u64,
}

impl Scalar {
    /// The bits below the sign bit.
    pub open spec fn magnitude(self) -> nat {
        (self.bits % SIGN_BIT) as nat
    }

    /// Whether the sign bit is set.
    pub open spec fn sign(self) -> bool {
        self.bits >= SIGN_BIT
    }

    /// The biased exponent field.
    pub open spec fn exponent(self) -> nat {
        self.magnitude() / (HIDDEN_BIT as nat)
    }

    /// The fraction field.
    pub open spec fn fraction(self) -> nat {
        self.magnitude() % (HIDDEN_BIT as nat)
    }

    /// Whether the pattern stands for no number at all.
    pub open spec fn is_nan(self) -> bool {
        self.magnitude() > INFINITY_BITS
    }

    /// Whether the pattern is one of the two infinities.
    pub open spec fn is_infinite(self) -> bool {
        self.magnitude() == INFINITY_BITS
    }

    /// The absolute value, counted in units of 2^-1074, the smallest positive
    /// binary64 number. A subnormal counts its fraction; a normal number adds
    /// the hidden bit and scales by its exponent. An infinity falls under the
    /// same formula, which puts it beyond every finite number.
    pub open spec fn ulps(self) -> nat {
        if self.exponent() == 0 {
            self.fraction()
        } else {
            (HIDDEN_BIT as nat + self.fraction()) * pow2((self.exponent() - 1) as nat)
        }
    }

    /// The signed value in units of 2^-1074. Both zeros have value 0.
    pub open spec fn value(self) -> int {
        if self.sign() {
            -(self.ulps() as int)
        } else {
            self.ulps() as int
        }
    }

    /// Numeric `<`: false as soon as either side is not a number.
    pub open spec fn less(self, other: Scalar) -> bool {
        !self.is_nan() && !other.is_nan() && self.value() < other.value()
    }

    /// Whether the number is above zero.
    pub open spec fn is_positive(self) -> bool {
        !self.is_nan() && self.value() > 0
    }

    /// Whether the number is below zero.
    pub open spec fn is_negative(self) -> bool {
        !self.is_nan() && self.value() < 0
    }

    /// The whole part of the absolute value.
    pub open spec fn whole(self) -> nat {
        self.ulps() / pow2(1074)
    }

    /// The number cut down to its whole part and held to the range of
    /// `i32`; zero for what is not a number.
    pub open spec fn truncated(self) -> int {
        let whole = if self.sign() {
            -(self.whole() as int)
        } else {
            self.whole() as int
        };
        if self.is_nan() {
            0
        } else if whole < i32::MIN {
            i32::MIN as int
        } else if whole > i32::MAX {
            i32::MAX as int
        } else {
            whole
        }
    }

    /// The sign-and-magnitude reading of the bits as one integer.
    pub open spec fn key(self) -> int {
        if self.sign() {
            -(self.magnitude() as int)
        } else {
            self.magnitude() as int
        }
    }

    /// The pattern with the sign bit flipped.
    pub open spec fn negated(self) -> Scalar {
        if self.sign() {
            Scalar { bits: (self.bits - SIGN_BIT) as u64 }
        } else {
            Scalar { bits: (self.bits + SIGN_BIT) as u64 }
        }
    }

    /// The number with the given bit pattern.
    pub fn from_bits(bits: u64) -> (r: Scalar)
        ensures
            r.bits == bits,
    {
        Scalar { bits }
    }

    /// The number's bit pattern.
    pub fn to_bits(self) -> (bits: u64)
        ensures
            bits == self.bits,
    {
        self.bits
    }

    /// Whether the pattern stands for no number at all.
    pub fn nan(self) -> (r: bool)
        ensures
            r == self.is_nan(),
    {
        self.bits % SIGN_BIT > INFINITY_BITS
    }

    fn ordinal(self) -> (k: i64)
        ensures
            k == self.key(),
    {
        let magnitude: u64 = self.bits % SIGN_BIT;
        if self.bits >= SIGN_BIT {
            -(magnitude as i64)
        } else {
            magnitude as i64
        }
    }

    /// `self < other` as binary64 numbers.
    pub fn lt(self, other: Scalar) -> (r: bool)
        ensures
            r == self.less(other),
    {
        if self.nan() || other.nan() {
            false
        } else {
            proof {
                lemma_key_orders_values(self, other);
            }
            self.ordinal() < other.ordinal()
        }
    }

    /// `self > other` as binary64 numbers.
    pub fn gt(self, other: Scalar) -> (r: bool)
        ensures
            r == other.less(self),
    {
        other.lt(self)
    }

    /// The number with its sign flipped. What is not a number stays so.
    pub fn neg(self) -> (r: Scalar)
        ensures
            r == self.negated(),
            r.is_nan() == self.is_nan(),
            r.value() == -self.value(),
    {
        if self.bits >= SIGN_BIT {
            Scalar { bits: self.bits - SIGN_BIT }
        } else {
            Scalar { bits: self.bits + SIGN_BIT }
        }
    }

    /// The number as an integer: its fraction is dropped, a number beyond
    /// the range of `i32` gives the nearest end of the range, and what is
    /// not a number gives zero.
    pub fn to_i32(self) -> (r: i32)
        ensures
            r == self.truncated(),
    {
        let magnitude: u64 = self.bits % SIGN_BIT;
        let negative: bool = self.bits >= SIGN_BIT;
        if magnitude > INFINITY_BITS {
            return 0;
        }
        let exponent: u64 = magnitude / HIDDEN_BIT;
        let significand: u64 = HIDDEN_BIT + magnitude % HIDDEN_BIT;
        if exponent < 1023 {
            proof {
                lemma_below_one(self);
            }
            return 0;
        }
        if exponent >= 1054 {
            proof {
                lemma_beyond_i32(self);
            }
            return if negative {
                i32::MIN
            } else {
                i32::MAX
            };
        }
        let shift: u32 = (1075 - exponent) as u32;
        let divisor: u64 = power_of_two(shift);
        proof {
            lemma_pow2_pos(shift as nat);
            lemma_whole_by_shift(self);
        }
        let whole: u64 = significand / divisor;
        if negative {
            (-(whole as i64)) as i32
        } else {
            whole as i32
        }
    }

    /// The whole number `n`, which binary64 holds exactly.
    pub fn from_u32(n: u32) -> (r: Scalar)
        ensures
            !r.is_nan(),
            !r.sign(),
            r.value() == n * pow2(1074),
            n <= i32::MAX ==> r.truncated() == n,
    {
        if n == 0 {
            proof {
                lemma_pow2_pos(1074);
                lemma_basic_div(0, pow2(1074) as int);
            }
            return Scalar { bits: 0 };
        }
        let mut k: u32 = 0;
        let mut p: u32 = 1;
        proof {
            lemma2_to64();
        }
        while n - p >= p
            invariant
                k < 32,
                p == pow2(k as nat),
                0 < p <= n,
            decreases n - p,
        {
            proof {
                lemma_pow2_unfold((k + 1) as nat);
                lemma2_to64();
            }
            p = p * 2;
            k = k + 1;
        }
        let scale: u64 = power_of_two(52 - k);
        proof {
            lemma_leading_bit(n as nat, k as nat);
        }
        let fraction: u64 = (n - p) as u64 * scale;
        let r = Scalar { bits: (1023 + k as u64) * HIDDEN_BIT + fraction };
        proof {
            assert(r.exponent() == 1023 + k && r.fraction() == fraction) by {
                vstd::arithmetic::div_mod::lemma_fundamental_div_mod_converse(
                    r.magnitude() as int,
                    HIDDEN_BIT as int,
                    1023 + k,
                    fraction as int,
                );
            }
            lemma_pow2_pos(1074);
            lemma_div_multiples_vanish(n as int, pow2(1074) as int);
            assert(pow2(1074) * n == n * pow2(1074)) by (nonlinear_arith);
        }
        r
    }

    /// Zero, with a clear sign bit.
    pub open spec fn spec_zero() -> Scalar {
        Scalar { bits: 0 }
    }

    /// One.
    pub open spec fn spec_one() -> Scalar {
        Scalar { bits: 0x3ff0_0000_0000_0000 }
    }

    /// Zero, with a clear sign bit.
    #[verifier::when_used_as_spec(spec_zero)]
    pub fn zero() -> (r: Scalar)
        ensures
            r == Scalar::spec_zero(),
            r.value() == 0,
            !r.is_nan(),
            forall|s: Scalar| #[trigger] r.less(s) == s.is_positive(),
            forall|s: Scalar| #[trigger] s.less(r) == s.is_negative(),
    {
        Scalar { bits: 0 }
    }

    /// One: 2^1074 units of 2^-1074.
    #[verifier::when_used_as_spec(spec_one)]
    pub fn one() -> (r: Scalar)
        ensures
            r == Scalar::spec_one(),
            r.value() == pow2(1074),
            r.is_positive(),
    {
        let r = Scalar { bits: 0x3ff0_0000_0000_0000 };
        proof {
            assert(r.exponent() == 1023 && r.fraction() == 0);
            lemma2_to64_rest();
            lemma_pow2_adds(52, 1022);
            lemma_pow2_pos(1074);
        }
        r
    }

    /// Positive infinity: above every other number.
    pub fn infinity() -> (r: Scalar)
        ensures
            r.bits == INFINITY_BITS,
            !r.is_nan(),
            forall|s: Scalar| !s.is_nan() ==> #[trigger] s.value() <= r.value(),
            forall|s: Scalar| !s.is_nan() && s.bits != r.bits ==> #[trigger] s.less(r),
    {
        let r = Scalar { bits: INFINITY_BITS };
        proof {
            assert forall|s: Scalar| !s.is_nan() implies #[trigger] s.value() <= r.value() by {
                lemma_key_orders_values(s, r);
            }
            assert forall|s: Scalar| !s.is_nan() && s.bits != r.bits implies #[trigger] s.less(
                r,
            ) by {
                lemma_key_orders_values(s, r);
            }
        }
        r
    }
}

/// Two to the power `k`.
fn power_of_two(k: u32) -> (p: u64)
    requires
        k < 64,
    ensures
        p == pow2(k as nat),
{
    let mut p: u64 = 1;
    let mut i: u32 = 0;
    proof {
        lemma2_to64();
        lemma2_to64_rest();
    }
    while i < k
        invariant
            i <= k,
            k < 64,
            p == pow2(i as nat),
            p <= pow2(63),
        decreases k - i,
    {
        proof {
            lemma_pow2_unfold((i + 1) as nat);
            if i + 1 < 63 {
                lemma_pow2_strictly_increases((i + 1) as nat, 63);
            }
            lemma2_to64_rest();
        }
        p = p * 2;
        i = i + 1;
    }
    p
}

/// A whole number `n` whose leading bit is 2^k, written with that bit
/// hidden and its lower bits moved to the top of the fraction, counts
/// `n * 2^1074` units.
proof fn lemma_leading_bit(n: nat, k: nat)
    requires
        k < 32,
        pow2(k) <= n < 2 * pow2(k),
    ensures
        (n - pow2(k)) * pow2((52 - k) as nat) < HIDDEN_BIT,
        (HIDDEN_BIT + (n - pow2(k)) * pow2((52 - k) as nat)) * pow2(1022 + k) == n * pow2(1074),
{
    let p: int = pow2(k) as int;
    let s: int = pow2((52 - k) as nat) as int;
    let t: int = pow2(1022 + k) as int;
    lemma2_to64_rest();
    lemma_pow2_pos((52 - k) as nat);
    lemma_pow2_adds(k, (52 - k) as nat);
    lemma_pow2_adds((52 - k) as nat, 1022 + k);
    assert(p * s == HIDDEN_BIT);
    assert(s * t == pow2(1074));
    assert((n - p) * s < p * s) by (nonlinear_arith)
        requires
            n - p < p,
            s > 0,
    ;
    assert((p * s + (n - p) * s) * t == n * (s * t)) by (nonlinear_arith);
}

/// A number with an exponent field below that of one has no whole part.
proof fn lemma_below_one(s: Scalar)
    requires
        s.exponent() < 1023,
    ensures
        s.whole() == 0,
{
    let h: nat = HIDDEN_BIT as nat;
    let e: nat = s.exponent();
    let f: nat = s.fraction();
    lemma2_to64_rest();
    if e == 0 {
        lemma_pow2_strictly_increases(52, 1074);
    } else {
        let p: nat = pow2((e - 1) as nat);
        lemma_pow2_pos((e - 1) as nat);
        assert((h + f) * p < (2 * h) * p) by (nonlinear_arith)
            requires
                f < h,
                p > 0,
        ;
        lemma_pow2_adds(53, (e - 1) as nat);
        assert(2 * h == pow2(53));
        if 52 + e < 1074 {
            lemma_pow2_strictly_increases(52 + e, 1074);
        }
    }
    lemma_basic_div(s.ulps() as int, pow2(1074) as int);
}

/// A number with an exponent field of 1054 or more is at least 2^31 in
/// absolute value.
proof fn lemma_beyond_i32(s: Scalar)
    requires
        s.exponent() >= 1054,
    ensures
        s.whole() >= 0x8000_0000,
{
    let h: nat = HIDDEN_BIT as nat;
    let e: nat = s.exponent();
    let f: nat = s.fraction();
    let p: nat = pow2((e - 1) as nat);
    let unit: nat = pow2(1074);
    lemma2_to64();
    lemma2_to64_rest();
    lemma_pow2_pos(1074);
    lemma_pow2_adds(31, 1022);
    lemma_pow2_adds(52, 1053);
    lemma_pow2_adds(31, 1074);
    if 1053 < e - 1 {
        lemma_pow2_strictly_increases(1053, (e - 1) as nat);
    }
    assert(h * pow2(1053) <= (h + f) * p) by (nonlinear_arith)
        requires
            pow2(1053) <= p,
            h > 0,
    ;
    assert(pow2(31) * unit <= s.ulps());
    lemma_div_is_ordered((pow2(31) * unit) as int, s.ulps() as int, unit as int);
    lemma_div_multiples_vanish(pow2(31) as int, unit as int);
    assert(unit * pow2(31) == pow2(31) * unit) by (nonlinear_arith);
}

/// The whole part of a number between one and 2^31 is its significand,
/// shifted right by what its exponent leaves of the fraction's width.
proof fn lemma_whole_by_shift(s: Scalar)
    requires
        1023 <= s.exponent() < 1054,
    ensures
        s.whole() == (HIDDEN_BIT + s.fraction()) as nat / pow2((1075 - s.exponent()) as nat),
        s.whole() < 0x8000_0000,
{
    let h: nat = HIDDEN_BIT as nat;
    let e: nat = s.exponent();
    let f: nat = s.fraction();
    let p: nat = pow2((e - 1) as nat);
    let shift: nat = (1075 - e) as nat;
    let d: nat = pow2(shift);
    lemma2_to64();
    lemma2_to64_rest();
    lemma_pow2_pos((e - 1) as nat);
    lemma_pow2_pos(shift);
    lemma_pow2_adds((e - 1) as nat, shift);
    assert(pow2(1074) == p * d);
    lemma_div_multiples_vanish_quotient(p as int, (h + f) as int, d as int);
    assert((h + f) * p == p * (h + f)) by (nonlinear_arith);
    let rest: nat = (53 - shift) as nat;
    lemma_pow2_adds(shift, rest);
    if rest < 31 {
        lemma_pow2_strictly_increases(rest, 31);
    }
    let q: nat = (h + f) / d;
    vstd::arithmetic::div_mod::lemma_fundamental_div_mod((h + f) as int, d as int);
    assert(q < pow2(rest)) by (nonlinear_arith)
        requires
            h + f < d * pow2(rest),
            h + f >= d * q,
            d > 0,
    ;
}

/// A larger magnitude field is a larger absolute value.
pub proof fn lemma_ulps_increase(a: Scalar, b: Scalar)
    requires
        a.magnitude() < b.magnitude(),
    ensures
        a.ulps() < b.ulps(),
{
    let h: nat = HIDDEN_BIT as nat;
    let ea: nat = a.exponent();
    let eb: nat = b.exponent();
    let fa: nat = a.fraction();
    let fb: nat = b.fraction();
    assert(a.magnitude() == ea * h + fa && fa < h);
    assert(b.magnitude() == eb * h + fb && fb < h);
    assert(ea <= eb) by (nonlinear_arith)
        requires
            ea * h + fa < eb * h + fb,
            fa < h,
            fb < h,
    ;
    if ea == eb {
        if ea > 0 {
            let p: nat = pow2((ea - 1) as nat);
            lemma_pow2_pos((ea - 1) as nat);
            assert((h + fa) * p < (h + fb) * p) by (nonlinear_arith)
                requires
                    fa < fb,
                    p > 0,
            ;
        }
    } else {
        let q: nat = pow2((eb - 1) as nat);
        lemma_pow2_pos((eb - 1) as nat);
        assert(h * q <= (h + fb) * q) by (nonlinear_arith);
        assert(h <= h * q) by (nonlinear_arith)
            requires
                q > 0,
        ;
        if ea > 0 {
            let p: nat = pow2((ea - 1) as nat);
            lemma_pow2_pos((ea - 1) as nat);
            lemma_pow2_unfold(ea);
            if ea < eb - 1 {
                lemma_pow2_strictly_increases(ea, (eb - 1) as nat);
            }
            assert(pow2(ea) <= q);
            assert((h + fa) * p < h * (2 * p)) by (nonlinear_arith)
                requires
                    fa < h,
                    p > 0,
            ;
            assert(h * (2 * p) <= h * q) by (nonlinear_arith)
                requires
                    2 * p <= q,
            ;
        }
    }
}

/// Reading the bits as a sign and a magnitude orders two numbers as their
/// values do, and gives both zeros the same place.
pub proof fn lemma_key_orders_values(a: Scalar, b: Scalar)
    ensures
        a.key() < b.key() <==> a.value() < b.value(),
        a.key() == b.key() <==> a.value() == b.value(),
{
    let zero = Scalar { bits: 0 };
    assert(zero.ulps() == 0);
    if a.magnitude() < b.magnitude() {
        lemma_ulps_increase(a, b);
    }
    if b.magnitude() < a.magnitude() {
        lemma_ulps_increase(b, a);
    }
    if 0 < a.magnitude() {
        lemma_ulps_increase(zero, a);
    }
    if 0 < b.magnitude() {
        lemma_ulps_increase(zero, b);
    }
    if a.magnitude() == 0 {
        assert(a.ulps() == 0);
    }
    if b.magnitude() == 0 {
        assert(b.ulps() == 0);
    }
}

} // verus!
