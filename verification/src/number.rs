//! Host numbers. The host knows one kind of number, the IEEE-754 double. It is
//! held here as its 64 bits, and read with integer arithmetic alone: a sign, an
//! exponent of 11 bits and a fraction of 52.

use crate::errors::CastError;
use vstd::arithmetic::div_mod::*;
use vstd::arithmetic::mul::*;
use vstd::arithmetic::power2::*;
use vstd::prelude::*;

verus! {

/// Two to the power 52: the bit that a normal number's significand has above
/// its fraction.
pub const HIDDEN_BIT: u64 = 0x10_0000_0000_0000;

/// Two to the power 63: the bit that holds the sign.
pub const SIGN_BIT: u64 = 0x8000_0000_0000_0000;

/// A double, as its bits.
#[derive(Clone, Copy, Debug, PartialEq, Eq, Structural)]
pub struct Double {
    pub bits: u64,
}

impl Double {
    /// The sign bit is set.
    pub open spec fn negative(self) -> bool {
        self.bits >= SIGN_BIT
    }

    /// The exponent field, biased as it is stored.
    pub open spec fn exponent(self) -> int {
        (self.bits / HIDDEN_BIT) as int % 2048
    }

    /// The fraction field.
    pub open spec fn fraction(self) -> int {
        (self.bits % HIDDEN_BIT) as int
    }

    /// Not a number.
    pub open spec fn is_nan(self) -> bool {
        self.exponent() == 2047 && self.fraction() != 0
    }

    /// Positive or negative infinity.
    pub open spec fn is_infinite(self) -> bool {
        self.exponent() == 2047 && self.fraction() == 0
    }

    /// Neither an infinity nor a NaN.
    pub open spec fn is_finite(self) -> bool {
        self.exponent() != 2047
    }

    /// Positive or negative zero.
    pub open spec fn is_zero(self) -> bool {
        self.exponent() == 0 && self.fraction() == 0
    }

    /// A finite double is `significand * 2^scale`, with its sign.
    pub open spec fn significand(self) -> nat {
        if self.exponent() == 0 {
            self.fraction() as nat
        } else {
            (HIDDEN_BIT + self.fraction()) as nat
        }
    }

    /// The power of two that the significand is multiplied by.
    pub open spec fn scale(self) -> int {
        if self.exponent() == 0 {
            -1074
        } else {
            self.exponent() - 1075
        }
    }

    /// The absolute value of a finite double, where that is a whole number.
    pub open spec fn magnitude(self) -> Option<nat> {
        let s = self.significand();
        let e = self.scale();
        if e >= 0 {
            Some(s * pow2(e as nat))
        } else if s % pow2((-e) as nat) == 0 {
            Some(s / pow2((-e) as nat))
        } else {
            None
        }
    }

    /// The integer that the double is, if it is one.
    pub open spec fn integer(self) -> Option<int> {
        if !self.is_finite() {
            None
        } else {
            match self.magnitude() {
                Some(m) => Some(
                    if self.negative() {
                        -(m as int)
                    } else {
                        m as int
                    },
                ),
                None => None,
            }
        }
    }

    /// Narrowing to the integers from `min` to `max`: the double must be one of
    /// them.
    pub open spec fn narrow(self, min: int, max: int) -> Result<int, CastError> {
        if self.is_nan() {
            Err(CastError::NaN)
        } else if self.is_infinite() {
            Err(CastError::Infinite)
        } else {
            match self.integer() {
                None => Err(CastError::Inexact),
                Some(k) => if k < min {
                    Err(CastError::Underflow)
                } else if k > max {
                    Err(CastError::Overflow)
                } else {
                    Ok(k)
                },
            }
        }
    }

    /// The double with these bits.
    pub fn from_bits(bits: u64) -> (d: Double)
        ensures
            d.bits == bits,
    {
        Double { bits }
    }

    /// The bits of the double.
    pub fn to_bits(self) -> (bits: u64)
        ensures
            bits == self.bits,
    {
        self.bits
    }
}

/// Two to the power `e`, for an `e` that leaves it inside 64 bits.
fn power_of_two(e: u64) -> (p: u64)
    requires
        e < 64,
    ensures
        p == pow2(e as nat),
{
    let mut p: u64 = 1;
    let mut i: u64 = 0;
    proof {
        lemma2_to64();
    }
    while i < e
        invariant
            i <= e < 64,
            p == pow2(i as nat),
        decreases e - i,
    {
        proof {
            lemma2_to64_rest();
            lemma_pow2_unfold((i + 1) as nat);
            if i + 1 < 63 {
                lemma_pow2_strictly_increases((i + 1) as nat, 63);
            }
        }
        p = p * 2;
        i = i + 1;
    }
    p
}

/// The whole number that a finite double is, without its sign.
enum Whole {
    /// It fits 64 bits.
    Fits(u64),
    /// It is two to the power 64 or more.
    Huge,
}

impl Double {
    /// Takes the double apart: an error for what is no whole number, else the
    /// sign and the absolute value.
    fn whole(self) -> (r: Result<(bool, Whole), CastError>)
        ensures
            match r {
                Err(e) => {
                    &&& e == CastError::NaN <==> self.is_nan()
                    &&& e == CastError::Infinite <==> self.is_infinite()
                    &&& e == CastError::Inexact <==> self.is_finite() && self.magnitude() is None
                    &&& e != CastError::Overflow && e != CastError::Underflow
                },
                Ok((neg, Whole::Fits(m))) => {
                    &&& self.is_finite()
                    &&& neg == self.negative()
                    &&& self.magnitude() == Some(m as nat)
                },
                Ok((neg, Whole::Huge)) => {
                    &&& self.is_finite()
                    &&& neg == self.negative()
                    &&& self.magnitude() is Some
                    &&& self.magnitude()->Some_0 >= 0x1_0000_0000_0000_0000
                },
            },
    {
        let neg = self.bits >= SIGN_BIT;
        let exp = (self.bits / HIDDEN_BIT) % 2048;
        let frac = self.bits % HIDDEN_BIT;
        if exp == 2047 {
            if frac != 0 {
                return Err(CastError::NaN);
            } else {
                return Err(CastError::Infinite);
            }
        }
        if exp == 0 {
            proof {
                lemma2_to64_rest();
                lemma_pow2_strictly_increases(52, 1074);
                lemma_pow2_pos(1074);
                if frac != 0 {
                    lemma_small_mod(frac as nat, pow2(1074));
                } else {
                    lemma_basic_div(0, pow2(1074) as int);
                    lemma_small_mod(0, pow2(1074));
                }
            }
            if frac == 0 {
                return Ok((neg, Whole::Fits(0)));
            } else {
                return Err(CastError::Inexact);
            }
        }
        let sig = HIDDEN_BIT + frac;
        if exp >= 1075 {
            let shift = exp - 1075;
            if shift >= 12 {
                proof {
                    lemma2_to64();
                    if shift > 12 {
                        lemma_pow2_strictly_increases(12, shift as nat);
                    }
                    let p = pow2(shift as nat) as int;
                    assert(sig * p >= 0x1_0000_0000_0000_0000) by (nonlinear_arith)
                        requires
                            sig >= 0x10_0000_0000_0000,
                            p >= 4096,
                    ;
                }
                Ok((neg, Whole::Huge))
            } else {
                let p = power_of_two(shift);
                proof {
                    lemma2_to64();
                    if shift < 11 {
                        lemma_pow2_strictly_increases(shift as nat, 11);
                    }
                    assert(sig * p < 0x1_0000_0000_0000_0000) by (nonlinear_arith)
                        requires
                            sig < 0x20_0000_0000_0000,
                            0 < p <= 2048,
                    ;
                }
                Ok((neg, Whole::Fits(sig * p)))
            }
        } else {
            let shift = 1075 - exp;
            if shift >= 53 {
                proof {
                    lemma2_to64_rest();
                    if shift > 53 {
                        lemma_pow2_strictly_increases(53, shift as nat);
                    }
                    lemma_small_mod(sig as nat, pow2(shift as nat));
                }
                Err(CastError::Inexact)
            } else {
                let p = power_of_two(shift);
                proof {
                    lemma_pow2_pos(shift as nat);
                }
                if sig % p != 0 {
                    Err(CastError::Inexact)
                } else {
                    Ok((neg, Whole::Fits(sig / p)))
                }
            }
        }
    }

    /// Narrowing to the integers from `-low` to `high`. The result is the sign
    /// and the absolute value.
    fn narrow_between(self, low: u64, high: u64) -> (r: Result<(bool, u64), CastError>)
        requires
            low <= SIGN_BIT,
        ensures
            match r {
                Ok((neg, m)) => {
                    &&& self.narrow(-(low as int), high as int) == Ok::<int, CastError>(
                        if neg {
                            -(m as int)
                        } else {
                            m as int
                        },
                    )
                    &&& neg ==> m <= low
                    &&& !neg ==> m <= high
                },
                Err(e) => self.narrow(-(low as int), high as int) == Err::<int, CastError>(e),
            },
    {
        match self.whole() {
            Err(e) => Err(e),
            Ok((neg, Whole::Huge)) => if neg {
                Err(CastError::Underflow)
            } else {
                Err(CastError::Overflow)
            },
            Ok((neg, Whole::Fits(m))) => if neg && m > low {
                Err(CastError::Underflow)
            } else if !neg && m > high {
                Err(CastError::Overflow)
            } else {
                Ok((neg, m))
            },
        }
    }

    /// The double as a signed integer between `-low` and `high`.
    pub(crate) fn to_signed(self, low: u64, high: u64) -> (r: Result<i64, CastError>)
        requires
            low <= SIGN_BIT,
            high < SIGN_BIT,
        ensures
            match r {
                Ok(k) => self.narrow(-(low as int), high as int) == Ok::<int, CastError>(k as int),
                Err(e) => self.narrow(-(low as int), high as int) == Err::<int, CastError>(e),
            },
    {
        match self.narrow_between(low, high) {
            Err(e) => Err(e),
            Ok((neg, m)) => if !neg {
                Ok(m as i64)
            } else if m == SIGN_BIT {
                Ok(i64::MIN)
            } else {
                Ok(0 - (m as i64))
            },
        }
    }

    /// The double as a signed integer of 8 bits, if it is one.
    pub fn to_i8(self) -> (r: Result<i8, CastError>)
        ensures
            match r {
                Ok(k) => self.narrow(i8::MIN as int, i8::MAX as int) == Ok::<int, CastError>(
                    k as int,
                ),
                Err(e) => self.narrow(i8::MIN as int, i8::MAX as int) == Err::<int, CastError>(e),
            },
    {
        match self.to_signed(128, 127) {
            Ok(k) => Ok(k as i8),
            Err(e) => Err(e),
        }
    }

    /// The double as a signed integer of 16 bits, if it is one.
    pub fn to_i16(self) -> (r: Result<i16, CastError>)
        ensures
            match r {
                Ok(k) => self.narrow(i16::MIN as int, i16::MAX as int) == Ok::<int, CastError>(
                    k as int,
                ),
                Err(e) => self.narrow(i16::MIN as int, i16::MAX as int) == Err::<int, CastError>(
                    e,
                ),
            },
    {
        match self.to_signed(0x8000, 0x7fff) {
            Ok(k) => Ok(k as i16),
            Err(e) => Err(e),
        }
    }

    /// The double as a signed integer of 32 bits, if it is one.
    pub fn to_i32(self) -> (r: Result<i32, CastError>)
        ensures
            match r {
                Ok(k) => self.narrow(i32::MIN as int, i32::MAX as int) == Ok::<int, CastError>(
                    k as int,
                ),
                Err(e) => self.narrow(i32::MIN as int, i32::MAX as int) == Err::<int, CastError>(
                    e,
                ),
            },
    {
        match self.to_signed(0x8000_0000, 0x7fff_ffff) {
            Ok(k) => Ok(k as i32),
            Err(e) => Err(e),
        }
    }

    /// The double as a signed integer of 64 bits, if it is one.
    pub fn to_i64(self) -> (r: Result<i64, CastError>)
        ensures
            match r {
                Ok(k) => self.narrow(i64::MIN as int, i64::MAX as int) == Ok::<int, CastError>(
                    k as int,
                ),
                Err(e) => self.narrow(i64::MIN as int, i64::MAX as int) == Err::<int, CastError>(
                    e,
                ),
            },
    {
        self.to_signed(SIGN_BIT, 0x7fff_ffff_ffff_ffff)
    }

    /// The double as an unsigned integer of 8 bits, if it is one.
    pub fn to_u8(self) -> (r: Result<u8, CastError>)
        ensures
            match r {
                Ok(k) => self.narrow(0, u8::MAX as int) == Ok::<int, CastError>(k as int),
                Err(e) => self.narrow(0, u8::MAX as int) == Err::<int, CastError>(e),
            },
    {
        match self.narrow_between(0, 0xff) {
            Ok((_, m)) => Ok(m as u8),
            Err(e) => Err(e),
        }
    }

    /// The double as an unsigned integer of 16 bits, if it is one.
    pub fn to_u16(self) -> (r: Result<u16, CastError>)
        ensures
            match r {
                Ok(k) => self.narrow(0, u16::MAX as int) == Ok::<int, CastError>(k as int),
                Err(e) => self.narrow(0, u16::MAX as int) == Err::<int, CastError>(e),
            },
    {
        match self.narrow_between(0, 0xffff) {
            Ok((_, m)) => Ok(m as u16),
            Err(e) => Err(e),
        }
    }

    /// The double as an unsigned integer of 32 bits, if it is one.
    pub fn to_u32(self) -> (r: Result<u32, CastError>)
        ensures
            match r {
                Ok(k) => self.narrow(0, u32::MAX as int) == Ok::<int, CastError>(k as int),
                Err(e) => self.narrow(0, u32::MAX as int) == Err::<int, CastError>(e),
            },
    {
        match self.narrow_between(0, 0xffff_ffff) {
            Ok((_, m)) => Ok(m as u32),
            Err(e) => Err(e),
        }
    }

    /// The double as an unsigned integer of 64 bits, if it is one.
    pub fn to_u64(self) -> (r: Result<u64, CastError>)
        ensures
            match r {
                Ok(k) => self.narrow(0, u64::MAX as int) == Ok::<int, CastError>(k as int),
                Err(e) => self.narrow(0, u64::MAX as int) == Err::<int, CastError>(e),
            },
    {
        match self.narrow_between(0, 0xffff_ffff_ffff_ffff) {
            Ok((_, m)) => Ok(m),
            Err(e) => Err(e),
        }
    }
}

/// The number of binary digits of `n`.
pub open spec fn bit_length(n: nat) -> nat
    decreases n,
{
    if n == 0 {
        0
    } else {
        1 + bit_length(n / 2)
    }
}

/// `n` divided by two to the power `shift`, rounded to the nearest whole
/// number, and to the even one of two that are equally near.
pub open spec fn rounded_shift(n: nat, shift: nat) -> nat {
    let p = pow2(shift);
    let q = n / p;
    let r = n % p;
    if 2 * r > p || (2 * r == p && q % 2 == 1) {
        q + 1
    } else {
        q
    }
}

/// The bits of the double nearest to `n`. Up to 53 binary digits are kept as
/// they are; more are rounded to 53. A significand rounded up to two to the
/// power 53 carries into the exponent field by the addition itself.
pub open spec fn nearest_bits(n: nat) -> int {
    let len = bit_length(n);
    if n == 0 {
        0
    } else if len <= 53 {
        (1022 + len) * HIDDEN_BIT + (n * pow2((53 - len) as nat) - HIDDEN_BIT)
    } else {
        (1022 + len) * HIDDEN_BIT + (rounded_shift(n, (len - 53) as nat) - HIDDEN_BIT)
    }
}

/// A whole number that some double is: it has at most 53 binary digits between
/// its first and its last one.
pub open spec fn representable(n: nat) -> bool {
    n == 0 || bit_length(n) <= 53 || n % pow2((bit_length(n) - 53) as nat) == 0
}

/// A number of `len` binary digits lies between two powers of two.
pub proof fn lemma_bit_length_bounds(n: nat)
    requires
        n > 0,
    ensures
        bit_length(n) >= 1,
        pow2((bit_length(n) - 1) as nat) <= n < pow2(bit_length(n)),
    decreases n,
{
    lemma2_to64();
    if n == 1 {
        assert(bit_length(1) == 1 + bit_length(0));
    } else {
        lemma_bit_length_bounds(n / 2);
        lemma_pow2_unfold(bit_length(n));
        lemma_pow2_unfold((bit_length(n) - 1) as nat);
    }
}

/// What fits 64 bits has at most 64 binary digits.
pub proof fn lemma_bit_length_u64(n: nat)
    requires
        n <= u64::MAX,
    ensures
        bit_length(n) <= 64,
{
    if n > 0 {
        lemma_bit_length_bounds(n);
        lemma2_to64();
        if bit_length(n) > 65 {
            lemma_pow2_strictly_increases(64, (bit_length(n) - 1) as nat);
        }
    }
}

impl Double {
    /// The double nearest to the integer `k`.
    pub open spec fn nearest(k: int) -> Double {
        if k < 0 {
            Double { bits: (SIGN_BIT + nearest_bits((-k) as nat)) as u64 }
        } else {
            Double { bits: nearest_bits(k as nat) as u64 }
        }
    }

    /// Not a NaN, and without a fractional part: truncation leaves the double as
    /// it is.
    pub open spec fn is_whole(self) -> bool {
        !self.is_nan() && (self.is_infinite() || self.magnitude() is Some)
    }

    /// A whole double as a 64-bit integer; what lies outside becomes the nearest
    /// end of the range.
    pub open spec fn saturated(self) -> int {
        if self.is_infinite() || self.magnitude()->Some_0 > i64::MAX {
            if self.negative() {
                i64::MIN as int
            } else {
                i64::MAX as int
            }
        } else if self.negative() {
            -(self.magnitude()->Some_0 as int)
        } else {
            self.magnitude()->Some_0 as int
        }
    }

    /// Whether the double differs from zero. A NaN does.
    pub fn is_nonzero(self) -> (r: bool)
        ensures
            r == !self.is_zero(),
    {
        (self.bits / HIDDEN_BIT) % 2048 != 0 || self.bits % HIDDEN_BIT != 0
    }

    /// Whether truncation leaves the double as it is.
    pub fn has_no_fraction(self) -> (r: bool)
        ensures
            r == self.is_whole(),
    {
        match self.whole() {
            Ok(_) => true,
            Err(CastError::Infinite) => true,
            Err(_) => false,
        }
    }

    /// A whole double as a 64-bit integer, saturating.
    pub(crate) fn to_i64_saturating(self) -> (k: i64)
        requires
            self.is_whole(),
        ensures
            k == self.saturated(),
    {
        let neg = self.bits >= SIGN_BIT;
        match self.whole() {
            Ok((_, Whole::Fits(m))) => if m >= SIGN_BIT {
                if neg {
                    i64::MIN
                } else {
                    i64::MAX
                }
            } else if neg {
                0 - (m as i64)
            } else {
                m as i64
            },
            _ => if neg {
                i64::MIN
            } else {
                i64::MAX
            },
        }
    }

    /// The double nearest to `n`.
    pub fn from_u64(n: u64) -> (d: Double)
        ensures
            d == Double::nearest(n as int),
    {
        Double { bits: magnitude_bits(n) }
    }

    /// The double nearest to `k`.
    pub fn from_i64(k: i64) -> (d: Double)
        ensures
            d == Double::nearest(k as int),
    {
        if k < 0 {
            let m: u64 = ((-(k + 1)) as u64) + 1;
            let low = magnitude_bits(m);
            proof {
                lemma_nearest_bits_bounds(m as nat);
            }
            Double { bits: SIGN_BIT + low }
        } else {
            Double { bits: magnitude_bits(k as u64) }
        }
    }
}

/// The bits of the nearest double stay below the sign bit, and name a finite
/// exponent.
pub proof fn lemma_nearest_bits_bounds(n: nat)
    requires
        n <= u64::MAX,
    ensures
        0 <= nearest_bits(n) <= 1087 * HIDDEN_BIT,
        n > 0 ==> nearest_bits(n) >= 1023 * HIDDEN_BIT,
{
    if n > 0 {
        let len = bit_length(n);
        lemma_bit_length_bounds(n);
        lemma_bit_length_u64(n);
        if len <= 53 {
            let p = pow2((53 - len) as nat);
            lemma_scaled_up(n, len);
        } else {
            lemma_rounded_bounds(n, len);
        }
    }
}

/// A number of up to 53 binary digits, moved up to 53 digits.
proof fn lemma_scaled_up(n: nat, len: nat)
    requires
        n > 0,
        len == bit_length(n),
        len <= 53,
    ensures
        HIDDEN_BIT <= n * pow2((53 - len) as nat) < 2 * HIDDEN_BIT,
{
    lemma_bit_length_bounds(n);
    lemma2_to64_rest();
    let p = pow2((53 - len) as nat);
    lemma_pow2_adds((len - 1) as nat, (53 - len) as nat);
    lemma_pow2_adds(len, (53 - len) as nat);
    lemma_pow2_pos((53 - len) as nat);
    let lo = pow2((len - 1) as nat);
    let hi = pow2(len);
    assert(lo * p <= n * p < hi * p) by (nonlinear_arith)
        requires
            lo <= n < hi,
            p > 0,
    ;
}

/// A number of more than 53 binary digits, rounded to 53.
proof fn lemma_rounded_bounds(n: nat, len: nat)
    requires
        n > 0,
        len == bit_length(n),
        len > 53,
    ensures
        HIDDEN_BIT <= n / pow2((len - 53) as nat) < 2 * HIDDEN_BIT,
        HIDDEN_BIT <= rounded_shift(n, (len - 53) as nat) <= 2 * HIDDEN_BIT,
{
    lemma_bit_length_bounds(n);
    lemma2_to64_rest();
    let shift = (len - 53) as nat;
    let p = pow2(shift);
    lemma_pow2_pos(shift);
    lemma_pow2_adds(52, shift);
    lemma_pow2_adds(53, shift);
    lemma_fundamental_div_mod(n as int, p as int);
    lemma_mod_bound(n as int, p as int);
    let q = n / p;
    let r = n % p;
    assert(0x10_0000_0000_0000 <= q < 0x20_0000_0000_0000) by (nonlinear_arith)
        requires
            n == p * q + r,
            0 <= r < p,
            0x10_0000_0000_0000 * p <= n < 0x20_0000_0000_0000 * p,
            p > 0,
    ;
}

/// The bits of the double nearest to `n`, computed.
fn magnitude_bits(n: u64) -> (bits: u64)
    ensures
        bits == nearest_bits(n as nat),
{
    if n == 0 {
        return 0;
    }
    let mut len: u64 = 0;
    let mut rest: u64 = n;
    proof {
        lemma_bit_length_u64(n as nat);
    }
    while rest != 0
        invariant
            bit_length(n as nat) == len + bit_length(rest as nat),
            bit_length(n as nat) <= 64,
        decreases rest,
    {
        rest = rest / 2;
        len = len + 1;
    }
    proof {
        lemma_bit_length_bounds(n as nat);
    }
    if len <= 53 {
        let p = power_of_two(53 - len);
        proof {
            lemma_scaled_up(n as nat, len as nat);
        }
        let sig = n * p;
        (1022 + len) * HIDDEN_BIT + (sig - HIDDEN_BIT)
    } else {
        let shift = len - 53;
        let p = power_of_two(shift);
        proof {
            lemma_rounded_bounds(n as nat, len as nat);
            lemma_pow2_unfold(shift as nat);
            lemma_pow2_pos(shift as nat);
        }
        let q = n / p;
        let r = n % p;
        let half = p / 2;
        let sig = if r > half || (r == half && q % 2 == 1) {
            q + 1
        } else {
            q
        };
        (1022 + len) * HIDDEN_BIT + (sig - HIDDEN_BIT)
    }
}

/// The absolute value of an integer.
pub open spec fn magnitude_of(k: int) -> nat {
    if k < 0 {
        (-k) as nat
    } else {
        k as nat
    }
}

/// The double nearest to a representable whole number is that number.
pub proof fn lemma_nearest_bits_exact(n: nat)
    requires
        n <= u64::MAX,
        representable(n),
    ensures
        0 <= nearest_bits(n) < SIGN_BIT,
        (Double { bits: nearest_bits(n) as u64 }).is_finite(),
        (Double { bits: nearest_bits(n) as u64 }).magnitude() == Some(n),
{
    lemma_nearest_bits_bounds(n);
    let bits = nearest_bits(n);
    let d = Double { bits: bits as u64 };
    if n == 0 {
        lemma_pow2_pos(1074);
        lemma_small_mod(0, pow2(1074));
        lemma_basic_div(0, pow2(1074) as int);
    } else {
        let len = bit_length(n);
        lemma_bit_length_bounds(n);
        lemma_bit_length_u64(n);
        if len <= 53 {
            let p = pow2((53 - len) as nat);
            lemma_scaled_up(n, len);
            lemma_pow2_pos((53 - len) as nat);
            let s = n * p;
            assert(bits == (1022 + len) * HIDDEN_BIT + (s - HIDDEN_BIT));
            assert(d.exponent() == 1022 + len);
            assert(d.fraction() == s - HIDDEN_BIT);
            assert(d.significand() == s);
            assert(d.scale() == len - 53);
            if len == 53 {
                lemma2_to64();
                assert(s * pow2(0) == n) by (nonlinear_arith)
                    requires
                        s == n * p,
                        p == 1,
                        pow2(0) == 1,
                ;
            } else {
                lemma_mod_multiples_basic(n as int, p as int);
                lemma_div_multiples_vanish(n as int, p as int);
                assert(n * p == p * n) by (nonlinear_arith);
            }
        } else {
            let shift = (len - 53) as nat;
            let p = pow2(shift);
            lemma_rounded_bounds(n, len);
            lemma_pow2_pos(shift);
            lemma_fundamental_div_mod(n as int, p as int);
            let q = n / p;
            assert(n % p == 0);
            assert(rounded_shift(n, shift) == q);
            assert(bits == (1022 + len) * HIDDEN_BIT + (q - HIDDEN_BIT));
            assert(d.exponent() == 1022 + len);
            assert(d.fraction() == q - HIDDEN_BIT);
            assert(d.significand() == q);
            assert(d.scale() == shift);
            assert(q * p == n) by (nonlinear_arith)
                requires
                    n == p * q + 0,
            ;
        }
    }
}

/// Writing a representable integer as a double and narrowing the double
/// again gives the integer, for every range that holds it.
pub proof fn lemma_nearest_round_trip(k: int, min: int, max: int)
    requires
        min <= k <= max,
        i64::MIN <= k <= u64::MAX,
        representable(magnitude_of(k)),
    ensures
        Double::nearest(k).narrow(min, max) == Ok::<int, CastError>(k),
{
    let n = magnitude_of(k);
    lemma_nearest_bits_exact(n);
    let low = Double { bits: nearest_bits(n) as u64 };
    let d = Double::nearest(k);
    if k < 0 {
        assert(d.bits == SIGN_BIT + low.bits);
        assert(d.exponent() == low.exponent());
        assert(d.fraction() == low.fraction());
        assert(d.negative());
    } else {
        assert(d == low);
        assert(!d.negative());
    }
    assert(d.magnitude() == Some(n));
}

/// A whole number that no double is comes back from the nearest double as
/// another number, or not at all.
pub proof fn lemma_nearest_bits_inexact(n: nat)
    requires
        n <= u64::MAX,
        !representable(n),
    ensures
        (Double { bits: nearest_bits(n) as u64 }).magnitude() != Some(n),
{
    lemma_nearest_bits_bounds(n);
    let bits = nearest_bits(n);
    let d = Double { bits: bits as u64 };
    let len = bit_length(n);
    lemma_bit_length_bounds(n);
    lemma_bit_length_u64(n);
    let shift = (len - 53) as nat;
    let p = pow2(shift);
    lemma_rounded_bounds(n, len);
    lemma_pow2_pos(shift);
    let q = rounded_shift(n, shift);
    assert(bits == (1022 + len) * HIDDEN_BIT + (q - HIDDEN_BIT));
    if q == 2 * HIDDEN_BIT {
        assert(bits == (1023 + len) * HIDDEN_BIT);
        assert(d.exponent() == 1023 + len);
        assert(d.fraction() == 0);
        assert(d.significand() == HIDDEN_BIT);
        assert(d.scale() == shift + 1);
        lemma_pow2_unfold(shift + 1);
        let value = HIDDEN_BIT * pow2(shift + 1);
        assert(value == (2 * HIDDEN_BIT) * p) by (nonlinear_arith)
            requires
                value == HIDDEN_BIT * pow2(shift + 1),
                pow2(shift + 1) == 2 * p,
        ;
        lemma_mod_multiples_basic(2 * HIDDEN_BIT as int, p as int);
    } else {
        assert(d.exponent() == 1022 + len);
        assert(d.fraction() == q - HIDDEN_BIT);
        assert(d.significand() == q);
        assert(d.scale() == shift);
        lemma_mod_multiples_basic(q as int, p as int);
    }
}

/// A whole number below two to the power 53 is one that a double can hold.
pub proof fn lemma_small_representable(n: nat)
    requires
        n < 2 * HIDDEN_BIT,
    ensures
        representable(n),
{
    if n > 0 {
        lemma_bit_length_bounds(n);
        lemma2_to64_rest();
        if bit_length(n) > 54 {
            lemma_pow2_strictly_increases(53, (bit_length(n) - 1) as nat);
        }
    }
}


/// The double nearest to a representable 64-bit integer is whole, and as a
/// 64-bit integer it is that integer.
pub proof fn lemma_nearest_saturated(k: i64)
    requires
        representable(magnitude_of(k as int)),
    ensures
        Double::nearest(k as int).is_whole(),
        Double::nearest(k as int).saturated() == k,
{
    let n = magnitude_of(k as int);
    lemma_nearest_bits_exact(n);
    let low = Double { bits: nearest_bits(n) as u64 };
    let d = Double::nearest(k as int);
    if k < 0 {
        assert(d.bits == SIGN_BIT + low.bits);
        assert(d.exponent() == low.exponent());
        assert(d.fraction() == low.fraction());
        assert(d.negative());
    } else {
        assert(d == low);
        assert(!d.negative());
    }
    assert(d.magnitude() == Some(n));
}

} // verus!
