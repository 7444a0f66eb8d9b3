use vstd::prelude::*;
use vstd::arithmetic::power2::{lemma2_to64, lemma2_to64_rest, lemma_pow2_adds, pow2};
use vstd::std_specs::hash::obeys_key_model;

verus! {

/// Quotient of `a` by `b` rounded towards zero; `b` is not zero.
pub open spec fn truncated_quotient(a: int, b: int) -> int {
    let q = (if a < 0 { -a } else { a }) / (if b < 0 { -b } else { b });
    if (a < 0) == (b < 0) {
        q
    } else {
        -q
    }
}

/// Bitwise complement of a two's complement integer of any width.
pub open spec fn bitwise_not(a: int) -> int {
    -a - 1
}

/// Bitwise conjunction of two integers in two's complement, which does not
/// depend on the width they are held in (at most 128 bits).
pub open spec fn bitwise_and(a: int, b: int) -> int {
    ((a as i128) & (b as i128)) as int
}

/// Bitwise disjunction, as `bitwise_and`.
pub open spec fn bitwise_or(a: int, b: int) -> int {
    ((a as i128) | (b as i128)) as int
}

/// Bitwise exclusive disjunction, as `bitwise_and`.
pub open spec fn bitwise_xor(a: int, b: int) -> int {
    ((a as i128) ^ (b as i128)) as int
}

/// Arithmetic shift of `a` to the right by `n` bits: the sign is kept.
pub open spec fn shifted_right(a: int, n: u32) -> int {
    ((a as i128) >> n) as int
}

/// Shift of `a` to the left by `n` bits inside a signed integer of `width`
/// bits: the bits that leave the width are lost, and bit `width - 1` of what
/// is left becomes the sign.
pub open spec fn shifted_left(width: u32, a: int, n: u32) -> int {
    let unused = (128 - width) as u32;
    ((((a as i128) << n) << unused) >> unused) as int
}

/// The numeric domain: a signed two's complement integer of fixed width
/// with comparison, checked arithmetic, bitwise operations and the
/// conversions that the interpreter needs.
pub trait BoxInt: Copy + Eq + core::hash::Hash + Sized {
    /// The mathematical integer that `self` stands for.
    spec fn value(self) -> int;

    /// The value that stands for `v`, where `v` lies in the domain.
    spec fn of_int(v: int) -> Self;

    /// Least integer of the domain.
    spec fn min_int() -> int;

    /// Greatest integer of the domain.
    spec fn max_int() -> int;

    /// Number of bits of the domain.
    spec fn width() -> u32;

    /// The domain is the two's complement range of its width, which is 8
    /// to 128 bits.
    proof fn lemma_limits()
        ensures
            8 <= Self::width() <= 128,
            Self::max_int() == pow2((Self::width() - 1) as nat) - 1,
            Self::min_int() == -Self::max_int() - 1,
            0x7f <= Self::max_int() <= 0x7fff_ffff_ffff_ffff_ffff_ffff_ffff_ffff,
    ;

    /// Every value stands for one integer of the domain, and is found again
    /// from it.
    proof fn lemma_value(self)
        ensures
            Self::min_int() <= self.value() <= Self::max_int(),
            Self::of_int(self.value()) == self,
    ;

    /// Every integer of the domain has a value.
    proof fn lemma_of_int(v: int)
        requires
            Self::min_int() <= v <= Self::max_int(),
        ensures
            Self::of_int(v).value() == v,
    ;

    /// Values can key a hash map.
    proof fn lemma_key_model()
        ensures
            obeys_key_model::<Self>(),
    ;

    fn zero() -> (r: Self)
        ensures
            r.value() == 0,
    ;

    fn one() -> (r: Self)
        ensures
            r.value() == 1,
    ;

    fn to_i128(self) -> (r: i128)
        ensures
            r == self.value(),
    ;

    /// The value as a `u32`, if it is one.
    fn to_u32(self) -> (r: Option<u32>)
        ensures
            r == (if 0 <= self.value() <= u32::MAX {
                Some(self.value() as u32)
            } else {
                None
            }),
    ;

    /// The value as a `usize`, if it is one.
    fn to_usize(self) -> (r: Option<usize>)
        ensures
            r == (if 0 <= self.value() <= usize::MAX {
                Some(self.value() as usize)
            } else {
                None
            }),
    ;

    fn equals(self, other: Self) -> (r: bool)
        ensures
            r == (self.value() == other.value()),
    ;

    fn less(self, other: Self) -> (r: bool)
        ensures
            r == (self.value() < other.value()),
    ;

    fn at_most(self, other: Self) -> (r: bool)
        ensures
            r == (self.value() <= other.value()),
    ;

    /// Sum, or `None` where it leaves the domain.
    fn checked_add(self, other: Self) -> (r: Option<Self>)
        ensures
            r == ({
                let v = self.value() + other.value();
                if Self::min_int() <= v <= Self::max_int() {
                    Some(Self::of_int(v))
                } else {
                    None
                }
            }),
            r matches Some(x) ==> x.value() == self.value() + other.value(),
    ;

    /// Difference, or `None` where it leaves the domain.
    fn checked_sub(self, other: Self) -> (r: Option<Self>)
        ensures
            r == ({
                let v = self.value() - other.value();
                if Self::min_int() <= v <= Self::max_int() {
                    Some(Self::of_int(v))
                } else {
                    None
                }
            }),
            r matches Some(x) ==> x.value() == self.value() - other.value(),
    ;

    /// Product, or `None` where it leaves the domain.
    fn checked_mul(self, other: Self) -> (r: Option<Self>)
        ensures
            r == ({
                let v = self.value() * other.value();
                if Self::min_int() <= v <= Self::max_int() {
                    Some(Self::of_int(v))
                } else {
                    None
                }
            }),
            r matches Some(x) ==> x.value() == self.value() * other.value(),
    ;

    /// Quotient rounded towards zero, or `None` where the divisor is zero
    /// or the quotient leaves the domain.
    fn checked_div(self, other: Self) -> (r: Option<Self>)
        ensures
            r == ({
                let v = truncated_quotient(self.value(), other.value());
                if other.value() != 0 && Self::min_int() <= v <= Self::max_int() {
                    Some(Self::of_int(v))
                } else {
                    None
                }
            }),
            r matches Some(x) ==> x.value() == truncated_quotient(self.value(), other.value()),
    ;

    /// The remainder that is never negative, or `None` where the divisor
    /// is zero.
    fn rem_euclid(self, other: Self) -> (r: Option<Self>)
        ensures
            r == (if other.value() == 0 {
                None
            } else {
                Some(Self::of_int(self.value() % other.value()))
            }),
            r matches Some(x) ==> x.value() == self.value() % other.value(),
    ;

    fn bit_not(self) -> (r: Self)
        ensures
            r.value() == bitwise_not(self.value()),
    ;

    fn bit_and(self, other: Self) -> (r: Self)
        ensures
            r.value() == bitwise_and(self.value(), other.value()),
    ;

    fn bit_or(self, other: Self) -> (r: Self)
        ensures
            r.value() == bitwise_or(self.value(), other.value()),
    ;

    fn bit_xor(self, other: Self) -> (r: Self)
        ensures
            r.value() == bitwise_xor(self.value(), other.value()),
    ;

    /// Shift to the left by `n` bits, or `None` where `n` is not less than
    /// the width.
    fn checked_shl(self, n: usize) -> (r: Option<Self>)
        ensures
            n >= Self::width() ==> r is None,
            n < Self::width() ==> r is Some && r->0.value() == shifted_left(
                Self::width(),
                self.value(),
                n as u32,
            ),
    ;

    /// Shift to the right by `n` bits, or `None` where `n` is not less than
    /// the width.
    fn checked_shr(self, n: usize) -> (r: Option<Self>)
        ensures
            n >= Self::width() ==> r is None,
            n < Self::width() ==> r is Some && r->0.value() == shifted_right(
                self.value(),
                n as u32,
            ),
    ;
}

/// Whether the integer `v` can be held in the numeric domain `T`.
pub open spec fn fits<T: BoxInt>(v: int) -> bool {
    T::min_int() <= v <= T::max_int()
}

/// The value of `T` that stands for `v`, if `T` can hold it.
pub open spec fn narrowed<T: BoxInt>(v: int) -> Option<T> {
    if fits::<T>(v) {
        Some(T::of_int(v))
    } else {
        None
    }
}

impl BoxInt for i8 {
    open spec fn value(self) -> int {
        self as int
    }

    open spec fn of_int(v: int) -> i8 {
        v as i8
    }

    open spec fn min_int() -> int {
        i8::MIN as int
    }

    open spec fn max_int() -> int {
        i8::MAX as int
    }

    open spec fn width() -> u32 {
        8
    }

    proof fn lemma_limits() {
        lemma2_to64();
    }

    proof fn lemma_value(self) {
    }

    proof fn lemma_of_int(v: int) {
    }

    proof fn lemma_key_model() {
        broadcast use vstd::std_specs::hash::axiom_i8_obeys_hash_table_key_model;
    }

    fn zero() -> (r: i8) {
        0
    }

    fn one() -> (r: i8) {
        1
    }

    fn to_i128(self) -> (r: i128) {
        self as i128
    }

    fn to_u32(self) -> (r: Option<u32>) {
        if self < 0 {
            None
        } else {
            Some(self as u32)
        }
    }

    fn to_usize(self) -> (r: Option<usize>) {
        if self < 0 {
            None
        } else {
            Some(self as usize)
        }
    }

    fn equals(self, other: i8) -> (r: bool) {
        self == other
    }

    fn less(self, other: i8) -> (r: bool) {
        self < other
    }

    fn at_most(self, other: i8) -> (r: bool) {
        self <= other
    }

    fn checked_add(self, other: i8) -> (r: Option<i8>) {
        i8::checked_add(self, other)
    }

    fn checked_sub(self, other: i8) -> (r: Option<i8>) {
        i8::checked_sub(self, other)
    }

    fn checked_mul(self, other: i8) -> (r: Option<i8>) {
        i8::checked_mul(self, other)
    }

    fn checked_div(self, other: i8) -> (r: Option<i8>) {
        i8::checked_div(self, other)
    }

    fn rem_euclid(self, other: i8) -> (r: Option<i8>) {
        if other == -1 {
            Some(0)
        } else {
            i8::checked_rem_euclid(self, other)
        }
    }

    fn bit_not(self) -> (r: i8) {
        let r: i8 = !self;
        assert(r == -self - 1) by (bit_vector)
            requires
                r == !self,
        ;
        r
    }

    fn bit_and(self, other: i8) -> (r: i8) {
        let r: i8 = self & other;
        assert(r as i128 == (self as i128) & (other as i128)) by (bit_vector)
            requires
                r == self & other,
        ;
        r
    }

    fn bit_or(self, other: i8) -> (r: i8) {
        let r: i8 = self | other;
        assert(r as i128 == (self as i128) | (other as i128)) by (bit_vector)
            requires
                r == self | other,
        ;
        r
    }

    fn bit_xor(self, other: i8) -> (r: i8) {
        let r: i8 = self ^ other;
        assert(r as i128 == (self as i128) ^ (other as i128)) by (bit_vector)
            requires
                r == self ^ other,
        ;
        r
    }

    fn checked_shl(self, n: usize) -> (r: Option<i8>) {
        if n < 8 {
            let m: u32 = n as u32;
            let r: i8 = self << m;
            assert(r as i128 == ((((self as i128) << m) << 120u32) >> 120u32)) by (bit_vector)
                requires
                    r == self << m,
                    m < 8,
            ;
            Some(r)
        } else {
            None
        }
    }

    fn checked_shr(self, n: usize) -> (r: Option<i8>) {
        if n < 8 {
            let m: u32 = n as u32;
            let r: i8 = self >> m;
            assert(r as i128 == (self as i128) >> m) by (bit_vector)
                requires
                    r == self >> m,
                    m < 8,
            ;
            Some(r)
        } else {
            None
        }
    }
}

impl BoxInt for i16 {
    open spec fn value(self) -> int {
        self as int
    }

    open spec fn of_int(v: int) -> i16 {
        v as i16
    }

    open spec fn min_int() -> int {
        i16::MIN as int
    }

    open spec fn max_int() -> int {
        i16::MAX as int
    }

    open spec fn width() -> u32 {
        16
    }

    proof fn lemma_limits() {
        lemma2_to64();
    }

    proof fn lemma_value(self) {
    }

    proof fn lemma_of_int(v: int) {
    }

    proof fn lemma_key_model() {
        broadcast use vstd::std_specs::hash::axiom_i16_obeys_hash_table_key_model;
    }

    fn zero() -> (r: i16) {
        0
    }

    fn one() -> (r: i16) {
        1
    }

    fn to_i128(self) -> (r: i128) {
        self as i128
    }

    fn to_u32(self) -> (r: Option<u32>) {
        if self < 0 {
            None
        } else {
            Some(self as u32)
        }
    }

    fn to_usize(self) -> (r: Option<usize>) {
        if self < 0 {
            None
        } else {
            Some(self as usize)
        }
    }

    fn equals(self, other: i16) -> (r: bool) {
        self == other
    }

    fn less(self, other: i16) -> (r: bool) {
        self < other
    }

    fn at_most(self, other: i16) -> (r: bool) {
        self <= other
    }

    fn checked_add(self, other: i16) -> (r: Option<i16>) {
        i16::checked_add(self, other)
    }

    fn checked_sub(self, other: i16) -> (r: Option<i16>) {
        i16::checked_sub(self, other)
    }

    fn checked_mul(self, other: i16) -> (r: Option<i16>) {
        i16::checked_mul(self, other)
    }

    fn checked_div(self, other: i16) -> (r: Option<i16>) {
        i16::checked_div(self, other)
    }

    fn rem_euclid(self, other: i16) -> (r: Option<i16>) {
        if other == -1 {
            Some(0)
        } else {
            i16::checked_rem_euclid(self, other)
        }
    }

    fn bit_not(self) -> (r: i16) {
        let r: i16 = !self;
        assert(r == -self - 1) by (bit_vector)
            requires
                r == !self,
        ;
        r
    }

    fn bit_and(self, other: i16) -> (r: i16) {
        let r: i16 = self & other;
        assert(r as i128 == (self as i128) & (other as i128)) by (bit_vector)
            requires
                r == self & other,
        ;
        r
    }

    fn bit_or(self, other: i16) -> (r: i16) {
        let r: i16 = self | other;
        assert(r as i128 == (self as i128) | (other as i128)) by (bit_vector)
            requires
                r == self | other,
        ;
        r
    }

    fn bit_xor(self, other: i16) -> (r: i16) {
        let r: i16 = self ^ other;
        assert(r as i128 == (self as i128) ^ (other as i128)) by (bit_vector)
            requires
                r == self ^ other,
        ;
        r
    }

    fn checked_shl(self, n: usize) -> (r: Option<i16>) {
        if n < 16 {
            let m: u32 = n as u32;
            let r: i16 = self << m;
            assert(r as i128 == ((((self as i128) << m) << 112u32) >> 112u32)) by (bit_vector)
                requires
                    r == self << m,
                    m < 16,
            ;
            Some(r)
        } else {
            None
        }
    }

    fn checked_shr(self, n: usize) -> (r: Option<i16>) {
        if n < 16 {
            let m: u32 = n as u32;
            let r: i16 = self >> m;
            assert(r as i128 == (self as i128) >> m) by (bit_vector)
                requires
                    r == self >> m,
                    m < 16,
            ;
            Some(r)
        } else {
            None
        }
    }
}

impl BoxInt for i32 {
    open spec fn value(self) -> int {
        self as int
    }

    open spec fn of_int(v: int) -> i32 {
        v as i32
    }

    open spec fn min_int() -> int {
        i32::MIN as int
    }

    open spec fn max_int() -> int {
        i32::MAX as int
    }

    open spec fn width() -> u32 {
        32
    }

    proof fn lemma_limits() {
        lemma2_to64();
    }

    proof fn lemma_value(self) {
    }

    proof fn lemma_of_int(v: int) {
    }

    proof fn lemma_key_model() {
        broadcast use vstd::std_specs::hash::axiom_i32_obeys_hash_table_key_model;
    }

    fn zero() -> (r: i32) {
        0
    }

    fn one() -> (r: i32) {
        1
    }

    fn to_i128(self) -> (r: i128) {
        self as i128
    }

    fn to_u32(self) -> (r: Option<u32>) {
        if self < 0 {
            None
        } else {
            Some(self as u32)
        }
    }

    fn to_usize(self) -> (r: Option<usize>) {
        if self < 0 {
            None
        } else {
            Some(self as usize)
        }
    }

    fn equals(self, other: i32) -> (r: bool) {
        self == other
    }

    fn less(self, other: i32) -> (r: bool) {
        self < other
    }

    fn at_most(self, other: i32) -> (r: bool) {
        self <= other
    }

    fn checked_add(self, other: i32) -> (r: Option<i32>) {
        i32::checked_add(self, other)
    }

    fn checked_sub(self, other: i32) -> (r: Option<i32>) {
        i32::checked_sub(self, other)
    }

    fn checked_mul(self, other: i32) -> (r: Option<i32>) {
        i32::checked_mul(self, other)
    }

    fn checked_div(self, other: i32) -> (r: Option<i32>) {
        i32::checked_div(self, other)
    }

    fn rem_euclid(self, other: i32) -> (r: Option<i32>) {
        if other == -1 {
            Some(0)
        } else {
            i32::checked_rem_euclid(self, other)
        }
    }

    fn bit_not(self) -> (r: i32) {
        let r: i32 = !self;
        assert(r == -self - 1) by (bit_vector)
            requires
                r == !self,
        ;
        r
    }

    fn bit_and(self, other: i32) -> (r: i32) {
        let r: i32 = self & other;
        assert(r as i128 == (self as i128) & (other as i128)) by (bit_vector)
            requires
                r == self & other,
        ;
        r
    }

    fn bit_or(self, other: i32) -> (r: i32) {
        let r: i32 = self | other;
        assert(r as i128 == (self as i128) | (other as i128)) by (bit_vector)
            requires
                r == self | other,
        ;
        r
    }

    fn bit_xor(self, other: i32) -> (r: i32) {
        let r: i32 = self ^ other;
        assert(r as i128 == (self as i128) ^ (other as i128)) by (bit_vector)
            requires
                r == self ^ other,
        ;
        r
    }

    fn checked_shl(self, n: usize) -> (r: Option<i32>) {
        if n < 32 {
            let m: u32 = n as u32;
            let r: i32 = self << m;
            assert(r as i128 == ((((self as i128) << m) << 96u32) >> 96u32)) by (bit_vector)
                requires
                    r == self << m,
                    m < 32,
            ;
            Some(r)
        } else {
            None
        }
    }

    fn checked_shr(self, n: usize) -> (r: Option<i32>) {
        if n < 32 {
            let m: u32 = n as u32;
            let r: i32 = self >> m;
            assert(r as i128 == (self as i128) >> m) by (bit_vector)
                requires
                    r == self >> m,
                    m < 32,
            ;
            Some(r)
        } else {
            None
        }
    }
}

impl BoxInt for i64 {
    open spec fn value(self) -> int {
        self as int
    }

    open spec fn of_int(v: int) -> i64 {
        v as i64
    }

    open spec fn min_int() -> int {
        i64::MIN as int
    }

    open spec fn max_int() -> int {
        i64::MAX as int
    }

    open spec fn width() -> u32 {
        64
    }

    proof fn lemma_limits() {
        lemma2_to64_rest();
    }

    proof fn lemma_value(self) {
    }

    proof fn lemma_of_int(v: int) {
    }

    proof fn lemma_key_model() {
        broadcast use vstd::std_specs::hash::axiom_i64_obeys_hash_table_key_model;
    }

    fn zero() -> (r: i64) {
        0
    }

    fn one() -> (r: i64) {
        1
    }

    fn to_i128(self) -> (r: i128) {
        self as i128
    }

    fn to_u32(self) -> (r: Option<u32>) {
        if self < 0 || self > 0xffff_ffff {
            None
        } else {
            Some(self as u32)
        }
    }

    fn to_usize(self) -> (r: Option<usize>) {
        if self < 0 || self as i128 > usize::MAX as i128 {
            None
        } else {
            Some(self as usize)
        }
    }

    fn equals(self, other: i64) -> (r: bool) {
        self == other
    }

    fn less(self, other: i64) -> (r: bool) {
        self < other
    }

    fn at_most(self, other: i64) -> (r: bool) {
        self <= other
    }

    fn checked_add(self, other: i64) -> (r: Option<i64>) {
        i64::checked_add(self, other)
    }

    fn checked_sub(self, other: i64) -> (r: Option<i64>) {
        i64::checked_sub(self, other)
    }

    fn checked_mul(self, other: i64) -> (r: Option<i64>) {
        i64::checked_mul(self, other)
    }

    fn checked_div(self, other: i64) -> (r: Option<i64>) {
        i64::checked_div(self, other)
    }

    fn rem_euclid(self, other: i64) -> (r: Option<i64>) {
        if other == -1 {
            Some(0)
        } else {
            i64::checked_rem_euclid(self, other)
        }
    }

    fn bit_not(self) -> (r: i64) {
        let r: i64 = !self;
        assert(r == -self - 1) by (bit_vector)
            requires
                r == !self,
        ;
        r
    }

    fn bit_and(self, other: i64) -> (r: i64) {
        let r: i64 = self & other;
        assert(r as i128 == (self as i128) & (other as i128)) by (bit_vector)
            requires
                r == self & other,
        ;
        r
    }

    fn bit_or(self, other: i64) -> (r: i64) {
        let r: i64 = self | other;
        assert(r as i128 == (self as i128) | (other as i128)) by (bit_vector)
            requires
                r == self | other,
        ;
        r
    }

    fn bit_xor(self, other: i64) -> (r: i64) {
        let r: i64 = self ^ other;
        assert(r as i128 == (self as i128) ^ (other as i128)) by (bit_vector)
            requires
                r == self ^ other,
        ;
        r
    }

    fn checked_shl(self, n: usize) -> (r: Option<i64>) {
        if n < 64 {
            let m: u32 = n as u32;
            let r: i64 = self << m;
            assert(r as i128 == ((((self as i128) << m) << 64u32) >> 64u32)) by (bit_vector)
                requires
                    r == self << m,
                    m < 64,
            ;
            Some(r)
        } else {
            None
        }
    }

    fn checked_shr(self, n: usize) -> (r: Option<i64>) {
        if n < 64 {
            let m: u32 = n as u32;
            let r: i64 = self >> m;
            assert(r as i128 == (self as i128) >> m) by (bit_vector)
                requires
                    r == self >> m,
                    m < 64,
            ;
            Some(r)
        } else {
            None
        }
    }
}

impl BoxInt for i128 {
    open spec fn value(self) -> int {
        self as int
    }

    open spec fn of_int(v: int) -> i128 {
        v as i128
    }

    open spec fn min_int() -> int {
        i128::MIN as int
    }

    open spec fn max_int() -> int {
        i128::MAX as int
    }

    open spec fn width() -> u32 {
        128
    }

    proof fn lemma_limits() {
        lemma2_to64();
        lemma2_to64_rest();
        lemma_pow2_adds(63, 64);
        assert(0x8000_0000_0000_0000 * 0x1_0000_0000_0000_0000
            == 0x8000_0000_0000_0000_0000_0000_0000_0000int) by (nonlinear_arith);
    }

    proof fn lemma_value(self) {
    }

    proof fn lemma_of_int(v: int) {
    }

    proof fn lemma_key_model() {
        broadcast use vstd::std_specs::hash::axiom_i128_obeys_hash_table_key_model;
    }

    fn zero() -> (r: i128) {
        0
    }

    fn one() -> (r: i128) {
        1
    }

    fn to_i128(self) -> (r: i128) {
        self as i128
    }

    fn to_u32(self) -> (r: Option<u32>) {
        if self < 0 || self > 0xffff_ffff {
            None
        } else {
            Some(self as u32)
        }
    }

    fn to_usize(self) -> (r: Option<usize>) {
        if self < 0 || self as i128 > usize::MAX as i128 {
            None
        } else {
            Some(self as usize)
        }
    }

    fn equals(self, other: i128) -> (r: bool) {
        self == other
    }

    fn less(self, other: i128) -> (r: bool) {
        self < other
    }

    fn at_most(self, other: i128) -> (r: bool) {
        self <= other
    }

    fn checked_add(self, other: i128) -> (r: Option<i128>) {
        i128::checked_add(self, other)
    }

    fn checked_sub(self, other: i128) -> (r: Option<i128>) {
        i128::checked_sub(self, other)
    }

    fn checked_mul(self, other: i128) -> (r: Option<i128>) {
        i128::checked_mul(self, other)
    }

    fn checked_div(self, other: i128) -> (r: Option<i128>) {
        i128::checked_div(self, other)
    }

    fn rem_euclid(self, other: i128) -> (r: Option<i128>) {
        if other == -1 {
            Some(0)
        } else {
            i128::checked_rem_euclid(self, other)
        }
    }

    fn bit_not(self) -> (r: i128) {
        let r: i128 = !self;
        assert(r == -self - 1) by (bit_vector)
            requires
                r == !self,
        ;
        r
    }

    fn bit_and(self, other: i128) -> (r: i128) {
        let r: i128 = self & other;
        assert(r as i128 == (self as i128) & (other as i128)) by (bit_vector)
            requires
                r == self & other,
        ;
        r
    }

    fn bit_or(self, other: i128) -> (r: i128) {
        let r: i128 = self | other;
        assert(r as i128 == (self as i128) | (other as i128)) by (bit_vector)
            requires
                r == self | other,
        ;
        r
    }

    fn bit_xor(self, other: i128) -> (r: i128) {
        let r: i128 = self ^ other;
        assert(r as i128 == (self as i128) ^ (other as i128)) by (bit_vector)
            requires
                r == self ^ other,
        ;
        r
    }

    fn checked_shl(self, n: usize) -> (r: Option<i128>) {
        if n < 128 {
            let m: u32 = n as u32;
            let r: i128 = self << m;
            assert(r as i128 == ((((self as i128) << m) << 0u32) >> 0u32)) by (bit_vector)
                requires
                    r == self << m,
                    m < 128,
            ;
            Some(r)
        } else {
            None
        }
    }

    fn checked_shr(self, n: usize) -> (r: Option<i128>) {
        if n < 128 {
            let m: u32 = n as u32;
            let r: i128 = self >> m;
            assert(r as i128 == (self as i128) >> m) by (bit_vector)
                requires
                    r == self >> m,
                    m < 128,
            ;
            Some(r)
        } else {
            None
        }
    }
}

} // verus!
