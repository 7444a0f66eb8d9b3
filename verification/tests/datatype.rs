use boxscript::lang::datatype::BoxInt;
use num_traits::{CheckedAdd, CheckedDiv, CheckedMul, CheckedSub, One, ToPrimitive, Zero};

const SAMPLES_64: [i64; 13] = [
    i64::MIN,
    i64::MIN + 1,
    -0x1_0000_0000,
    -129,
    -128,
    -1,
    0,
    1,
    127,
    0xffff_ffff,
    0x1_0000_0000,
    i64::MAX - 1,
    i64::MAX,
];

#[test]
fn constants_are_zero_and_one() {
    assert_eq!(<i8 as BoxInt>::zero(), <i8 as Zero>::zero());
    assert_eq!(<i8 as BoxInt>::one(), <i8 as One>::one());
    assert_eq!(<i16 as BoxInt>::zero(), 0);
    assert_eq!(<i32 as BoxInt>::one(), 1);
    assert_eq!(<i64 as BoxInt>::zero(), 0);
    assert_eq!(<i128 as BoxInt>::one(), 1);
}

#[test]
fn checked_arithmetic_agrees_on_all_bytes() {
    for a in i8::MIN..=i8::MAX {
        for b in i8::MIN..=i8::MAX {
            assert_eq!(BoxInt::checked_add(a, b), CheckedAdd::checked_add(&a, &b));
            assert_eq!(BoxInt::checked_sub(a, b), CheckedSub::checked_sub(&a, &b));
            assert_eq!(BoxInt::checked_mul(a, b), CheckedMul::checked_mul(&a, &b));
            assert_eq!(BoxInt::checked_div(a, b), CheckedDiv::checked_div(&a, &b));
            let euclid = if b == 0 {
                None
            } else {
                Some((a as i32).rem_euclid(b as i32) as i8)
            };
            assert_eq!(BoxInt::rem_euclid(a, b), euclid);
            assert_eq!(BoxInt::equals(a, b), a == b);
            assert_eq!(BoxInt::less(a, b), a < b);
            assert_eq!(BoxInt::at_most(a, b), a <= b);
            assert_eq!(BoxInt::bit_and(a, b), a & b);
            assert_eq!(BoxInt::bit_or(a, b), a | b);
            assert_eq!(BoxInt::bit_xor(a, b), a ^ b);
        }
        assert_eq!(BoxInt::bit_not(a), !a);
        assert_eq!(BoxInt::to_i128(a), a as i128);
    }
}

#[test]
fn checked_arithmetic_agrees_on_wide_samples() {
    for a in SAMPLES_64 {
        for b in SAMPLES_64 {
            assert_eq!(BoxInt::checked_add(a, b), CheckedAdd::checked_add(&a, &b));
            assert_eq!(BoxInt::checked_sub(a, b), CheckedSub::checked_sub(&a, &b));
            assert_eq!(BoxInt::checked_mul(a, b), CheckedMul::checked_mul(&a, &b));
            assert_eq!(BoxInt::checked_div(a, b), CheckedDiv::checked_div(&a, &b));
            let (wide_a, wide_b) = (a as i128, b as i128);
            assert_eq!(
                BoxInt::checked_add(wide_a, wide_b),
                CheckedAdd::checked_add(&wide_a, &wide_b)
            );
            assert_eq!(
                BoxInt::checked_mul(wide_a, wide_b),
                CheckedMul::checked_mul(&wide_a, &wide_b)
            );
        }
    }
    assert_eq!(BoxInt::checked_mul(i128::MAX, 2), None);
    assert_eq!(BoxInt::checked_add(i128::MIN, -1), None);
    assert_eq!(BoxInt::checked_div(i128::MIN, -1), None);
    assert_eq!(BoxInt::rem_euclid(i128::MIN, -1), Some(0));
    assert_eq!(BoxInt::rem_euclid(i16::MIN, -1), Some(0));
    assert_eq!(BoxInt::rem_euclid(-7i32, -3), Some(2));
}

#[test]
fn conversions_agree() {
    for a in i8::MIN..=i8::MAX {
        assert_eq!(BoxInt::to_u32(a), ToPrimitive::to_u32(&a));
        assert_eq!(BoxInt::to_usize(a), ToPrimitive::to_usize(&a));
    }
    for a in [i16::MIN, -1, 0, 1, i16::MAX] {
        assert_eq!(BoxInt::to_u32(a), ToPrimitive::to_u32(&a));
        assert_eq!(BoxInt::to_usize(a), ToPrimitive::to_usize(&a));
    }
    for a in [i32::MIN, -1, 0, 1, i32::MAX] {
        assert_eq!(BoxInt::to_u32(a), ToPrimitive::to_u32(&a));
        assert_eq!(BoxInt::to_usize(a), ToPrimitive::to_usize(&a));
    }
    for a in SAMPLES_64 {
        assert_eq!(BoxInt::to_u32(a), ToPrimitive::to_u32(&a));
        assert_eq!(BoxInt::to_usize(a), ToPrimitive::to_usize(&a));
        let wide = a as i128;
        assert_eq!(BoxInt::to_u32(wide), ToPrimitive::to_u32(&wide));
        assert_eq!(BoxInt::to_usize(wide), ToPrimitive::to_usize(&wide));
        assert_eq!(BoxInt::to_i128(a), wide);
    }
    for a in [i128::MIN, i128::MAX, usize::MAX as i128, usize::MAX as i128 + 1] {
        assert_eq!(BoxInt::to_u32(a), ToPrimitive::to_u32(&a));
        assert_eq!(BoxInt::to_usize(a), ToPrimitive::to_usize(&a));
    }
}

#[test]
fn shifts_stay_inside_the_width() {
    for a in i8::MIN..=i8::MAX {
        for n in 0..8usize {
            assert_eq!(BoxInt::checked_shl(a, n), Some(a << n));
            assert_eq!(BoxInt::checked_shr(a, n), Some(a >> n));
        }
        assert_eq!(BoxInt::checked_shl(a, 8), None);
        assert_eq!(BoxInt::checked_shr(a, 8), None);
        assert_eq!(BoxInt::checked_shl(a, usize::MAX), None);
    }
    assert_eq!(BoxInt::checked_shl(1i16, 15), Some(i16::MIN));
    assert_eq!(BoxInt::checked_shl(1i16, 16), None);
    assert_eq!(BoxInt::checked_shl(3i32, 31), Some(i32::MIN));
    assert_eq!(BoxInt::checked_shl(1i32, 32), None);
    assert_eq!(BoxInt::checked_shl(1i64, 63), Some(i64::MIN));
    assert_eq!(BoxInt::checked_shl(1i64, 64), None);
    assert_eq!(BoxInt::checked_shl(1i128, 127), Some(i128::MIN));
    assert_eq!(BoxInt::checked_shl(1i128, 128), None);
    assert_eq!(BoxInt::checked_shr(i128::MIN, 127), Some(-1));
    assert_eq!(BoxInt::checked_shr(i64::MIN, 63), Some(-1));
    assert_eq!(BoxInt::checked_shr(i64::MIN, 64), None);
}
