use boxscript::lang::failure::Failure;
use boxscript::lang::math::{divide, inv_modulo, modulo};

fn gcd(a: i64, b: i64) -> i64 {
    if b == 0 {
        a.abs()
    } else {
        gcd(b, a % b)
    }
}

#[test]
fn modulo_by_zero_is_invalid() {
    for a in i8::MIN..=i8::MAX {
        assert_eq!(modulo(a, 0), Err(Failure::InvalidModulus));
    }
    assert_eq!(modulo(5i32, 0), Err(Failure::InvalidModulus));
    assert_eq!(modulo(i128::MIN, 0), Err(Failure::InvalidModulus));
}

#[test]
fn modulo_has_the_sign_of_the_divisor() {
    assert_eq!(modulo(7i8, 3), Ok(1));
    assert_eq!(modulo(-7i8, 3), Ok(2));
    assert_eq!(modulo(7i8, -3), Ok(-2));
    assert_eq!(modulo(-7i8, -3), Ok(-1));
    assert_eq!(modulo(-4i8, 2), Ok(0));
    assert_eq!(modulo(4i8, -2), Ok(0));
    assert_eq!(modulo(0i8, -5), Ok(0));
    assert_eq!(modulo(100i8, 100), Ok(0));
    assert_eq!(modulo(i8::MIN, -1), Ok(0));
    assert_eq!(modulo(i8::MIN, i8::MAX), Ok(126));
    assert_eq!(modulo(i8::MAX, i8::MIN), Ok(-1));
    assert_eq!(modulo(i8::MIN, i8::MIN), Ok(0));
    assert_eq!(modulo(i128::MIN, -1), Ok(0));
}

#[test]
fn modulo_is_the_floored_remainder_on_all_bytes() {
    for a in i8::MIN..=i8::MAX {
        for b in i8::MIN..=i8::MAX {
            if b == 0 {
                continue;
            }
            let (x, y) = (a as i32, b as i32);
            let expected = x - y * ((x as f64) / (y as f64)).floor() as i32;
            assert_eq!(modulo(a, b), Ok(expected as i8), "{} mod {}", a, b);
        }
    }
}

#[test]
fn divide_rounds_towards_zero() {
    assert_eq!(divide(7i8, 2), Ok(3));
    assert_eq!(divide(-7i8, 2), Ok(-3));
    assert_eq!(divide(7i8, -2), Ok(-3));
    assert_eq!(divide(-7i8, -2), Ok(3));
    assert_eq!(divide(0i8, -2), Ok(0));
    assert_eq!(divide(i8::MIN, 1), Ok(i8::MIN));
}

#[test]
fn divide_reports_zero_and_overflow() {
    assert_eq!(divide(7i8, 0), Err(Failure::DivisionByZero));
    assert_eq!(divide(0i64, 0), Err(Failure::DivisionByZero));
    assert_eq!(divide(i8::MIN, -1), Err(Failure::ArithmeticOverflow));
    assert_eq!(divide(i128::MIN, -1), Err(Failure::ArithmeticOverflow));
}

#[test]
fn inv_modulo_finds_the_least_inverse() {
    assert_eq!(inv_modulo(10i16, 11), Ok(10));
    assert_eq!(inv_modulo(1i8, 5), Ok(1));
    assert_eq!(inv_modulo(3i8, 7), Ok(5));
    assert_eq!(inv_modulo(-4i8, 7), Ok(5));
    assert_eq!(inv_modulo(3i32, 1_000_003), Ok(666_669));
}

#[test]
fn inv_modulo_does_not_overflow_on_the_way() {
    // 50 * 3 leaves the domain, the remainders do not.
    assert_eq!(inv_modulo(50i8, 100), Err(Failure::NotInvertible { value: 50 }));
    assert_eq!(inv_modulo(99i8, 100), Ok(99));
    assert_eq!(inv_modulo(126i8, 127), Ok(126));
    assert_eq!(inv_modulo(i8::MIN, 127), Ok(126));
}

#[test]
fn inv_modulo_fails_without_an_inverse() {
    assert_eq!(inv_modulo(2i8, 4), Err(Failure::NotInvertible { value: 2 }));
    assert_eq!(inv_modulo(0i8, 5), Err(Failure::NotInvertible { value: 0 }));
    // No candidate lies between 1 and a modulus of 1 or less.
    assert_eq!(inv_modulo(3i8, 1), Err(Failure::NotInvertible { value: 3 }));
    assert_eq!(inv_modulo(3i8, -7), Err(Failure::NotInvertible { value: 3 }));
    assert_eq!(inv_modulo(3i8, 0), Err(Failure::InvalidModulus));
}

#[test]
fn inv_modulo_needs_a_coprime_remainder_on_all_bytes() {
    for a in i8::MIN..=i8::MAX {
        for b in i8::MIN..=i8::MAX {
            if b == 0 {
                continue;
            }
            let remainder = modulo(a, b).unwrap();
            match inv_modulo(a, b) {
                Ok(n) => {
                    assert_eq!(gcd(remainder as i64, b as i64), 1);
                    assert!(1 <= n && n < b);
                    assert_eq!((n as i64 * remainder as i64).rem_euclid(b as i64), 1);
                    for m in 1..n {
                        assert!((m as i64 * remainder as i64).rem_euclid(b as i64) != 1);
                    }
                }
                Err(e) => {
                    assert_eq!(e, Failure::NotInvertible { value: a as i128 });
                    assert!(gcd(remainder as i64, b as i64) != 1 || b <= 1);
                }
            }
        }
    }
}
