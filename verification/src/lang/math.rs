use vstd::prelude::*;
use vstd::arithmetic::div_mod::{
    lemma_add_mod_noop,
    lemma_fundamental_div_mod,
    lemma_mod_multiples_vanish,
    lemma_mod_self_0,
    lemma_mul_mod_noop_general,
    lemma_small_mod,
};
use crate::lang::datatype::{fits, narrowed, truncated_quotient, BoxInt};
use crate::lang::failure::Failure;

verus! {

/// The remainder of `a` by `b` that has the sign of `b`, for `b` other than
/// zero: the one integer between zero and `b`, `b` itself left out, that
/// differs from `a` by a multiple of `b`.
pub open spec fn floor_mod(a: int, b: int) -> int {
    if b > 0 {
        a % b
    } else {
        -((-a) % (-b))
    }
}

/// What `divide` returns.
pub open spec fn quotient_of<T: BoxInt>(a: T, b: T) -> Result<T, Failure> {
    if b.value() == 0 {
        Err(Failure::DivisionByZero)
    } else {
        match narrowed::<T>(truncated_quotient(a.value(), b.value())) {
            Some(q) => Ok(q),
            None => Err(Failure::ArithmeticOverflow),
        }
    }
}

/// What `modulo` returns.
pub open spec fn modulo_of<T: BoxInt>(a: T, b: T) -> Result<T, Failure> {
    if b.value() == 0 {
        Err(Failure::InvalidModulus)
    } else {
        Ok(T::of_int(floor_mod(a.value(), b.value())))
    }
}

/// Whether `n` is a multiplicative inverse of `a` for the modulus `b`
/// among the candidates `1`, ..., `b - 1`.
pub open spec fn is_inverse(n: int, a: int, b: int) -> bool {
    1 <= n < b && (n * floor_mod(a, b)) % b == 1
}

/// Whether `n` is the least multiplicative inverse of `a` for the modulus `b`.
pub open spec fn is_least_inverse(n: int, a: int, b: int) -> bool {
    is_inverse(n, a, b) && forall|m: int| 1 <= m < n ==> !is_inverse(m, a, b)
}

/// Whether `a` has a multiplicative inverse for the modulus `b`.
pub open spec fn invertible(a: int, b: int) -> bool {
    exists|n: int| is_inverse(n, a, b)
}

/// What `inv_modulo` returns.
pub open spec fn inverse_of<T: BoxInt>(a: T, b: T) -> Result<T, Failure> {
    if b.value() == 0 {
        Err(Failure::InvalidModulus)
    } else if invertible(a.value(), b.value()) {
        Ok(T::of_int(choose|n: int| is_least_inverse(n, a.value(), b.value())))
    } else {
        Err(Failure::NotInvertible { value: a.value() as i128 })
    }
}

/// The remainder with the sign of the divisor differs from the dividend by
/// a multiple of the divisor.
pub proof fn lemma_floor_mod_congruent(a: int, b: int)
    requires
        b != 0,
    ensures
        (a - floor_mod(a, b)) % b == 0,
{
    lemma_floor_mod(a, b);
    lemma_fundamental_div_mod(a, b);
    let c = if b > 0 {
        b
    } else {
        -b
    };
    let q = a / b;
    let d = a - floor_mod(a, b);
    // `d` is `b * q`, or `b * (q - 1)`; either way a multiple of `c`.
    let k = if floor_mod(a, b) == a % b {
        q
    } else {
        q - 1
    };
    assert(d == b * k) by (nonlinear_arith)
        requires
            a == b * q + a % b,
            d == a - floor_mod(a, b),
            floor_mod(a, b) == a % b && k == q || floor_mod(a, b) == a % b + b && k == q - 1,
    ;
    let m = if b > 0 {
        k
    } else {
        -k
    };
    assert(d == c * m + 0) by (nonlinear_arith)
        requires
            d == b * k,
            b > 0 && c == b && m == k || b < 0 && c == -b && m == -k,
    ;
    lemma_mod_multiples_vanish(m, 0, c);
    lemma_small_mod(0, c as nat);
    if b < 0 {
        lemma_mod_of_negated_divisor(d, c);
    }
}

/// The remainder with the sign of the divisor lies between zero and the
/// divisor, and is the remainder that is never negative, moved by the
/// divisor where the two differ.
pub proof fn lemma_floor_mod(a: int, b: int)
    requires
        b != 0,
    ensures
        b > 0 ==> 0 <= floor_mod(a, b) < b,
        b < 0 ==> b < floor_mod(a, b) <= 0,
        floor_mod(a, b) == (if a % b == 0 || b > 0 {
            a % b
        } else {
            a % b + b
        }),
{
    if b > 0 {
        lemma_fundamental_div_mod(a, b);
    } else {
        let c = -b;
        lemma_fundamental_div_mod(-a, c);
        let q = (-a) / c;
        let r = (-a) % c;
        if r == 0 {
            assert(a == (-q) * c) by (nonlinear_arith)
                requires
                    -a == c * q,
            ;
            lemma_mod_multiples_vanish(-q, 0, c);
            assert(a % c == 0) by {
                assert((c * (-q) + 0) % c == 0int % c);
                assert(c * (-q) + 0 == a) by (nonlinear_arith)
                    requires
                        a == (-q) * c,
                ;
            }
            lemma_mod_of_negated_divisor(a, c);
        } else {
            assert(a == c * (-q - 1) + (c - r)) by (nonlinear_arith)
                requires
                    -a == c * q + r,
            ;
            lemma_mod_multiples_vanish(-q - 1, c - r, c);
            lemma_small_mod((c - r) as nat, c as nat);
            assert(a % c == c - r);
            lemma_mod_of_negated_divisor(a, c);
        }
    }
}

/// The remainder that is never negative does not depend on the sign of the
/// divisor.
proof fn lemma_mod_of_negated_divisor(a: int, c: int)
    requires
        c > 0,
    ensures
        a % (-c) == a % c,
{
    lemma_fundamental_div_mod(a, c);
    lemma_fundamental_div_mod(a, -c);
    let q1 = a / c;
    let r1 = a % c;
    let q2 = a / (-c);
    let r2 = a % (-c);
    assert(0 <= r2 < c);
    assert(c * (q1 + q2) == r2 - r1) by (nonlinear_arith)
        requires
            a == c * q1 + r1,
            a == (-c) * q2 + r2,
    ;
    assert(q1 + q2 == 0) by (nonlinear_arith)
        requires
            c * (q1 + q2) == r2 - r1,
            -c < r2 - r1 < c,
            c > 0,
    ;
}

/// Quotient of `a` by `b`, rounded towards zero.
pub fn divide<T: BoxInt>(a: T, b: T) -> (r: Result<T, Failure>)
    ensures
        r == quotient_of(a, b),
{
    if b.equals(T::zero()) {
        Err(Failure::DivisionByZero)
    } else {
        match a.checked_div(b) {
            Some(q) => Ok(q),
            None => Err(Failure::ArithmeticOverflow),
        }
    }
}

/// Remainder of `a` by `b` with the sign of `b`.
pub fn modulo<T: BoxInt>(a: T, b: T) -> (r: Result<T, Failure>)
    ensures
        r == modulo_of(a, b),
        r matches Ok(m) ==> m.value() == floor_mod(a.value(), b.value()),
{
    match a.rem_euclid(b) {
        None => Err(Failure::InvalidModulus),
        Some(e) => {
            proof {
                lemma_floor_mod(a.value(), b.value());
                T::lemma_limits();
                a.lemma_value();
                b.lemma_value();
                e.lemma_value();
            }
            if b.less(T::zero()) && !e.equals(T::zero()) {
                let shifted = e.checked_add(b);
                Ok(shifted.unwrap())
            } else {
                Ok(e)
            }
        },
    }
}

/// One step of the search for an inverse: the remainder of the next multiple
/// of `x` follows from that of the last one.
proof fn lemma_next_multiple(n: int, x: int, b: int)
    requires
        0 <= x < b,
    ensures
        ((n + 1) * x) % b == (if (n * x) % b + x < b {
            (n * x) % b + x
        } else {
            (n * x) % b + x - b
        }),
{
    let acc = (n * x) % b;
    lemma_fundamental_div_mod(n * x, b);
    assert((n + 1) * x == n * x + x) by (nonlinear_arith);
    lemma_add_mod_noop(n * x, x, b);
    lemma_small_mod(x as nat, b as nat);
    assert(((n + 1) * x) % b == (acc + x) % b);
    if acc + x < b {
        lemma_small_mod((acc + x) as nat, b as nat);
    } else {
        lemma_mod_multiples_vanish(1, acc + x - b, b);
        lemma_small_mod((acc + x - b) as nat, b as nat);
    }
}

/// There is at most one least inverse.
pub proof fn lemma_least_inverse_unique(n: int, m: int, a: int, b: int)
    requires
        is_least_inverse(n, a, b),
        is_least_inverse(m, a, b),
    ensures
        n == m,
{
}

/// Multiplicative inverse of `a` for the modulus `b`: the least `n` among
/// `1`, ..., `b - 1` for which `n * a` leaves the remainder one.
pub fn inv_modulo<T: BoxInt>(a: T, b: T) -> (r: Result<T, Failure>)
    ensures
        r == inverse_of(a, b),
        r matches Ok(n) ==> is_least_inverse(n.value(), a.value(), b.value()),
{
    let x = match modulo(a, b) {
        Ok(x) => x,
        Err(e) => {
            return Err(e);
        },
    };
    let one = T::one();
    proof {
        T::lemma_limits();
        a.lemma_value();
        b.lemma_value();
        x.lemma_value();
        lemma_floor_mod(a.value(), b.value());
    }
    if !one.less(b) {
        return Err(Failure::NotInvertible { value: a.to_i128() });
    }
    let gap = b.checked_sub(x).unwrap();
    let mut n = one;
    let mut acc = x;
    proof {
        lemma_small_mod(x.value() as nat, b.value() as nat);
        assert(1 * x.value() == x.value());
    }
    while !acc.equals(one)
        invariant
            1 <= n.value() < b.value(),
            0 <= x.value() < b.value(),
            x.value() == floor_mod(a.value(), b.value()),
            gap.value() == b.value() - x.value(),
            one.value() == 1,
            acc.value() == (n.value() * x.value()) % b.value(),
            forall|m: int| 1 <= m < n.value() ==> !is_inverse(m, a.value(), b.value()),
            T::min_int() == -T::max_int() - 1,
            fits::<T>(b.value()),
            b.value() != 0,
        decreases b.value() - n.value(),
    {
        let next = n.checked_add(one).unwrap();
        if !next.less(b) {
            return Err(Failure::NotInvertible { value: a.to_i128() });
        }
        proof {
            lemma_next_multiple(n.value(), x.value(), b.value());
        }
        acc = if acc.less(gap) {
            acc.checked_add(x).unwrap()
        } else {
            acc.checked_sub(gap).unwrap()
        };
        n = next;
    }
    proof {
        n.lemma_value();
        assert(is_least_inverse(n.value(), a.value(), b.value()));
        let least = choose|k: int| is_least_inverse(k, a.value(), b.value());
        lemma_least_inverse_unique(least, n.value(), a.value(), b.value());
    }
    Ok(n)
}

/// No remainder is taken by zero: `modulo` reports an invalid modulus for
/// every `a`.
pub proof fn lemma_modulo_by_zero<T: BoxInt>(a: T, b: T)
    requires
        b.value() == 0,
    ensures
        modulo_of(a, b) == Err::<T, Failure>(Failure::InvalidModulus),
{
}

/// The greatest common divisor of `a` and `b`.
pub open spec fn gcd(a: nat, b: nat) -> nat
    decreases b,
{
    if b == 0 {
        a
    } else {
        gcd(b, a % b)
    }
}

/// The distance of `v` from zero.
pub open spec fn magnitude(v: int) -> nat {
    if v < 0 {
        (-v) as nat
    } else {
        v as nat
    }
}

/// The greatest common divisor of two numbers that are not both zero is
/// positive and divides both.
pub proof fn lemma_gcd_divides(a: nat, b: nat)
    requires
        a > 0 || b > 0,
    ensures
        gcd(a, b) > 0,
        a % gcd(a, b) == 0,
        b % gcd(a, b) == 0,
    decreases b,
{
    if b == 0 {
        lemma_mod_self_0(a as int);
        lemma_small_mod(0, a);
    } else {
        let g = gcd(b, a % b);
        lemma_gcd_divides(b, a % b);
        lemma_fundamental_div_mod(a as int, b as int);
        let q = (a as int) / (b as int);
        let r = (a as int) % (b as int);
        lemma_mul_mod_noop_general(b as int, q, g as int);
        assert((0 * q) % (g as int) == 0) by {
            assert(0 * q == 0);
            lemma_small_mod(0, g);
        }
        lemma_add_mod_noop(b * q, r, g as int);
        lemma_small_mod(0, g);
    }
}

/// A value whose remainder shares a divisor with the modulus has no
/// inverse: wherever the greatest common divisor of `a` modulo `b` and `b`
/// is not one, and `b` is not zero, `inv_modulo` reports that `a` is not
/// invertible.
pub proof fn lemma_inverse_needs_coprime<T: BoxInt>(a: T, b: T)
    requires
        b.value() != 0,
        gcd(magnitude(floor_mod(a.value(), b.value())), magnitude(b.value())) != 1,
    ensures
        !invertible(a.value(), b.value()),
        inverse_of(a, b) == Err::<T, Failure>(Failure::NotInvertible { value: a.value() as i128 }),
{
    let av = a.value();
    let bv = b.value();
    assert forall|n: int| !is_inverse(n, av, bv) by {
        if is_inverse(n, av, bv) {
            let x = floor_mod(av, bv);
            lemma_floor_mod(av, bv);
            let g = gcd(x as nat, bv as nat);
            lemma_gcd_divides(x as nat, bv as nat);
            lemma_fundamental_div_mod(n * x, bv);
            let q = (n * x) / bv;
            // n * x == bv * q + 1, and g divides both n * x and bv * q.
            lemma_mul_mod_noop_general(n, x, g as int);
            lemma_mul_mod_noop_general(bv, q, g as int);
            assert((n * 0) % (g as int) == 0) by {
                assert(n * 0 == 0);
                lemma_small_mod(0, g);
            }
            assert((0 * q) % (g as int) == 0) by {
                assert(0 * q == 0);
                lemma_small_mod(0, g);
            }
            lemma_add_mod_noop(bv * q, 1, g as int);
            lemma_small_mod(0, g);
            lemma_small_mod(1, g);
            assert(false);
        }
    }
}

} // verus!
