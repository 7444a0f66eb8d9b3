use vstd::prelude::*;
use crate::lang::datatype::{
    bitwise_and,
    bitwise_not,
    bitwise_or,
    bitwise_xor,
    narrowed,
    shifted_left,
    shifted_right,
    BoxInt,
};
use crate::lang::expression::Atom;
use crate::lang::failure::Failure;
use crate::lang::math::{divide, inv_modulo, inverse_of, modulo, modulo_of, quotient_of};
use crate::lang::text::is_scalar_value;

verus! {

/// The character that is written where a value is no code point.
pub const REPLACEMENT: char = '\u{ffff}';

/// The state of the stack machine that runs a postfix expression: the
/// operands, the last one on top, the memory and the output written so far.
#[verifier::reject_recursive_types(T)]
pub struct Machine<T: BoxInt> {
    pub stack: Seq<T>,
    pub memory: Map<T, T>,
    pub output: Seq<char>,
}

/// How a run of the machine ended: the state it reached, and the failure
/// that stopped it, if one did.
#[verifier::reject_recursive_types(T)]
pub struct Halt<T: BoxInt> {
    pub machine: Machine<T>,
    pub failure: Option<Failure>,
}

/// What the memory holds under `key`: zero where nothing was stored.
pub open spec fn recall<T: BoxInt>(memory: Map<T, T>, key: T) -> T {
    if memory.contains_key(key) {
        memory[key]
    } else {
        T::of_int(0)
    }
}

/// The character that `Output` writes for the value `v`.
pub open spec fn printed(v: int) -> char {
    if is_scalar_value(v) {
        v as char
    } else {
        REPLACEMENT
    }
}

/// One for true, zero for false.
pub open spec fn truth<T: BoxInt>(b: bool) -> T {
    if b {
        T::of_int(1)
    } else {
        T::of_int(0)
    }
}

/// The value of `v` in the numeric domain, or an overflow.
pub open spec fn checked<T: BoxInt>(v: int) -> Result<T, Failure> {
    match narrowed::<T>(v) {
        Some(x) => Ok(x),
        None => Err(Failure::ArithmeticOverflow),
    }
}

/// The number of bits to shift by that `b` stands for: `b` has to be a
/// `usize`, and less than the width of the numeric domain.
pub open spec fn shift_count<T: BoxInt>(b: T) -> Result<u32, Failure> {
    if !(0 <= b.value() <= usize::MAX) {
        Err(Failure::NegativeShiftAmount)
    } else if b.value() >= T::width() {
        Err(Failure::ArithmeticOverflow)
    } else {
        Ok(b.value() as u32)
    }
}

/// What a binary operator makes of the left operand `a` and the right
/// operand `b`.
pub open spec fn binary_result<T: BoxInt>(op: Atom<T>, a: T, b: T) -> Result<T, Failure> {
    match op {
        Atom::Add => checked(a.value() + b.value()),
        Atom::Subtract => checked(a.value() - b.value()),
        Atom::Multiply => checked(a.value() * b.value()),
        Atom::Divide => quotient_of(a, b),
        Atom::Modulo => modulo_of(a, b),
        Atom::InverseModulo => inverse_of(a, b),
        Atom::LeftShift => match shift_count(b) {
            Ok(n) => Ok(T::of_int(shifted_left(T::width(), a.value(), n))),
            Err(e) => Err(e),
        },
        Atom::RightShift => match shift_count(b) {
            Ok(n) => Ok(T::of_int(shifted_right(a.value(), n))),
            Err(e) => Err(e),
        },
        Atom::And => Ok(T::of_int(bitwise_and(a.value(), b.value()))),
        Atom::Or => Ok(T::of_int(bitwise_or(a.value(), b.value()))),
        Atom::Xor => Ok(T::of_int(bitwise_xor(a.value(), b.value()))),
        Atom::Less => Ok(truth(a.value() < b.value())),
        Atom::Greater => Ok(truth(a.value() > b.value())),
        Atom::Equal => Ok(truth(a.value() == b.value())),
        Atom::NotEqual => Ok(truth(a.value() != b.value())),
        Atom::Assign => Ok(b),
        _ => Err(Failure::MalformedExpression),
    }
}

/// The state after one atom of a postfix expression. An operator that
/// finds too few operands, and a parenthesis, are malformed.
pub open spec fn step<T: BoxInt>(m: Machine<T>, atom: Atom<T>) -> Result<Machine<T>, Failure> {
    match atom {
        Atom::Data(n) => Ok(Machine { stack: m.stack.push(n), memory: m.memory, output: m.output }),
        Atom::Memory | Atom::Not | Atom::Output => {
            if m.stack.len() < 1 {
                Err(Failure::MalformedExpression)
            } else {
                let a = m.stack.last();
                let below = m.stack.drop_last();
                match atom {
                    Atom::Memory => Ok(
                        Machine {
                            stack: below.push(recall(m.memory, a)),
                            memory: m.memory,
                            output: m.output,
                        },
                    ),
                    Atom::Not => Ok(
                        Machine {
                            stack: below.push(T::of_int(bitwise_not(a.value()))),
                            memory: m.memory,
                            output: m.output,
                        },
                    ),
                    _ => Ok(
                        Machine {
                            stack: m.stack,
                            memory: m.memory,
                            output: m.output.push(printed(a.value())),
                        },
                    ),
                }
            }
        },
        _ => {
            if m.stack.len() < 2 {
                Err(Failure::MalformedExpression)
            } else {
                let b = m.stack.last();
                let a = m.stack[m.stack.len() - 2];
                let below = m.stack.drop_last().drop_last();
                match binary_result(atom, a, b) {
                    Ok(v) => Ok(
                        Machine {
                            stack: below.push(v),
                            memory: if atom is Assign {
                                m.memory.insert(a, b)
                            } else {
                                m.memory
                            },
                            output: m.output,
                        },
                    ),
                    Err(e) => Err(e),
                }
            }
        },
    }
}

/// The run of the machine over a postfix expression from the state `m`: it
/// stops at the first atom that fails, in the state before that atom.
pub open spec fn execute<T: BoxInt>(m: Machine<T>, atoms: Seq<Atom<T>>) -> Halt<T>
    decreases atoms.len(),
{
    if atoms.len() == 0 {
        Halt { machine: m, failure: None }
    } else {
        let before = execute(m, atoms.drop_last());
        if before.failure is Some {
            before
        } else {
            match step(before.machine, atoms.last()) {
                Ok(next) => Halt { machine: next, failure: None },
                Err(e) => Halt { machine: before.machine, failure: Some(e) },
            }
        }
    }
}

/// Once the machine has stopped on a failure, more atoms change nothing.
pub proof fn lemma_execute_failure_stays<T: BoxInt>(m: Machine<T>, atoms: Seq<Atom<T>>, n: int)
    requires
        0 <= n <= atoms.len(),
        execute(m, atoms.take(n)).failure is Some,
    ensures
        execute(m, atoms) == execute(m, atoms.take(n)),
    decreases atoms.len() - n,
{
    if n < atoms.len() {
        assert(atoms.take(n + 1).drop_last() == atoms.take(n));
        lemma_execute_failure_stays(m, atoms, n + 1);
    } else {
        assert(atoms.take(n) == atoms);
    }
}

/// The result of a run that did not fail: the operand on top, or zero
/// where there is none.
pub open spec fn top_or_zero<T: BoxInt>(stack: Seq<T>) -> T {
    if stack.len() == 0 {
        T::of_int(0)
    } else {
        stack.last()
    }
}

/// Applies a binary operator to the left operand `a` and the right operand
/// `b`.
pub fn apply<T: BoxInt>(op: Atom<T>, a: T, b: T) -> (r: Result<T, Failure>)
    ensures
        r == binary_result(op, a, b),
{
    proof {
        T::lemma_limits();
        a.lemma_value();
        b.lemma_value();
    }
    match op {
        Atom::Add => settle(a.checked_add(b)),
        Atom::Subtract => settle(a.checked_sub(b)),
        Atom::Multiply => settle(a.checked_mul(b)),
        Atom::Divide => divide(a, b),
        Atom::Modulo => modulo(a, b),
        Atom::InverseModulo => inv_modulo(a, b),
        Atom::LeftShift => match b.to_usize() {
            None => Err(Failure::NegativeShiftAmount),
            Some(n) => match a.checked_shl(n) {
                None => Err(Failure::ArithmeticOverflow),
                Some(v) => {
                    proof {
                        v.lemma_value();
                    }
                    Ok(v)
                },
            },
        },
        Atom::RightShift => match b.to_usize() {
            None => Err(Failure::NegativeShiftAmount),
            Some(n) => match a.checked_shr(n) {
                None => Err(Failure::ArithmeticOverflow),
                Some(v) => {
                    proof {
                        v.lemma_value();
                    }
                    Ok(v)
                },
            },
        },
        Atom::And => {
            let v = a.bit_and(b);
            proof {
                v.lemma_value();
            }
            Ok(v)
        },
        Atom::Or => {
            let v = a.bit_or(b);
            proof {
                v.lemma_value();
            }
            Ok(v)
        },
        Atom::Xor => {
            let v = a.bit_xor(b);
            proof {
                v.lemma_value();
            }
            Ok(v)
        },
        Atom::Less => Ok(flag(a.less(b))),
        Atom::Greater => Ok(flag(b.less(a))),
        Atom::Equal => Ok(flag(a.equals(b))),
        Atom::NotEqual => Ok(flag(!a.equals(b))),
        Atom::Assign => Ok(b),
        _ => Err(Failure::MalformedExpression),
    }
}

/// A checked result, with the overflow named.
fn settle<T: BoxInt>(v: Option<T>) -> (r: Result<T, Failure>)
    ensures
        r == (match v {
            Some(x) => Ok::<T, Failure>(x),
            None => Err::<T, Failure>(Failure::ArithmeticOverflow),
        }),
{
    match v {
        Some(x) => Ok(x),
        None => Err(Failure::ArithmeticOverflow),
    }
}

/// One for true, zero for false.
fn flag<T: BoxInt>(b: bool) -> (r: T)
    ensures
        r == truth::<T>(b),
{
    let r = if b {
        T::one()
    } else {
        T::zero()
    };
    proof {
        r.lemma_value();
    }
    r
}

/// The character that `Output` writes for `a`.
pub fn glyph_of<T: BoxInt>(a: T) -> (r: char)
    ensures
        r == printed(a.value()),
{
    match a.to_u32() {
        Some(code) => match char::from_u32(code) {
            Some(c) => c,
            None => REPLACEMENT,
        },
        None => REPLACEMENT,
    }
}

} // verus!
