use vstd::prelude::*;
use crate::lang::datatype::BoxInt;
use crate::lang::expression::Atom;
use crate::lang::failure::Failure;

verus! {

/// The two lists of the precedence sorter: what has been emitted, and the
/// operators that wait, the last one on top.
pub struct Yard<T: BoxInt> {
    pub output: Seq<Atom<T>>,
    pub stack: Seq<Atom<T>>,
}

/// Whether the operator `top` leaves the stack before `incoming` is pushed:
/// it binds at least as tightly, or more tightly where `incoming` is an
/// assignment, which groups to the right.
pub open spec fn yields<T: BoxInt>(top: Atom<T>, incoming: Atom<T>) -> bool {
    if incoming is Assign {
        top.rank() > incoming.rank()
    } else {
        top.rank() >= incoming.rank()
    }
}

/// The lists after every operator on top of the stack that yields to
/// `incoming` has been emitted.
pub open spec fn emit_yielding<T: BoxInt>(yard: Yard<T>, incoming: Atom<T>) -> Yard<T>
    decreases yard.stack.len(),
{
    if yard.stack.len() > 0 && yields(yard.stack.last(), incoming) {
        emit_yielding(
            Yard { output: yard.output.push(yard.stack.last()), stack: yard.stack.drop_last() },
            incoming,
        )
    } else {
        yard
    }
}

/// The lists after a right parenthesis: the operators above the nearest left
/// parenthesis are emitted and the parenthesis is dropped. `None` where the
/// stack holds no left parenthesis.
pub open spec fn close_paren<T: BoxInt>(yard: Yard<T>) -> Option<Yard<T>>
    decreases yard.stack.len(),
{
    if yard.stack.len() == 0 {
        None
    } else if yard.stack.last() is LeftParen {
        Some(Yard { output: yard.output, stack: yard.stack.drop_last() })
    } else {
        close_paren(
            Yard { output: yard.output.push(yard.stack.last()), stack: yard.stack.drop_last() },
        )
    }
}

/// The lists after one more atom of the input.
pub open spec fn shunt<T: BoxInt>(yard: Yard<T>, atom: Atom<T>) -> Result<Yard<T>, Failure> {
    match atom {
        Atom::Data(_) => Ok(Yard { output: yard.output.push(atom), stack: yard.stack }),
        Atom::LeftParen | Atom::Not | Atom::Memory => Ok(
            Yard { output: yard.output, stack: yard.stack.push(atom) },
        ),
        Atom::RightParen => match close_paren(yard) {
            Some(closed) => Ok(closed),
            None => Err(Failure::MissingLeftParenthesis),
        },
        _ => {
            let emitted = emit_yielding(yard, atom);
            Ok(Yard { output: emitted.output, stack: emitted.stack.push(atom) })
        },
    }
}

/// The lists after all of `atoms`, or the failure at the first atom that
/// cannot be taken.
pub open spec fn shunt_all<T: BoxInt>(atoms: Seq<Atom<T>>) -> Result<Yard<T>, Failure>
    decreases atoms.len(),
{
    if atoms.len() == 0 {
        Ok(Yard { output: Seq::empty(), stack: Seq::empty() })
    } else {
        match shunt_all(atoms.drop_last()) {
            Ok(yard) => shunt(yard, atoms.last()),
            Err(e) => Err(e),
        }
    }
}

/// What is emitted when the input has ended: the waiting operators from the
/// top down, unless a left parenthesis is still among them.
pub open spec fn flush<T: BoxInt>(yard: Yard<T>) -> Result<Seq<Atom<T>>, Failure>
    decreases yard.stack.len(),
{
    if yard.stack.len() == 0 {
        Ok(yard.output)
    } else if yard.stack.last() is LeftParen {
        Err(Failure::MissingRightParenthesis)
    } else {
        flush(Yard { output: yard.output.push(yard.stack.last()), stack: yard.stack.drop_last() })
    }
}

/// The postfix form of `atoms`.
pub open spec fn postfix_of<T: BoxInt>(atoms: Seq<Atom<T>>) -> Result<Seq<Atom<T>>, Failure> {
    match shunt_all(atoms) {
        Ok(yard) => flush(yard),
        Err(e) => Err(e),
    }
}

/// Once an atom could not be taken, no longer input can be sorted.
pub proof fn lemma_shunt_failure_stays<T: BoxInt>(atoms: Seq<Atom<T>>, n: int, e: Failure)
    requires
        0 <= n <= atoms.len(),
        shunt_all(atoms.take(n)) == Err::<Yard<T>, Failure>(e),
    ensures
        shunt_all(atoms) == Err::<Yard<T>, Failure>(e),
    decreases atoms.len() - n,
{
    if n < atoms.len() {
        assert(atoms.take(n + 1).drop_last() == atoms.take(n));
        lemma_shunt_failure_stays(atoms, n + 1, e);
    } else {
        assert(atoms.take(n) == atoms);
    }
}

/// Whether the lists hold what the sorter can have put there: no
/// parenthesis among what was emitted, and neither a numeral nor a right
/// parenthesis among the operators that wait.
pub open spec fn orderly<T: BoxInt>(yard: Yard<T>) -> bool {
    &&& forall|i: int| 0 <= i < yard.output.len() ==> !(#[trigger] yard.output[i]).is_paren()
    &&& forall|i: int|
        0 <= i < yard.stack.len() ==> !((#[trigger] yard.stack[i]) is RightParen)
            && !(yard.stack[i] is Data)
}

proof fn lemma_emit_yielding_orderly<T: BoxInt>(yard: Yard<T>, incoming: Atom<T>)
    requires
        orderly(yard),
        incoming.rank() >= 1,
    ensures
        orderly(emit_yielding(yard, incoming)),
    decreases yard.stack.len(),
{
    if yard.stack.len() > 0 && yields(yard.stack.last(), incoming) {
        let next = Yard { output: yard.output.push(yard.stack.last()), stack: yard.stack.drop_last() };
        assert(!yard.stack[yard.stack.len() - 1].is_paren());
        lemma_emit_yielding_orderly(next, incoming);
    }
}

proof fn lemma_close_paren_orderly<T: BoxInt>(yard: Yard<T>)
    requires
        orderly(yard),
    ensures
        close_paren(yard) matches Some(closed) ==> orderly(closed),
    decreases yard.stack.len(),
{
    if yard.stack.len() > 0 && !(yard.stack.last() is LeftParen) {
        let next = Yard { output: yard.output.push(yard.stack.last()), stack: yard.stack.drop_last() };
        assert(!yard.stack[yard.stack.len() - 1].is_paren());
        lemma_close_paren_orderly(next);
    }
}

proof fn lemma_shunt_all_orderly<T: BoxInt>(atoms: Seq<Atom<T>>)
    ensures
        shunt_all(atoms) matches Ok(yard) ==> orderly(yard),
    decreases atoms.len(),
{
    if atoms.len() > 0 {
        lemma_shunt_all_orderly(atoms.drop_last());
        if let Ok(yard) = shunt_all(atoms.drop_last()) {
            let atom = atoms.last();
            match atom {
                Atom::Data(_) => {},
                Atom::LeftParen | Atom::Not | Atom::Memory => {},
                Atom::RightParen => {
                    lemma_close_paren_orderly(yard);
                },
                _ => {
                    lemma_emit_yielding_orderly(yard, atom);
                },
            }
        }
    }
}

proof fn lemma_flush_orderly<T: BoxInt>(yard: Yard<T>)
    requires
        orderly(yard),
    ensures
        flush(yard) matches Ok(postfix) ==> forall|i: int|
            0 <= i < postfix.len() ==> !(#[trigger] postfix[i]).is_paren(),
    decreases yard.stack.len(),
{
    if yard.stack.len() > 0 && !(yard.stack.last() is LeftParen) {
        let next = Yard { output: yard.output.push(yard.stack.last()), stack: yard.stack.drop_last() };
        assert(!yard.stack[yard.stack.len() - 1].is_paren());
        lemma_flush_orderly(next);
    }
}

/// A postfix form holds no parenthesis.
pub proof fn lemma_postfix_has_no_paren<T: BoxInt>(atoms: Seq<Atom<T>>)
    ensures
        postfix_of(atoms) matches Ok(postfix) ==> forall|i: int|
            0 <= i < postfix.len() ==> !(#[trigger] postfix[i]).is_paren(),
{
    lemma_shunt_all_orderly(atoms);
    if let Ok(yard) = shunt_all(atoms) {
        lemma_flush_orderly(yard);
    }
}

/// How often `atom` occurs in `atoms`.
pub open spec fn occurrences<T: BoxInt>(atoms: Seq<Atom<T>>, atom: Atom<T>) -> nat
    decreases atoms.len(),
{
    if atoms.len() == 0 {
        0
    } else if atoms.last() == atom {
        occurrences(atoms.drop_last(), atom) + 1
    } else {
        occurrences(atoms.drop_last(), atom)
    }
}

/// How often `atom` occurs in the two lists together.
pub open spec fn held<T: BoxInt>(yard: Yard<T>, atom: Atom<T>) -> nat {
    occurrences(yard.output, atom) + occurrences(yard.stack, atom)
}

proof fn lemma_occurrences_push<T: BoxInt>(atoms: Seq<Atom<T>>, last: Atom<T>, atom: Atom<T>)
    ensures
        occurrences(atoms.push(last), atom) == occurrences(atoms, atom) + (if last == atom {
            1nat
        } else {
            0nat
        }),
{
    assert(atoms.push(last).drop_last() == atoms);
}

/// Moving the operator on top of the stack to the output keeps what the
/// lists hold.
proof fn lemma_emit_keeps<T: BoxInt>(yard: Yard<T>, atom: Atom<T>)
    requires
        yard.stack.len() > 0,
    ensures
        held(
            Yard { output: yard.output.push(yard.stack.last()), stack: yard.stack.drop_last() },
            atom,
        ) == held(yard, atom),
{
    lemma_occurrences_push(yard.output, yard.stack.last(), atom);
}

proof fn lemma_emit_yielding_keeps<T: BoxInt>(yard: Yard<T>, incoming: Atom<T>, atom: Atom<T>)
    ensures
        held(emit_yielding(yard, incoming), atom) == held(yard, atom),
    decreases yard.stack.len(),
{
    if yard.stack.len() > 0 && yields(yard.stack.last(), incoming) {
        let next = Yard { output: yard.output.push(yard.stack.last()), stack: yard.stack.drop_last() };
        lemma_emit_keeps(yard, atom);
        lemma_emit_yielding_keeps(next, incoming, atom);
    }
}

proof fn lemma_close_paren_keeps<T: BoxInt>(yard: Yard<T>, atom: Atom<T>)
    requires
        !atom.is_paren(),
    ensures
        close_paren(yard) matches Some(closed) ==> held(closed, atom) == held(yard, atom),
    decreases yard.stack.len(),
{
    if yard.stack.len() > 0 && !(yard.stack.last() is LeftParen) {
        let next = Yard { output: yard.output.push(yard.stack.last()), stack: yard.stack.drop_last() };
        lemma_emit_keeps(yard, atom);
        lemma_close_paren_keeps(next, atom);
    }
}

proof fn lemma_shunt_all_keeps<T: BoxInt>(atoms: Seq<Atom<T>>, atom: Atom<T>)
    requires
        !atom.is_paren(),
    ensures
        shunt_all(atoms) matches Ok(yard) ==> held(yard, atom) == occurrences(atoms, atom),
    decreases atoms.len(),
{
    if atoms.len() > 0 {
        lemma_shunt_all_keeps(atoms.drop_last(), atom);
        if let Ok(yard) = shunt_all(atoms.drop_last()) {
            let last = atoms.last();
            match last {
                Atom::Data(_) => {
                    lemma_occurrences_push(yard.output, last, atom);
                },
                Atom::LeftParen | Atom::Not | Atom::Memory => {
                    lemma_occurrences_push(yard.stack, last, atom);
                },
                Atom::RightParen => {
                    lemma_close_paren_keeps(yard, atom);
                },
                _ => {
                    lemma_emit_yielding_keeps(yard, last, atom);
                    lemma_occurrences_push(emit_yielding(yard, last).stack, last, atom);
                },
            }
        }
    }
}

proof fn lemma_flush_keeps<T: BoxInt>(yard: Yard<T>, atom: Atom<T>)
    ensures
        flush(yard) matches Ok(postfix) ==> occurrences(postfix, atom) == held(yard, atom),
    decreases yard.stack.len(),
{
    if yard.stack.len() > 0 && !(yard.stack.last() is LeftParen) {
        let next = Yard { output: yard.output.push(yard.stack.last()), stack: yard.stack.drop_last() };
        lemma_emit_keeps(yard, atom);
        lemma_flush_keeps(next, atom);
    }
}

/// Sorting only reorders: whatever is no parenthesis occurs in the postfix
/// form as often as in the input.
pub proof fn lemma_postfix_reorders<T: BoxInt>(atoms: Seq<Atom<T>>, atom: Atom<T>)
    requires
        !atom.is_paren(),
    ensures
        postfix_of(atoms) matches Ok(postfix) ==> occurrences(postfix, atom) == occurrences(
            atoms,
            atom,
        ),
{
    lemma_shunt_all_keeps(atoms, atom);
    if let Ok(yard) = shunt_all(atoms) {
        lemma_flush_keeps(yard, atom);
    }
}

/// Emits the operators above the nearest left parenthesis and drops the
/// parenthesis; `false` where there is none.
pub fn emit_to_paren<T: BoxInt>(output: &mut Vec<Atom<T>>, stack: &mut Vec<Atom<T>>) -> (found: bool)
    ensures
        close_paren(Yard { output: old(output)@, stack: old(stack)@ }) == (if found {
            Some(Yard { output: final(output)@, stack: final(stack)@ })
        } else {
            None
        }),
{
    loop
        invariant
            close_paren(Yard { output: old(output)@, stack: old(stack)@ }) == close_paren(
                Yard { output: output@, stack: stack@ },
            ),
        decreases stack.len(),
    {
        match stack.pop() {
            None => {
                return false;
            },
            Some(Atom::LeftParen) => {
                return true;
            },
            Some(top) => {
                output.push(top);
            },
        }
    }
}

/// Emits the operators on top of the stack that yield to `incoming`.
pub fn emit_before<T: BoxInt>(
    output: &mut Vec<Atom<T>>,
    stack: &mut Vec<Atom<T>>,
    incoming: Atom<T>,
)
    ensures
        emit_yielding(Yard { output: old(output)@, stack: old(stack)@ }, incoming) == (Yard {
            output: final(output)@,
            stack: final(stack)@,
        }),
{
    let precedence = incoming.precedence();
    let right = matches!(incoming, Atom::Assign);
    loop
        invariant
            emit_yielding(Yard { output: old(output)@, stack: old(stack)@ }, incoming)
                == emit_yielding(Yard { output: output@, stack: stack@ }, incoming),
            precedence == incoming.rank(),
            right == (incoming is Assign),
        decreases stack.len(),
    {
        if stack.len() == 0 {
            return ;
        }
        let top = stack[stack.len() - 1];
        let rank = top.precedence();
        if (right && rank > precedence) || (!right && rank >= precedence) {
            stack.pop();
            output.push(top);
        } else {
            return ;
        }
    }
}

/// Emits the operators that still wait when the input has ended; `false`
/// where a left parenthesis is among them.
pub fn emit_rest<T: BoxInt>(output: &mut Vec<Atom<T>>, stack: &mut Vec<Atom<T>>) -> (done: bool)
    ensures
        flush(Yard { output: old(output)@, stack: old(stack)@ }) == (if done {
            Ok::<Seq<Atom<T>>, Failure>(final(output)@)
        } else {
            Err::<Seq<Atom<T>>, Failure>(Failure::MissingRightParenthesis)
        }),
{
    loop
        invariant
            flush(Yard { output: old(output)@, stack: old(stack)@ }) == flush(
                Yard { output: output@, stack: stack@ },
            ),
        decreases stack.len(),
    {
        match stack.pop() {
            None => {
                return true;
            },
            Some(Atom::LeftParen) => {
                return false;
            },
            Some(top) => {
                output.push(top);
            },
        }
    }
}

} // verus!
