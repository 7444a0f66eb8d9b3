use vstd::prelude::*;
use crate::lang::datatype::BoxInt;
use crate::lang::expression::{Atom, AtomType};

verus! {

/// The classes of the atoms that are no parentheses, in order.
pub open spec fn classes<T: BoxInt>(atoms: Seq<Atom<T>>) -> Seq<AtomType>
    decreases atoms.len(),
{
    if atoms.len() == 0 {
        Seq::empty()
    } else if atoms.last().is_paren() {
        classes(atoms.drop_last())
    } else {
        classes(atoms.drop_last()).push(atoms.last().class())
    }
}

/// Whether the class at `i`, which is neither the first nor the last, may
/// stand between its neighbours: a number between two that are no numbers;
/// a unary operator before what is no binary operator; a binary operator
/// after a number and before what is no binary operator.
pub open spec fn fits_between(kinds: Seq<AtomType>, i: int) -> bool {
    match kinds[i] {
        AtomType::Number => !(kinds[i - 1] is Number) && !(kinds[i + 1] is Number),
        AtomType::Unary => !(kinds[i + 1] is Binary),
        AtomType::Binary => kinds[i - 1] is Number && !(kinds[i + 1] is Binary),
    }
}

/// Whether a sequence of classes is that of a well formed expression.
pub open spec fn well_formed(kinds: Seq<AtomType>) -> bool {
    let n = kinds.len() as int;
    if n == 0 {
        true
    } else if n == 1 {
        kinds[0] is Number
    } else {
        &&& (kinds[0] is Number && kinds[1] is Binary) || (kinds[0] is Unary && !(kinds[1]
            is Binary))
        &&& kinds[n - 1] is Number && (kinds[n - 2] is Binary || kinds[n - 2] is Unary)
        &&& forall|i: int| 0 < i < n - 1 ==> fits_between(kinds, i)
    }
}

} // verus!
