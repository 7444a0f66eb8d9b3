use vstd::prelude::*;
use std::collections::HashMap;
use crate::lang::datatype::BoxInt;
use crate::lang::failure::Failure;
use crate::lang::form::{classes, fits_between, well_formed};
use crate::lang::glyphs::{
    atom_of,
    followed,
    is_whitespace,
    lemma_followed_push,
    lemma_run_length,
    read_numeral,
    run_length,
    tokens,
    ONE_BIT,
    ZERO_BIT,
};
use crate::lang::interpreter::{Parser, Runnable, Validator};
use crate::lang::machine::{
    apply,
    execute,
    glyph_of,
    lemma_execute_failure_stays,
    top_or_zero,
    Halt,
    Machine,
};
use crate::lang::sorter::{
    emit_before,
    emit_rest,
    emit_to_paren,
    lemma_shunt_failure_stays,
    postfix_of,
    shunt_all,
    Yard,
};
use crate::lang::text::chars_of;

verus! {

/// One lexical unit of an expression: a numeral, an operator or a
/// parenthesis.
#[derive(Copy, Debug, PartialEq)]
pub enum Atom<T: BoxInt> {
    Greater,
    Less,
    Equal,
    NotEqual,
    Assign,
    Not,
    And,
    Or,
    Xor,
    LeftShift,
    RightShift,
    Add,
    Subtract,
    Multiply,
    Divide,
    Modulo,
    InverseModulo,
    LeftParen,
    RightParen,
    Output,
    Data(T),
    Memory,
}

impl<T: BoxInt> Clone for Atom<T> {
    fn clone(&self) -> (r: Self)
        ensures
            r == *self,
    {
        *self
    }
}

/// The syntactic class of an atom.
#[derive(Clone, Copy, Debug, PartialEq, Eq)]
pub enum AtomType {
    Number,
    Binary,
    Unary,
}

impl<T: BoxInt> Atom<T> {
    /// How tightly the atom binds: operators from 1, the loosest, to 9;
    /// numerals and parentheses 0.
    pub open spec fn rank(self) -> u8 {
        match self {
            Atom::Output | Atom::Assign => 1,
            Atom::Less | Atom::Greater | Atom::Equal | Atom::NotEqual => 2,
            Atom::Or => 3,
            Atom::Xor => 4,
            Atom::And => 5,
            Atom::LeftShift | Atom::RightShift => 6,
            Atom::Add | Atom::Subtract => 7,
            Atom::Multiply | Atom::Divide | Atom::Modulo | Atom::InverseModulo => 8,
            Atom::Memory | Atom::Not => 9,
            _ => 0,
        }
    }

    /// The class of the atom: a numeral is a number; `Output`, `Memory` and
    /// `Not` are unary; everything else counts as binary.
    pub open spec fn class(self) -> AtomType {
        match self {
            Atom::Output | Atom::Memory | Atom::Not => AtomType::Unary,
            Atom::Data(_) => AtomType::Number,
            _ => AtomType::Binary,
        }
    }

    /// Whether the atom is a parenthesis.
    pub open spec fn is_paren(self) -> bool {
        self is LeftParen || self is RightParen
    }

    /// How tightly the atom binds.
    pub fn precedence(&self) -> (r: u8)
        ensures
            r == self.rank(),
    {
        match self {
            Atom::Output | Atom::Assign => 1,
            Atom::Less | Atom::Greater | Atom::Equal | Atom::NotEqual => 2,
            Atom::Or => 3,
            Atom::Xor => 4,
            Atom::And => 5,
            Atom::LeftShift | Atom::RightShift => 6,
            Atom::Add | Atom::Subtract => 7,
            Atom::Multiply | Atom::Divide | Atom::Modulo | Atom::InverseModulo => 8,
            Atom::Memory | Atom::Not => 9,
            _ => 0,
        }
    }

    /// The syntactic class of the atom.
    pub fn form(&self) -> (r: AtomType)
        ensures
            r == self.class(),
    {
        match self {
            Atom::Output | Atom::Memory | Atom::Not => AtomType::Unary,
            Atom::Data(_) => AtomType::Number,
            _ => AtomType::Binary,
        }
    }
}

/// The model of a remembered sort.
pub open spec fn memo_view<T: BoxInt>(memo: Option<Vec<Atom<T>>>) -> Option<Seq<Atom<T>>> {
    match memo {
        Some(v) => Some(v@),
        None => None,
    }
}

/// What `Molecule::sort` returns for `atoms` where `memo` is remembered:
/// the remembered sequence as it is, else the postfix form of `atoms`.
pub open spec fn sort_result<T: BoxInt>(
    atoms: Seq<Atom<T>>,
    memo: Option<Seq<Atom<T>>>,
) -> Result<Seq<Atom<T>>, Failure> {
    match memo {
        Some(sorted) => Ok(sorted),
        None => postfix_of(atoms),
    }
}

/// What is remembered after `Molecule::sort`: a sort that succeeded.
pub open spec fn sort_memo<T: BoxInt>(atoms: Seq<Atom<T>>, memo: Option<Seq<Atom<T>>>) -> Option<
    Seq<Atom<T>>,
> {
    match sort_result(atoms, memo) {
        Ok(sorted) => Some(sorted),
        Err(_) => None,
    }
}

/// Sorting once more changes nothing: whatever a sort returned is returned
/// again, for any input, once it is remembered, and stays remembered.
pub proof fn lemma_sort_idempotent<T: BoxInt>(
    atoms: Seq<Atom<T>>,
    memo: Option<Seq<Atom<T>>>,
    again: Seq<Atom<T>>,
)
    requires
        sort_result(atoms, memo) is Ok,
    ensures
        sort_result(again, sort_memo(atoms, memo)) == sort_result(atoms, memo),
        sort_memo(again, sort_memo(atoms, memo)) == sort_memo(atoms, memo),
{
}

/// A copy of `atoms`.
fn copy_atoms<T: BoxInt>(atoms: &Vec<Atom<T>>) -> (r: Vec<Atom<T>>)
    ensures
        r@ == atoms@,
{
    let mut out: Vec<Atom<T>> = Vec::new();
    let mut i: usize = 0;
    while i < atoms.len()
        invariant
            i <= atoms.len(),
            out@ == atoms@.take(i as int),
        decreases atoms.len() - i,
    {
        out.push(atoms[i]);
        i = i + 1;
    }
    out
}

/// One parsed leaf expression, with what was found out about it so far.
#[derive(Debug, PartialEq)]
pub struct Molecule<T: BoxInt> {
    children: Vec<Atom<T>>,
    sorted_children: Option<Vec<Atom<T>>>,
    valid: bool,
}

impl<T: BoxInt> Clone for Molecule<T> {
    fn clone(&self) -> (r: Self)
        ensures
            r.atoms() == self.atoms(),
            r.sorted() == self.sorted(),
            r.checked() == self.checked(),
    {
        proof {
            use_type_invariant(self);
        }
        Molecule {
            children: copy_atoms(&self.children),
            sorted_children: match &self.sorted_children {
                Some(known) => Some(copy_atoms(known)),
                None => None,
            },
            valid: self.valid,
        }
    }
}

impl<T: BoxInt> Molecule<T> {
    /// What is remembered is true of the atoms: they are well formed where
    /// `valid` says so, and a remembered sort is their postfix form.
    #[verifier::type_invariant]
    spec fn remembers_truly(self) -> bool {
        &&& self.valid ==> well_formed(classes(self.children@))
        &&& self.sorted_children matches Some(v) ==> postfix_of(self.children@) == Ok::<
            Seq<Atom<T>>,
            Failure,
        >(v@)
    }

    /// The atoms of the expression, as written.
    pub closed spec fn atoms(self) -> Seq<Atom<T>> {
        self.children@
    }

    /// The postfix form, once it is known.
    pub closed spec fn sorted(self) -> Option<Seq<Atom<T>>> {
        memo_view(self.sorted_children)
    }

    /// Whether the expression is known to be well formed.
    pub closed spec fn checked(self) -> bool {
        self.valid
    }

    /// The expression of `children`, of which nothing is known yet.
    pub fn new(children: Vec<Atom<T>>) -> (r: Molecule<T>)
        ensures
            r.atoms() == children@,
            r.sorted() is None,
            !r.checked(),
    {
        Molecule { children, sorted_children: None, valid: false }
    }

    /// Brings `children` into postfix form by precedence, or returns what
    /// `sorted` remembers of an earlier sort.
    pub fn sort(children: &[Atom<T>], sorted: &mut Option<Vec<Atom<T>>>) -> (r: Result<
        Vec<Atom<T>>,
        Failure,
    >)
        ensures
            match r {
                Ok(v) => sort_result(children@, memo_view(*old(sorted))) == Ok::<
                    Seq<Atom<T>>,
                    Failure,
                >(v@),
                Err(e) => sort_result(children@, memo_view(*old(sorted))) == Err::<
                    Seq<Atom<T>>,
                    Failure,
                >(e),
            },
            memo_view(*final(sorted)) == sort_memo(children@, memo_view(*old(sorted))),
    {
        if let Some(known) = sorted {
            return Ok(copy_atoms(known));
        }
        let mut output: Vec<Atom<T>> = Vec::new();
        let mut stack: Vec<Atom<T>> = Vec::new();
        let mut i: usize = 0;
        while i < children.len()
            invariant
                i <= children.len(),
                *sorted == *old(sorted),
                *sorted is None,
                shunt_all(children@.take(i as int)) == Ok::<Yard<T>, Failure>(
                    Yard { output: output@, stack: stack@ },
                ),
            decreases children.len() - i,
        {
            let child = children[i];
            proof {
                assert(children@.take(i + 1).drop_last() == children@.take(i as int));
                assert(children@.take(i + 1).last() == child);
            }
            match child {
                Atom::Data(_) => {
                    output.push(child);
                },
                Atom::LeftParen | Atom::Not | Atom::Memory => {
                    stack.push(child);
                },
                Atom::RightParen => {
                    if !emit_to_paren(&mut output, &mut stack) {
                        proof {
                            lemma_shunt_failure_stays(
                                children@,
                                i + 1,
                                Failure::MissingLeftParenthesis,
                            );
                        }
                        return Err(Failure::MissingLeftParenthesis);
                    }
                },
                _ => {
                    emit_before(&mut output, &mut stack, child);
                    stack.push(child);
                },
            }
            i = i + 1;
        }
        proof {
            assert(children@.take(children.len() as int) == children@);
        }
        if !emit_rest(&mut output, &mut stack) {
            return Err(Failure::MissingRightParenthesis);
        }
        let result = copy_atoms(&output);
        *sorted = Some(output);
        Ok(result)
    }
}

impl<T: BoxInt> Validator<Atom<T>> for Molecule<T> {
    /// Decides whether `children` are well formed, unless `valid` says that
    /// this is known already.
    fn validate(children: &[Atom<T>], valid: &mut bool) -> (r: Result<(), Failure>)
        ensures
            *final(valid) == (*old(valid) || well_formed(classes(children@))),
            r == (if *final(valid) {
                Ok::<(), Failure>(())
            } else {
                Err::<(), Failure>(Failure::MalformedExpression)
            }),
    {
        if *valid {
            return Ok(());
        }
        let mut kinds: Vec<AtomType> = Vec::new();
        let mut i: usize = 0;
        while i < children.len()
            invariant
                i <= children.len(),
                kinds@ == classes(children@.take(i as int)),
                *valid == *old(valid),
            decreases children.len() - i,
        {
            let child = children[i];
            proof {
                assert(children@.take(i + 1).drop_last() == children@.take(i as int));
            }
            match child {
                Atom::LeftParen | Atom::RightParen => {},
                _ => {
                    kinds.push(child.form());
                },
            }
            i = i + 1;
        }
        proof {
            assert(children@.take(children.len() as int) == children@);
        }
        let n = kinds.len();
        if n == 0 {
            *valid = true;
            return Ok(());
        }
        if n == 1 {
            if matches!(kinds[0], AtomType::Number) {
                *valid = true;
                return Ok(());
            }
            return Err(Failure::MalformedExpression);
        }
        let first = match kinds[0] {
            AtomType::Number => matches!(kinds[1], AtomType::Binary),
            AtomType::Unary => !matches!(kinds[1], AtomType::Binary),
            AtomType::Binary => false,
        };
        let last = matches!(kinds[n - 1], AtomType::Number) && !matches!(
            kinds[n - 2],
            AtomType::Number
        );
        let mut inner = true;
        let mut j: usize = 1;
        while j < n - 1
            invariant
                n == kinds.len(),
                n >= 2,
                1 <= j <= n - 1,
                inner == (forall|k: int| 0 < k < j ==> fits_between(kinds@, k)),
            decreases n - j,
        {
            let fit = match kinds[j] {
                AtomType::Number => !matches!(kinds[j - 1], AtomType::Number) && !matches!(
                    kinds[j + 1],
                    AtomType::Number
                ),
                AtomType::Unary => !matches!(kinds[j + 1], AtomType::Binary),
                AtomType::Binary => matches!(kinds[j - 1], AtomType::Number) && !matches!(
                    kinds[j + 1],
                    AtomType::Binary
                ),
            };
            proof {
                assert(fit == fits_between(kinds@, j as int));
                if inner && fit {
                    assert forall|k: int| 0 < k < j + 1 implies fits_between(kinds@, k) by {
                        if k < j {
                            assert(fits_between(kinds@, k));
                        }
                    }
                }
            }
            inner = inner && fit;
            j = j + 1;
        }
        if first && last && inner {
            *valid = true;
            Ok(())
        } else {
            Err(Failure::MalformedExpression)
        }
    }
}

impl<T: BoxInt> Parser<Atom<T>> for Molecule<T> {
    /// Reads the atoms of an expression from its glyphs.
    fn parse(expr: &str) -> (r: Result<Vec<Atom<T>>, Failure>)
        ensures
            match r {
                Ok(atoms) => tokens::<T>(expr@) == Ok::<Seq<Atom<T>>, Failure>(atoms@),
                Err(e) => tokens::<T>(expr@) == Err::<Seq<Atom<T>>, Failure>(e),
            },
    {
        let chars = chars_of(expr);
        let mut children: Vec<Atom<T>> = Vec::new();
        let mut i: usize = 0;
        proof {
            assert(chars@.skip(0) == chars@);
            assert(followed(children@, tokens::<T>(chars@)) == tokens::<T>(chars@)) by {
                if let Ok(atoms) = tokens::<T>(chars@) {
                    assert(children@ + atoms == atoms);
                }
            }
        }
        while i < chars.len()
            invariant
                i <= chars.len(),
                chars@ == expr@,
                tokens::<T>(chars@) == followed(children@, tokens::<T>(chars@.skip(i as int))),
            decreases chars.len() - i,
        {
            let c = chars[i];
            let ghost rest = chars@.skip(i as int);
            let ghost before = children@;
            proof {
                assert(rest[0] == c);
                assert(rest.drop_first() == chars@.skip(i + 1));
            }
            if is_whitespace(c) {
                i = i + 1;
            } else if c == ZERO_BIT || c == ONE_BIT {
                proof {
                    lemma_run_length(rest);
                    let n = run_length(rest) as int;
                    assert(rest.take(n) == chars@.subrange(i as int, i + n));
                    assert(rest.skip(n) == chars@.skip(i + n));
                }
                match read_numeral::<T>(&chars, i) {
                    Ok((end, value)) => {
                        children.push(Atom::Data(value));
                        proof {
                            lemma_followed_push(
                                before,
                                Atom::Data(value),
                                tokens::<T>(chars@.skip(end as int)),
                            );
                        }
                        i = end;
                    },
                    Err(e) => {
                        return Err(e);
                    },
                }
            } else {
                match atom_of::<T>(c) {
                    Some(atom) => {
                        children.push(atom);
                        proof {
                            lemma_followed_push(before, atom, tokens::<T>(chars@.skip(i + 1)));
                        }
                        i = i + 1;
                    },
                    None => {
                        return Err(Failure::InvalidCharacter);
                    },
                }
            }
        }
        proof {
            assert(children@ + Seq::<Atom<T>>::empty() == children@);
        }
        Ok(children)
    }
}

/// What a run of an expression gives: its result, and the memory and the
/// output after it.
#[verifier::reject_recursive_types(T)]
pub struct Evaluation<T: BoxInt> {
    pub result: Result<T, Failure>,
    pub memory: Map<T, T>,
    pub output: Seq<char>,
}

/// The run of the expression `atoms` on `memory`, with `output` written
/// before: the atoms have to be well formed and to have a postfix form,
/// which the stack machine then runs. A failure leaves the memory and the
/// output as they were when it came.
pub open spec fn evaluation<T: BoxInt>(
    atoms: Seq<Atom<T>>,
    memory: Map<T, T>,
    output: Seq<char>,
) -> Evaluation<T> {
    if !well_formed(classes(atoms)) {
        Evaluation { result: Err(Failure::MalformedExpression), memory, output }
    } else {
        match postfix_of(atoms) {
            Err(e) => Evaluation { result: Err(e), memory, output },
            Ok(postfix) => {
                let halt = execute(Machine { stack: Seq::empty(), memory, output }, postfix);
                Evaluation {
                    result: match halt.failure {
                        Some(e) => Err(e),
                        None => Ok(top_or_zero(halt.machine.stack)),
                    },
                    memory: halt.machine.memory,
                    output: halt.machine.output,
                }
            },
        }
    }
}

impl<T: BoxInt> Runnable<T> for Molecule<T> {
    /// Runs the expression on `memory`, appends what it writes to `stdout`,
    /// and returns its result with all of `stdout`. What the run finds out
    /// about the form of the expression is remembered for the next run.
    fn run(&mut self, memory: &mut HashMap<T, T>, stdout: &mut String) -> (r: Result<
        (T, String),
        Failure,
    >)
        ensures
            final(self).atoms() == old(self).atoms(),
            final(self).checked() == (old(self).checked() || well_formed(
                classes(old(self).atoms()),
            )),
            final(self).sorted() == (if final(self).checked() {
                sort_memo(old(self).atoms(), old(self).sorted())
            } else {
                old(self).sorted()
            }),
            ({
                let run = evaluation(old(self).atoms(), old(memory)@, old(stdout)@);
                &&& final(memory)@ == run.memory
                &&& final(stdout)@ == run.output
                &&& match r {
                    Ok((value, text)) => run.result == Ok::<T, Failure>(value) && text@
                        == run.output,
                    Err(e) => run.result == Err::<T, Failure>(e),
                }
            }),
    {
        proof {
            use_type_invariant(&*self);
            T::lemma_key_model();
        }
        let mut valid = self.valid;
        let validated = Self::validate(self.children.as_slice(), &mut valid);
        self.valid = valid;
        if let Err(e) = validated {
            return Err(e);
        }
        let mut memo: Option<Vec<Atom<T>>> = None;
        let children = match &self.sorted_children {
            Some(known) => copy_atoms(known),
            None => {
                let sorted = Self::sort(self.children.as_slice(), &mut memo);
                self.sorted_children = memo;
                match sorted {
                    Ok(sorted) => sorted,
                    Err(e) => {
                        return Err(e);
                    },
                }
            },
        };
        let ghost start = Machine { stack: Seq::<T>::empty(), memory: memory@, output: stdout@ };
        let ghost checked = *self;
        let mut stack: Vec<T> = Vec::new();
        let mut i: usize = 0;
        while i < children.len()
            invariant
                i <= children.len(),
                *self == checked,
                checked.atoms() == old(self).atoms(),
                checked.checked(),
                checked.sorted() == sort_memo(old(self).atoms(), old(self).sorted()),
                well_formed(classes(old(self).atoms())),
                postfix_of(old(self).atoms()) == Ok::<Seq<Atom<T>>, Failure>(children@),
                start == (Machine {
                    stack: Seq::<T>::empty(),
                    memory: old(memory)@,
                    output: old(stdout)@,
                }),
                vstd::std_specs::hash::obeys_key_model::<T>(),
                execute(start, children@.take(i as int)) == (Halt {
                    machine: Machine { stack: stack@, memory: memory@, output: stdout@ },
                    failure: None,
                }),
            decreases children.len() - i,
        {
            broadcast use vstd::std_specs::hash::group_hash_axioms;

            let child = children[i];
            let ghost before = Machine { stack: stack@, memory: memory@, output: stdout@ };
            proof {
                assert(children@.take(i + 1).drop_last() == children@.take(i as int));
                assert(children@.take(i + 1).last() == child);
            }
            match child {
                Atom::Data(n) => {
                    stack.push(n);
                },
                Atom::Memory | Atom::Not | Atom::Output => {
                    let a = match stack.pop() {
                        Some(a) => a,
                        None => {
                            proof {
                                lemma_execute_failure_stays(start, children@, i + 1);
                            }
                            return Err(Failure::MalformedExpression);
                        },
                    };
                    match child {
                        Atom::Memory => {
                            let held = match memory.get(&a) {
                                Some(v) => *v,
                                None => {
                                    let zero = T::zero();
                                    proof {
                                        zero.lemma_value();
                                    }
                                    zero
                                },
                            };
                            stack.push(held);
                        },
                        Atom::Not => {
                            let v = a.bit_not();
                            proof {
                                v.lemma_value();
                            }
                            stack.push(v);
                        },
                        _ => {
                            stack.push(a);
                            stdout.push(glyph_of(a));
                            assert(stack@ == before.stack);
                        },
                    }
                },
                _ => {
                    if stack.len() < 2 {
                        proof {
                            lemma_execute_failure_stays(start, children@, i + 1);
                        }
                        return Err(Failure::MalformedExpression);
                    }
                    let b = stack.pop().unwrap();
                    let a = stack.pop().unwrap();
                    match apply(child, a, b) {
                        Ok(v) => {
                            if matches!(child, Atom::Assign) {
                                memory.insert(a, b);
                            }
                            stack.push(v);
                        },
                        Err(e) => {
                            proof {
                                lemma_execute_failure_stays(start, children@, i + 1);
                            }
                            return Err(e);
                        },
                    }
                },
            }
            i = i + 1;
        }
        proof {
            assert(children@.take(children.len() as int) == children@);
        }
        let top = match stack.pop() {
            Some(v) => v,
            None => {
                let zero = T::zero();
                proof {
                    zero.lemma_value();
                }
                zero
            },
        };
        Ok((top, stdout.clone()))
    }
}

} // verus!
