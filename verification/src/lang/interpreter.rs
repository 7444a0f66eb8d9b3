use vstd::prelude::*;
use std::collections::HashMap;
use crate::lang::failure::Failure;

pub use crate::lang::datatype::BoxInt;

verus! {

/// Something that can be run against the memory and the output buffer of a
/// program.
pub trait Runnable<T> {
    fn run(&mut self, memory: &mut HashMap<T, T>, stdout: &mut String) -> Result<
        (T, String),
        Failure,
    >;
}

/// Something that reads a sequence of items from text.
pub trait Parser<T> {
    fn parse(expr: &str) -> Result<Vec<T>, Failure>;
}

/// Something that decides whether a sequence of items is well formed, and
/// remembers in `valid` that it is.
pub trait Validator<T> {
    fn validate(children: &[T], valid: &mut bool) -> Result<(), Failure>;
}

} // verus!
