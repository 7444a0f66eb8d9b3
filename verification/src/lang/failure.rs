use vstd::prelude::*;
use vstd::string::StringExecFns;
use crate::lang::text::{decimal, with_decimal};

verus! {

/// The conditions that the language core reports to its caller.
#[derive(Clone, Copy, Debug, PartialEq, Eq)]
pub enum Failure {
    /// A box whose start lies after its end on some axis.
    InvalidBounds { start_x: i128, start_y: i128, end_x: i128, end_y: i128 },
    /// A glyph outside the alphabet of the instruction language.
    InvalidCharacter,
    /// An expression that is not well formed.
    MalformedExpression,
    /// A right parenthesis without a left one before it.
    MissingLeftParenthesis,
    /// A left parenthesis that is never closed.
    MissingRightParenthesis,
    /// A division by zero.
    DivisionByZero,
    /// A modulo by zero.
    InvalidModulus,
    /// A value without a multiplicative inverse for the given modulus.
    NotInvertible { value: i128 },
    /// A shift by an amount that is negative.
    NegativeShiftAmount,
    /// A result that the numeric domain cannot hold.
    ArithmeticOverflow,
}

impl Failure {
    /// The text that describes the condition.
    pub open spec fn text(self) -> Seq<char> {
        match self {
            Failure::InvalidBounds { start_x, start_y, end_x, end_y } => "Box start ("@ + decimal(
                start_x as int,
            ) + ", "@ + decimal(start_y as int) + ") is greater than end ("@ + decimal(
                end_x as int,
            ) + ", "@ + decimal(end_y as int) + ")"@,
            Failure::InvalidCharacter => "Invalid character"@,
            Failure::MalformedExpression => "Malformed expression"@,
            Failure::MissingLeftParenthesis => "Missing left parenthesis"@,
            Failure::MissingRightParenthesis => "Missing right parenthesis"@,
            Failure::DivisionByZero => "Division by zero"@,
            Failure::InvalidModulus => "Modulo caused invalid value"@,
            Failure::NotInvertible { value } => decimal(value as int) + " is not invertible"@,
            Failure::NegativeShiftAmount => "Bitwise shifts cannot use signed integers"@,
            Failure::ArithmeticOverflow => "Arithmetic overflow"@,
        }
    }

    /// Renders the condition for a reader.
    pub fn message(&self) -> (r: String)
        ensures
            r@ == self.text(),
    {
        match *self {
            Failure::InvalidBounds { start_x, start_y, end_x, end_y } => {
                let s = with_decimal(String::from_str("Box start ("), start_x);
                let s = with_decimal(s.concat(", "), start_y);
                let s = with_decimal(s.concat(") is greater than end ("), end_x);
                let s = with_decimal(s.concat(", "), end_y);
                s.concat(")")
            },
            Failure::InvalidCharacter => String::from_str("Invalid character"),
            Failure::MalformedExpression => String::from_str("Malformed expression"),
            Failure::MissingLeftParenthesis => String::from_str("Missing left parenthesis"),
            Failure::MissingRightParenthesis => String::from_str("Missing right parenthesis"),
            Failure::DivisionByZero => String::from_str("Division by zero"),
            Failure::InvalidModulus => String::from_str("Modulo caused invalid value"),
            Failure::NotInvertible { value } => {
                with_decimal(String::new(), value).concat(" is not invertible")
            },
            Failure::NegativeShiftAmount => String::from_str(
                "Bitwise shifts cannot use signed integers",
            ),
            Failure::ArithmeticOverflow => String::from_str("Arithmetic overflow"),
        }
    }
}

} // verus!
