use vstd::prelude::*;
use crate::lang::datatype::BoxInt;
use crate::lang::expression::Atom;
use crate::lang::failure::Failure;

verus! {

/// The glyph of a binary digit zero; at the head of a numeral, the sign of a
/// negative number.
pub const ZERO_BIT: char = '\u{2584}';

/// The glyph of a binary digit one; at the head of a numeral, the sign of a
/// number that is not negative.
pub const ONE_BIT: char = '\u{2580}';

/// Whether `c` is white space: a character with the Unicode property
/// `White_Space`.
pub open spec fn is_space(c: char) -> bool {
    let u = c as u32;
    ||| 0x09 <= u <= 0x0D
    ||| u == 0x20
    ||| u == 0x85
    ||| u == 0xA0
    ||| u == 0x1680
    ||| 0x2000 <= u <= 0x200A
    ||| u == 0x2028
    ||| u == 0x2029
    ||| u == 0x202F
    ||| u == 0x205F
    ||| u == 0x3000
}

/// Whether `c` is one of the two glyphs that numerals are written with.
pub open spec fn is_bit(c: char) -> bool {
    c == ZERO_BIT || c == ONE_BIT
}

/// The operator or parenthesis that the glyph `c` stands for.
pub open spec fn glyph<T: BoxInt>(c: char) -> Option<Atom<T>> {
    if c == '\u{2595}' {
        Some(Atom::LeftParen)
    } else if c == '\u{258F}' {
        Some(Atom::RightParen)
    } else if c == '\u{2594}' {
        Some(Atom::Not)
    } else if c == '\u{2596}' {
        Some(Atom::Modulo)
    } else if c == '\u{2597}' {
        Some(Atom::InverseModulo)
    } else if c == '\u{2598}' {
        Some(Atom::Multiply)
    } else if c == '\u{259D}' {
        Some(Atom::Divide)
    } else if c == '\u{259A}' {
        Some(Atom::LeftShift)
    } else if c == '\u{259E}' {
        Some(Atom::RightShift)
    } else if c == '\u{2590}' {
        Some(Atom::Add)
    } else if c == '\u{258C}' {
        Some(Atom::Subtract)
    } else if c == '\u{25A8}' {
        Some(Atom::Less)
    } else if c == '\u{25A7}' {
        Some(Atom::Greater)
    } else if c == '\u{25A4}' {
        Some(Atom::Equal)
    } else if c == '\u{25A5}' {
        Some(Atom::NotEqual)
    } else if c == '\u{2591}' {
        Some(Atom::And)
    } else if c == '\u{2592}' {
        Some(Atom::Xor)
    } else if c == '\u{2593}' {
        Some(Atom::Or)
    } else if c == '\u{25C7}' {
        Some(Atom::Memory)
    } else if c == '\u{25C8}' {
        Some(Atom::Assign)
    } else if c == '\u{25AD}' {
        Some(Atom::Output)
    } else {
        None
    }
}

/// The number of bit glyphs that `s` starts with.
pub open spec fn run_length(s: Seq<char>) -> nat
    decreases s.len(),
{
    if s.len() > 0 && is_bit(s[0]) {
        1 + run_length(s.drop_first())
    } else {
        0
    }
}

/// The number that a sequence of bit glyphs denotes, the most significant
/// bit first.
pub open spec fn binary_value(bits: Seq<char>) -> nat
    decreases bits.len(),
{
    if bits.len() == 0 {
        0
    } else {
        2 * binary_value(bits.drop_last()) + (if bits.last() == ONE_BIT {
            1nat
        } else {
            0nat
        })
    }
}

/// The value of a numeral, which is a run of one or more bit glyphs: the
/// first is the sign, the others are the magnitude, which has to lie in the
/// numeric domain.
pub open spec fn numeral<T: BoxInt>(run: Seq<char>) -> Result<T, Failure> {
    let magnitude = binary_value(run.skip(1)) as int;
    if magnitude > T::max_int() {
        Err(Failure::ArithmeticOverflow)
    } else if run[0] == ZERO_BIT {
        Ok(T::of_int(-magnitude))
    } else {
        Ok(T::of_int(magnitude))
    }
}

/// `first` before whatever follows, unless what follows has failed.
pub open spec fn followed<T: BoxInt>(
    first: Seq<Atom<T>>,
    rest: Result<Seq<Atom<T>>, Failure>,
) -> Result<Seq<Atom<T>>, Failure> {
    match rest {
        Ok(atoms) => Ok(first + atoms),
        Err(e) => Err(e),
    }
}

/// An atom may be counted with what came before it or with what follows.
pub proof fn lemma_followed_push<T: BoxInt>(
    before: Seq<Atom<T>>,
    atom: Atom<T>,
    rest: Result<Seq<Atom<T>>, Failure>,
)
    ensures
        followed(before, followed(seq![atom], rest)) == followed(before.push(atom), rest),
{
    if let Ok(atoms) = rest {
        assert(before + (seq![atom] + atoms) == before.push(atom) + atoms);
    }
}

/// The atoms that the text `s` denotes: white space is skipped, a longest
/// run of bit glyphs is one numeral, any other glyph of the alphabet is one
/// atom. The first numeral out of range or character outside the alphabet
/// is the failure.
pub open spec fn tokens<T: BoxInt>(s: Seq<char>) -> Result<Seq<Atom<T>>, Failure>
    decreases s.len(),
{
    if s.len() == 0 {
        Ok(Seq::empty())
    } else if is_space(s[0]) {
        tokens(s.drop_first())
    } else if is_bit(s[0]) {
        let n = run_length(s);
        proof {
            lemma_run_length(s);
        }
        match numeral::<T>(s.take(n as int)) {
            Ok(v) => followed(seq![Atom::Data(v)], tokens(s.skip(n as int))),
            Err(e) => Err(e),
        }
    } else {
        match glyph::<T>(s[0]) {
            Some(atom) => followed(seq![atom], tokens(s.drop_first())),
            None => Err(Failure::InvalidCharacter),
        }
    }
}

/// A run covers only bit glyphs, ends where they end, and is not empty
/// where the text starts with one.
pub proof fn lemma_run_length(s: Seq<char>)
    ensures
        run_length(s) <= s.len(),
        s.len() > 0 && is_bit(s[0]) ==> run_length(s) >= 1,
        forall|i: int| 0 <= i < run_length(s) ==> is_bit(#[trigger] s[i]),
        run_length(s) < s.len() ==> !is_bit(s[run_length(s) as int]),
    decreases s.len(),
{
    if s.len() > 0 && is_bit(s[0]) {
        let rest = s.drop_first();
        lemma_run_length(rest);
        assert forall|i: int| 0 <= i < run_length(s) implies is_bit(#[trigger] s[i]) by {
            if i > 0 {
                assert(s[i] == rest[i - 1]);
            }
        }
        if run_length(s) < s.len() {
            assert(s[run_length(s) as int] == rest[run_length(rest) as int]);
        }
    }
}

/// The run at the start of `s` has the length `n` where the first `n`
/// characters are bit glyphs and the next one, if any, is none.
pub proof fn lemma_run_found(s: Seq<char>, n: int)
    requires
        0 <= n <= s.len(),
        forall|i: int| 0 <= i < n ==> is_bit(#[trigger] s[i]),
        n < s.len() ==> !is_bit(s[n]),
    ensures
        run_length(s) == n,
    decreases n,
{
    if n > 0 {
        let rest = s.drop_first();
        assert forall|i: int| 0 <= i < n - 1 implies is_bit(#[trigger] rest[i]) by {
            assert(rest[i] == s[i + 1]);
        }
        if n - 1 < rest.len() {
            assert(rest[n - 1] == s[n]);
        }
        lemma_run_found(rest, n - 1);
    }
}

/// More bits do not make a smaller number.
pub proof fn lemma_binary_value_grows(bits: Seq<char>, n: int)
    requires
        0 <= n <= bits.len(),
    ensures
        binary_value(bits.take(n)) <= binary_value(bits),
    decreases bits.len(),
{
    if n < bits.len() {
        assert(bits.drop_last().take(n) == bits.take(n));
        lemma_binary_value_grows(bits.drop_last(), n);
    } else {
        assert(bits.take(n) == bits);
    }
}

pub fn is_whitespace(c: char) -> (r: bool)
    ensures
        r == is_space(c),
{
    let u: u32 = c as u32;
    (0x09 <= u && u <= 0x0D) || u == 0x20 || u == 0x85 || u == 0xA0 || u == 0x1680 || (0x2000 <= u
        && u <= 0x200A) || u == 0x2028 || u == 0x2029 || u == 0x202F || u == 0x205F || u == 0x3000
}

/// The operator or parenthesis of a glyph, if it is one.
pub fn atom_of<T: BoxInt>(c: char) -> (r: Option<Atom<T>>)
    ensures
        r == glyph::<T>(c),
{
    match c {
        '\u{2595}' => Some(Atom::LeftParen),
        '\u{258F}' => Some(Atom::RightParen),
        '\u{2594}' => Some(Atom::Not),
        '\u{2596}' => Some(Atom::Modulo),
        '\u{2597}' => Some(Atom::InverseModulo),
        '\u{2598}' => Some(Atom::Multiply),
        '\u{259D}' => Some(Atom::Divide),
        '\u{259A}' => Some(Atom::LeftShift),
        '\u{259E}' => Some(Atom::RightShift),
        '\u{2590}' => Some(Atom::Add),
        '\u{258C}' => Some(Atom::Subtract),
        '\u{25A8}' => Some(Atom::Less),
        '\u{25A7}' => Some(Atom::Greater),
        '\u{25A4}' => Some(Atom::Equal),
        '\u{25A5}' => Some(Atom::NotEqual),
        '\u{2591}' => Some(Atom::And),
        '\u{2592}' => Some(Atom::Xor),
        '\u{2593}' => Some(Atom::Or),
        '\u{25C7}' => Some(Atom::Memory),
        '\u{25C8}' => Some(Atom::Assign),
        '\u{25AD}' => Some(Atom::Output),
        _ => None,
    }
}

/// Reads the numeral that starts at `start`: where it ends, and its value.
pub fn read_numeral<T: BoxInt>(chars: &Vec<char>, start: usize) -> (r: Result<(usize, T), Failure>)
    requires
        start < chars.len(),
        is_bit(chars[start as int]),
    ensures
        ({
            let n = run_length(chars@.skip(start as int));
            let value = numeral::<T>(chars@.subrange(start as int, start + n));
            match r {
                Ok((end, v)) => end == start + n && value == Ok::<T, Failure>(v),
                Err(e) => value == Err::<T, Failure>(e),
            }
        }),
{
    let ghost n = run_length(chars@.skip(start as int));
    let ghost run = chars@.subrange(start as int, start + n);
    let one = T::one();
    let mut acc = T::zero();
    let mut j: usize = start + 1;
    proof {
        T::lemma_limits();
        lemma_run_length(chars@.skip(start as int));
        assert(chars@.subrange(start + 1, j as int) =~= Seq::<char>::empty());
    }
    while j < chars.len() && (chars[j] == ZERO_BIT || chars[j] == ONE_BIT)
        invariant
            start < j <= chars.len(),
            n == run_length(chars@.skip(start as int)),
            n <= chars.len() - start,
            forall|k: int| start <= k < j ==> is_bit(#[trigger] chars[k]),
            0 <= acc.value() <= T::max_int(),
            acc.value() == binary_value(chars@.subrange(start + 1, j as int)),
            one.value() == 1,
            T::min_int() == -T::max_int() - 1,
        decreases chars.len() - j,
    {
        let ghost seen = chars@.subrange(start + 1, j + 1);
        proof {
            assert(seen.drop_last() == chars@.subrange(start + 1, j as int));
            assert(seen.last() == chars[j as int]);
            // The run reaches at least to `j`, so what is seen is the head
            // of its magnitude.
            let s = chars@.skip(start as int);
            lemma_run_length(s);
            if n < j + 1 - start {
                assert(s[n as int] == chars[start + n]);
            }
            let bits = chars@.subrange(start as int, start + n).skip(1);
            assert(bits.take(j - start) == seen);
            lemma_binary_value_grows(bits, j - start);
        }
        let doubled = match acc.checked_add(acc) {
            Some(d) => d,
            None => {
                return Err(Failure::ArithmeticOverflow);
            },
        };
        acc = if chars[j] == ONE_BIT {
            match doubled.checked_add(one) {
                Some(d) => d,
                None => {
                    return Err(Failure::ArithmeticOverflow);
                },
            }
        } else {
            doubled
        };
        j = j + 1;
    }
    proof {
        let s = chars@.skip(start as int);
        assert forall|i: int| 0 <= i < j - start implies is_bit(#[trigger] s[i]) by {
            assert(s[i] == chars[start + i]);
        }
        if j - start < s.len() {
            assert(s[j - start] == chars[j as int]);
        }
        lemma_run_found(s, j - start);
        assert(run.skip(1) == chars@.subrange(start + 1, j as int));
        assert(run[0] == chars[start as int]);
        acc.lemma_value();
    }
    if chars[start] == ZERO_BIT {
        let negated = T::zero().checked_sub(acc);
        proof {
            negated.unwrap().lemma_value();
        }
        Ok((j, negated.unwrap()))
    } else {
        Ok((j, acc))
    }
}

} // verus!
