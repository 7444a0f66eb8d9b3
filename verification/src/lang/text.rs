use vstd::prelude::*;
use vstd::string::StringExecFns;

verus! {

/// `String::push` of the standard library appends one character to the end
/// of the string and leaves what was there as it is.
pub assume_specification[ String::push ](s: &mut String, c: char)
    ensures
        final(s)@ == old(s)@.push(c),
;

/// `char::from_u32` of the standard library gives the character with the
/// code point `i`, and `None` where `i` is a surrogate or lies above
/// `0x10FFFF`.
pub assume_specification[ char::from_u32 ](i: u32) -> (r: Option<char>)
    ensures
        r == (if is_scalar_value(i as int) {
            Some(i as char)
        } else {
            None
        }),
;

/// The characters of `s`, in order.
pub fn chars_of(s: &str) -> (r: Vec<char>)
    ensures
        r@ == s@,
{
    let mut out: Vec<char> = Vec::new();
    for c in it: s.chars()
        invariant
            it.seq() == s@,
            out@ == it.seq().take(it.index() as int),
    {
        out.push(c);
    }
    out
}

/// Whether `i` is the code point of a character.
pub open spec fn is_scalar_value(i: int) -> bool {
    0 <= i <= 0xD7FF || 0xE000 <= i <= 0x10FFFF
}

/// The character of the decimal digit `d`, which is less than ten.
pub open spec fn digit_char(d: nat) -> char {
    (('0' as u8) + d) as char
}

/// The decimal digits of `n`, most significant first, without leading zeros.
pub open spec fn digits(n: nat) -> Seq<char>
    decreases n,
{
    if n < 10 {
        seq![digit_char(n)]
    } else {
        digits(n / 10).push(digit_char(n % 10))
    }
}

/// The decimal notation of `n`, with a minus sign where it is negative.
pub open spec fn decimal(n: int) -> Seq<char> {
    if n < 0 {
        seq!['-'] + digits((-n) as nat)
    } else {
        digits(n as nat)
    }
}

/// The decimal digits of `n`, least significant first.
fn digits_reversed(n: u128) -> (r: Vec<char>)
    ensures
        r@.reverse() == digits(n as nat),
{
    let mut rest: u128 = n;
    let mut out: Vec<char> = Vec::new();
    let first: u8 = (rest % 10) as u8;
    out.push((48u8 + first) as char);
    rest = rest / 10;
    proof {
        assert(out@.reverse() =~= seq![digit_char((n % 10) as nat)]);
        if n >= 10 {
            assert(digits(n as nat) =~= digits(rest as nat) + out@.reverse());
        }
    }
    while rest > 0
        invariant
            digits(n as nat) == (if rest == 0 {
                out@.reverse()
            } else {
                digits(rest as nat) + out@.reverse()
            }),
        decreases rest,
    {
        let d: u8 = (rest % 10) as u8;
        let ghost before = out@;
        out.push((48u8 + d) as char);
        proof {
            assert(out@.reverse() =~= seq![digit_char((rest % 10) as nat)] + before.reverse());
            if rest < 10 {
                assert(digits(rest as nat) + before.reverse() =~= out@.reverse());
            } else {
                assert(digits(rest as nat) + before.reverse() =~= digits((rest / 10) as nat)
                    + out@.reverse());
            }
        }
        rest = rest / 10;
    }
    out
}

/// The decimal notation of `n`.
pub fn decimal_string(n: i128) -> (r: String)
    ensures
        r@ == decimal(n as int),
{
    let mut out = String::new();
    let magnitude: u128 = if n < 0 {
        out.push('-');
        ((-(n + 1)) as u128) + 1
    } else {
        n as u128
    };
    let reversed = digits_reversed(magnitude);
    let ghost sign = out@;
    let mut i: usize = reversed.len();
    while i > 0
        invariant
            i <= reversed.len(),
            out@ == sign + reversed@.reverse().subrange(0, reversed.len() - i),
        decreases i,
    {
        i = i - 1;
        out.push(reversed[i]);
        assert(out@ =~= sign + reversed@.reverse().subrange(0, reversed.len() - i));
    }
    assert(reversed@.reverse().subrange(0, reversed.len() as int) =~= reversed@.reverse());
    out
}

/// `text` followed by the decimal notation of `n`.
pub fn with_decimal(text: String, n: i128) -> (r: String)
    ensures
        r@ == text@ + decimal(n as int),
{
    let number = decimal_string(n);
    text.concat(number.as_str())
}

} // verus!
