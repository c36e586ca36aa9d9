//! Small text utilities: newline trimming, decimal formatting of a
//! millisecond duration, and address formatting for log lines.

use vstd::prelude::*;
use vstd::string::StrSliceExecFns;
use vstd::string::StringExecFns;

verus! {

/// A copy of the input without its final newline, if it has one.
pub fn remove_trailing_newline(input: &str) -> (r: String)
    ensures
        r@ == if input@.len() > 0 && input@.last() == '\n' {
            input@.drop_last()
        } else {
            input@
        },
{
    let n = input.unicode_len();
    if n > 0 && input.get_char(n - 1) == '\n' {
        let trimmed = input.substring_char(0, n - 1);
        proof {
            assert(trimmed@ =~= input@.drop_last());
        }
        trimmed.to_owned()
    } else {
        input.to_owned()
    }
}

/// Relies on std's pointer formatting: the result renders the address of
/// the reference in hexadecimal, so beyond being nonempty nothing is
/// promised of it.
#[verifier::external_body]
pub fn format_as_pointer<T>(val: &T) -> (r: String)
    ensures
        r@.len() > 0,
{
    format!("{:p}", val)
}

/// The decimal digit character for a value below ten.
pub open spec fn spec_dec_digit(d: int) -> char {
    if d == 0 {
        '0'
    } else if d == 1 {
        '1'
    } else if d == 2 {
        '2'
    } else if d == 3 {
        '3'
    } else if d == 4 {
        '4'
    } else if d == 5 {
        '5'
    } else if d == 6 {
        '6'
    } else if d == 7 {
        '7'
    } else if d == 8 {
        '8'
    } else {
        '9'
    }
}

/// The decimal digits of a value, most significant first, no leading
/// zeroes.
pub open spec fn spec_decimal(v: int) -> Seq<char>
    decreases v,
{
    if v < 10 {
        seq![spec_dec_digit(v)]
    } else {
        spec_decimal(v / 10).push(spec_dec_digit(v % 10))
    }
}

/// Append one decimal digit.
fn push_dec_digit(out: &mut String, d: u64)
    requires
        d < 10,
    ensures
        final(out)@ == old(out)@.push(spec_dec_digit(d as int)),
{
    let ghost expected = spec_dec_digit(d as int);
    let digit: &str = if d == 0 {
        "0"
    } else if d == 1 {
        "1"
    } else if d == 2 {
        "2"
    } else if d == 3 {
        "3"
    } else if d == 4 {
        "4"
    } else if d == 5 {
        "5"
    } else if d == 6 {
        "6"
    } else if d == 7 {
        "7"
    } else if d == 8 {
        "8"
    } else {
        "9"
    };
    proof {
        reveal_strlit("0");
        reveal_strlit("1");
        reveal_strlit("2");
        reveal_strlit("3");
        reveal_strlit("4");
        reveal_strlit("5");
        reveal_strlit("6");
        reveal_strlit("7");
        reveal_strlit("8");
        reveal_strlit("9");
        assert(digit@ =~= seq![expected]);
    }
    out.append(digit);
    proof {
        assert(out@ =~= old(out)@.push(expected));
    }
}

/// Append a value's decimal digits, most significant first.
pub fn push_decimal(out: &mut String, v: u64)
    ensures
        final(out)@ == old(out)@ + spec_decimal(v as int),
    decreases v,
{
    if v < 10 {
        push_dec_digit(out, v);
        proof {
            assert(old(out)@.push(spec_dec_digit(v as int)) =~= old(out)@ + spec_decimal(
                v as int,
            ));
        }
    } else {
        push_decimal(out, v / 10);
        push_dec_digit(out, v % 10);
        proof {
            assert((old(out)@ + spec_decimal(v as int / 10)).push(spec_dec_digit(v as int % 10))
                =~= old(out)@ + spec_decimal(v as int));
        }
    }
}

/// A duration held as whole nanoseconds, displayed as milliseconds.
#[derive(Clone, Copy, Debug, PartialEq, Eq, Structural)]
pub struct Ms(pub u64);

impl Ms {
    /// The duration as text: whole milliseconds, a dot, three digits of
    /// microsecond precision, and the unit.
    pub fn display_string(&self) -> (r: String)
        ensures
            r@ == ({
                let micros = self.0 as int / 1000 % 1000;
                spec_decimal(self.0 as int / 1000000) + seq!['.'] + spec_decimal(micros / 100)
                    + spec_decimal(micros / 10 % 10) + spec_decimal(micros % 10) + seq!['m', 's']
            }),
    {
        let mut out = String::new();
        push_decimal(&mut out, self.0 / 1000000);
        proof {
            reveal_strlit(".");
            reveal_strlit("ms");
        }
        out.append(".");
        let micros = self.0 / 1000 % 1000;
        push_decimal(&mut out, micros / 100);
        push_decimal(&mut out, micros / 10 % 10);
        push_decimal(&mut out, micros % 10);
        out.append("ms");
        proof {
            assert("."@ =~= seq!['.']);
            assert("ms"@ =~= seq!['m', 's']);
            let micros_g = self.0 as int / 1000 % 1000;
            assert(out@ =~= spec_decimal(self.0 as int / 1000000) + seq!['.'] + spec_decimal(
                micros_g / 100,
            ) + spec_decimal(micros_g / 10 % 10) + spec_decimal(micros_g % 10) + seq!['m', 's']);
        }
        out
    }
}

} // verus!
