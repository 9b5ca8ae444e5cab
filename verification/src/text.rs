//! Rendering of non-negative numbers as decimal text: plain digit runs,
//! two-digit zero-padded fields, fixed-point values with two decimal places,
//! and durations as `HH:MM:SS`.
use vstd::prelude::*;

verus! {

/// The decimal digit character for one digit value.
pub open spec fn digit_char(d: int) -> char {
    if d == 0 {
        '0'
    } else if d == 1 {
        '1'
    } else if d == 2 {
        '2'
    } else if d == 3 {
        '3'
    } else if d == 4 {
        '4'
    } else if d == 5 {
        '5'
    } else if d == 6 {
        '6'
    } else if d == 7 {
        '7'
    } else if d == 8 {
        '8'
    } else {
        '9'
    }
}

/// The usual decimal rendering of a non-negative number: no sign, no leading
/// zeros except for the single digit of zero itself.
pub open spec fn dec_digits(n: int) -> Seq<char>
    recommends
        n >= 0,
    decreases n,
{
    if n <= 9 {
        seq![digit_char(if n < 0 { 0 } else { n })]
    } else {
        dec_digits(n / 10).push(digit_char(n % 10))
    }
}

/// A number rendered with at least two digits, zero-padded on the left.
pub open spec fn pad2(n: int) -> Seq<char>
    recommends
        n >= 0,
{
    if n <= 9 {
        seq!['0'] + dec_digits(n)
    } else {
        dec_digits(n)
    }
}

/// A count of hundredths rendered with exactly two decimal places.
pub open spec fn two_dec(hundredths: int) -> Seq<char>
    recommends
        hundredths >= 0,
{
    dec_digits(hundredths / 100) + seq!['.'] + pad2(hundredths % 100)
}

/// A count of whole seconds rendered as `HH:MM:SS`: hours unbounded, minutes
/// and seconds taken modulo sixty, every field zero-padded to two digits.
pub open spec fn hms(seconds: int) -> Seq<char>
    recommends
        seconds >= 0,
{
    pad2(seconds / 3600) + seq![':'] + pad2((seconds / 60) % 60) + seq![':'] + pad2(seconds % 60)
}

/// Appends the decimal digit character for `d` to `s`.
fn push_digit(s: &mut String, d: u128)
    requires
        d <= 9,
    ensures
        final(s)@ == old(s)@.push(digit_char(d as int)),
{
    if d == 0 {
        proof {
            reveal_strlit("0");
            assert(old(s)@ + "0"@ =~= old(s)@.push('0'));
        }
        s.append("0");
    } else if d == 1 {
        proof {
            reveal_strlit("1");
            assert(old(s)@ + "1"@ =~= old(s)@.push('1'));
        }
        s.append("1");
    } else if d == 2 {
        proof {
            reveal_strlit("2");
            assert(old(s)@ + "2"@ =~= old(s)@.push('2'));
        }
        s.append("2");
    } else if d == 3 {
        proof {
            reveal_strlit("3");
            assert(old(s)@ + "3"@ =~= old(s)@.push('3'));
        }
        s.append("3");
    } else if d == 4 {
        proof {
            reveal_strlit("4");
            assert(old(s)@ + "4"@ =~= old(s)@.push('4'));
        }
        s.append("4");
    } else if d == 5 {
        proof {
            reveal_strlit("5");
            assert(old(s)@ + "5"@ =~= old(s)@.push('5'));
        }
        s.append("5");
    } else if d == 6 {
        proof {
            reveal_strlit("6");
            assert(old(s)@ + "6"@ =~= old(s)@.push('6'));
        }
        s.append("6");
    } else if d == 7 {
        proof {
            reveal_strlit("7");
            assert(old(s)@ + "7"@ =~= old(s)@.push('7'));
        }
        s.append("7");
    } else if d == 8 {
        proof {
            reveal_strlit("8");
            assert(old(s)@ + "8"@ =~= old(s)@.push('8'));
        }
        s.append("8");
    } else {
        proof {
            reveal_strlit("9");
            assert(old(s)@ + "9"@ =~= old(s)@.push('9'));
        }
        s.append("9");
    }
}

/// Appends the decimal rendering of `n` to `s`.
pub fn push_decimal(s: &mut String, n: u128)
    ensures
        final(s)@ == old(s)@ + dec_digits(n as int),
    decreases n,
{
    if n <= 9 {
        push_digit(s, n);
        proof {
            assert(old(s)@.push(digit_char(n as int)) =~= old(s)@ + dec_digits(n as int));
        }
    } else {
        push_decimal(s, n / 10);
        push_digit(s, n % 10);
        proof {
            assert((old(s)@ + dec_digits(n as int / 10)).push(digit_char(n as int % 10)) =~= old(
                s,
            )@ + dec_digits(n as int));
        }
    }
}

/// Appends `n` zero-padded to at least two digits.
pub fn push_pad2(s: &mut String, n: u128)
    ensures
        final(s)@ == old(s)@ + pad2(n as int),
{
    if n <= 9 {
        proof {
            reveal_strlit("0");
        }
        s.append("0");
        push_digit(s, n);
        proof {
            assert((old(s)@ + "0"@).push(digit_char(n as int)) =~= old(s)@ + pad2(n as int));
        }
    } else {
        push_decimal(s, n);
    }
}

/// Appends `hundredths` rendered with exactly two decimal places.
pub fn push_two_dec(s: &mut String, hundredths: u128)
    ensures
        final(s)@ == old(s)@ + two_dec(hundredths as int),
{
    push_decimal(s, hundredths / 100);
    proof {
        reveal_strlit(".");
    }
    s.append(".");
    push_pad2(s, hundredths % 100);
    proof {
        assert(old(s)@ + dec_digits(hundredths as int / 100) + "."@ + pad2(hundredths as int % 100)
            =~= old(s)@ + two_dec(hundredths as int));
    }
}

/// Renders a count of whole seconds as `HH:MM:SS`, hours not wrapped at
/// twenty-four.
pub fn format_duration_as_hms(seconds: u64) -> (r: String)
    ensures
        r@ == hms(seconds as int),
{
    let mut s = String::new();
    push_pad2(&mut s, (seconds / 3600) as u128);
    proof {
        reveal_strlit(":");
    }
    s.append(":");
    push_pad2(&mut s, ((seconds / 60) % 60) as u128);
    s.append(":");
    push_pad2(&mut s, (seconds % 60) as u128);
    proof {
        assert(Seq::<char>::empty() + pad2(seconds as int / 3600) + ":"@ + pad2(
            (seconds as int / 60) % 60,
        ) + ":"@ + pad2(seconds as int % 60) =~= hms(seconds as int));
    }
    s
}

} // verus!
