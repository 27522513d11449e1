//! Printable forms of literal values, used to name derived schema fields.

use vstd::prelude::*;

verus! {

/// The character for one decimal digit.
pub open spec fn spec_digit_char(d: int) -> char {
    if d == 0 {
        '0'
    } else if d == 1 {
        '1'
    } else if d == 2 {
        '2'
    } else if d == 3 {
        '3'
    } else if d == 4 {
        '4'
    } else if d == 5 {
        '5'
    } else if d == 6 {
        '6'
    } else if d == 7 {
        '7'
    } else if d == 8 {
        '8'
    } else {
        '9'
    }
}

/// The decimal digits of `n`, most significant first.
pub open spec fn spec_nat_decimal(n: nat) -> Seq<char>
    decreases n,
{
    if n < 10 {
        seq![spec_digit_char(n as int)]
    } else {
        spec_nat_decimal(n / 10) + seq![spec_digit_char((n % 10) as int)]
    }
}

/// The decimal form of `v`, with a leading minus sign when negative.
pub open spec fn spec_i32_decimal(v: int) -> Seq<char> {
    if v < 0 {
        seq!['-'] + spec_nat_decimal((-v) as nat)
    } else {
        spec_nat_decimal(v as nat)
    }
}

/// The printable form of a boolean.
pub open spec fn spec_bool_text(b: bool) -> Seq<char> {
    if b {
        "true"@
    } else {
        "false"@
    }
}

/// Appends one decimal digit to `s`.
fn push_digit(s: &mut String, d: u32)
    requires
        d < 10,
    ensures
        final(s)@ == old(s)@ + seq![spec_digit_char(d as int)],
{
    match d {
        0 => {
            proof {
                reveal_strlit("0");
            }
            s.append("0");
        },
        1 => {
            proof {
                reveal_strlit("1");
            }
            s.append("1");
        },
        2 => {
            proof {
                reveal_strlit("2");
            }
            s.append("2");
        },
        3 => {
            proof {
                reveal_strlit("3");
            }
            s.append("3");
        },
        4 => {
            proof {
                reveal_strlit("4");
            }
            s.append("4");
        },
        5 => {
            proof {
                reveal_strlit("5");
            }
            s.append("5");
        },
        6 => {
            proof {
                reveal_strlit("6");
            }
            s.append("6");
        },
        7 => {
            proof {
                reveal_strlit("7");
            }
            s.append("7");
        },
        8 => {
            proof {
                reveal_strlit("8");
            }
            s.append("8");
        },
        _ => {
            proof {
                reveal_strlit("9");
            }
            s.append("9");
        },
    }
    proof {
        assert(final(s)@ =~= old(s)@ + seq![spec_digit_char(d as int)]);
    }
}

/// Appends the decimal digits of `m` to `s`, most significant first.
fn push_nat_decimal(s: &mut String, m: u32)
    ensures
        final(s)@ == old(s)@ + spec_nat_decimal(m as nat),
    decreases m,
{
    if m >= 10 {
        push_nat_decimal(s, m / 10);
        push_digit(s, m % 10);
        proof {
            assert(final(s)@ =~= old(s)@ + spec_nat_decimal(m as nat));
        }
    } else {
        push_digit(s, m);
    }
}

/// The decimal form of `v`, with a leading minus sign when negative.
pub fn i32_decimal_string(v: i32) -> (s: String)
    ensures
        s@ == spec_i32_decimal(v as int),
{
    let mut s = String::new();
    if v < 0 {
        proof {
            reveal_strlit("-");
        }
        s.append("-");
        let m: u32 = (-(v as i64)) as u32;
        assert(m as nat == (-(v as int)) as nat);
        push_nat_decimal(&mut s, m);
        proof {
            assert(s@ =~= spec_i32_decimal(v as int));
        }
    } else {
        push_nat_decimal(&mut s, v as u32);
        proof {
            assert(s@ =~= spec_i32_decimal(v as int));
        }
    }
    s
}

/// The printable form of a boolean.
pub fn bool_text_string(b: bool) -> (s: String)
    ensures
        s@ == spec_bool_text(b),
{
    if b {
        "true".to_owned()
    } else {
        "false".to_owned()
    }
}

} // verus!
