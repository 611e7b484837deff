//! Decimal text rendering for entity identifiers and texture handles, so the
//! reporter can show them as text.

use vstd::prelude::*;

verus! {

/// The decimal digit character for a value below ten.
pub open spec fn digit_char(d: int) -> char {
    if d == 0 {
        '0'
    } else if d == 1 {
        '1'
    } else if d == 2 {
        '2'
    } else if d == 3 {
        '3'
    } else if d == 4 {
        '4'
    } else if d == 5 {
        '5'
    } else if d == 6 {
        '6'
    } else if d == 7 {
        '7'
    } else if d == 8 {
        '8'
    } else {
        '9'
    }
}

/// The decimal rendering of a non-negative number, most significant digit
/// first, with no leading zeros (a lone zero renders as "0").
pub open spec fn dec_seq(n: int) -> Seq<char>
    decreases n,
{
    if n < 10 {
        seq![digit_char(n)]
    } else {
        dec_seq(n / 10).push(digit_char(n % 10))
    }
}

/// Appends the digit character for `d` to `s`.
fn push_digit(s: &mut String, d: u64)
    requires
        d < 10,
    ensures
        final(s)@ == old(s)@.push(digit_char(d as int)),
{
    proof {
        reveal_strlit("0");
        reveal_strlit("1");
        reveal_strlit("2");
        reveal_strlit("3");
        reveal_strlit("4");
        reveal_strlit("5");
        reveal_strlit("6");
        reveal_strlit("7");
        reveal_strlit("8");
        reveal_strlit("9");
    }
    if d == 0 {
        s.append("0");
    } else if d == 1 {
        s.append("1");
    } else if d == 2 {
        s.append("2");
    } else if d == 3 {
        s.append("3");
    } else if d == 4 {
        s.append("4");
    } else if d == 5 {
        s.append("5");
    } else if d == 6 {
        s.append("6");
    } else if d == 7 {
        s.append("7");
    } else if d == 8 {
        s.append("8");
    } else {
        s.append("9");
    }
    proof {
        assert(s@ =~= old(s)@.push(digit_char(d as int)));
    }
}

/// Appends the decimal rendering of `n` to `s`.
fn dec_into(n: u64, s: &mut String)
    ensures
        final(s)@ == old(s)@ + dec_seq(n as int),
    decreases n,
{
    if n < 10 {
        push_digit(s, n);
        proof {
            assert(s@ =~= old(s)@ + dec_seq(n as int));
        }
    } else {
        dec_into(n / 10, s);
        push_digit(s, n % 10);
        proof {
            assert(s@ =~= old(s)@ + dec_seq(n as int));
        }
    }
}

/// Renders a number as decimal text.
pub fn u64_to_decimal(n: u64) -> (r: String)
    ensures
        r@ == dec_seq(n as int),
{
    let mut s = String::new();
    dec_into(n, &mut s);
    proof {
        assert(s@ =~= dec_seq(n as int));
    }
    s
}

} // verus!
