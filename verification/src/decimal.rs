//! Numbers in decimal.

use vstd::prelude::*;
use vstd::string::*;

use crate::ssm_fault_in::{digits_value, is_digit};

verus! {

/// The digit of `d`.
pub open spec fn digit_char(d: int) -> char {
    if d == 0 {
        '0'
    } else if d == 1 {
        '1'
    } else if d == 2 {
        '2'
    } else if d == 3 {
        '3'
    } else if d == 4 {
        '4'
    } else if d == 5 {
        '5'
    } else if d == 6 {
        '6'
    } else if d == 7 {
        '7'
    } else if d == 8 {
        '8'
    } else {
        '9'
    }
}

/// The decimal digits of `n`, without leading zeros.
pub open spec fn decimal(n: nat) -> Seq<char>
    decreases n,
{
    if n < 10 {
        seq![digit_char(n as int)]
    } else {
        decimal(n / 10).push(digit_char((n % 10) as int))
    }
}

/// The decimal digits of a number stand for it.
pub proof fn decimal_stands_for_its_number(n: nat)
    ensures
        digits_value(decimal(n)) == n,
        decimal(n).len() > 0,
        forall|i: int| 0 <= i < decimal(n).len() ==> is_digit(#[trigger] decimal(n)[i]),
    decreases n,
{
    if n < 10 {
        let s = decimal(n);
        assert(s.drop_last() =~= Seq::empty());
        assert(digits_value(s.drop_last()) == 0);
    } else {
        decimal_stands_for_its_number(n / 10);
        let s = decimal(n);
        assert(s.drop_last() =~= decimal(n / 10));
    }
}

/// The digit of `d`, as text.
fn digit_text(d: u64) -> (r: &'static str)
    requires
        d < 10,
    ensures
        r@ == seq![digit_char(d as int)],
{
    proof {
        reveal_strlit("0");
        reveal_strlit("1");
        reveal_strlit("2");
        reveal_strlit("3");
        reveal_strlit("4");
        reveal_strlit("5");
        reveal_strlit("6");
        reveal_strlit("7");
        reveal_strlit("8");
        reveal_strlit("9");
    }
    let text: &'static str = if d == 0 {
        "0"
    } else if d == 1 {
        "1"
    } else if d == 2 {
        "2"
    } else if d == 3 {
        "3"
    } else if d == 4 {
        "4"
    } else if d == 5 {
        "5"
    } else if d == 6 {
        "6"
    } else if d == 7 {
        "7"
    } else if d == 8 {
        "8"
    } else {
        "9"
    };
    assert(text@ =~= seq![digit_char(d as int)]);
    text
}

/// Append the decimal digits of `n`.
pub fn push_decimal(out: &mut String, n: u64)
    ensures
        final(out)@ == old(out)@ + decimal(n as nat),
    decreases n,
{
    if n >= 10 {
        push_decimal(out, n / 10);
    }
    out.append(digit_text(n % 10));
    assert(out@ =~= old(out)@ + decimal(n as nat));
}

/// A number is written as its last decimal digit behind the rest, and a digit as itself.
pub proof fn numbers_are_written_digit_by_digit(
    out: &mut String,
    out2: &mut String,
    n: u64,
    m: u64,
    d: int,
)
    requires
        call_ensures(push_decimal, (out, n), ()),
        call_ensures(push_decimal, (out2, m), ()),
        old(out)@ == old(out2)@,
        0 <= d < 10,
        n == m * 10 + d,
        m > 0,
    ensures
        final(out)@.len() == final(out2)@.len() + 1,
        final(out)@.drop_last() == final(out2)@,
        final(out)@.last() as int == '0' as int + d,
{
    assert(n as nat / 10 == m as nat && n as nat % 10 == d) by (nonlinear_arith)
        requires
            n == m * 10 + d,
            0 <= d < 10,
    ;
    assert(final(out)@.drop_last() =~= final(out2)@);
}

/// A number below ten is written as its one digit, behind what was there.
pub proof fn digits_are_written_as_themselves(out: &mut String, n: u64)
    requires
        call_ensures(push_decimal, (out, n), ()),
        n < 10,
    ensures
        final(out)@.len() == old(out)@.len() + 1,
        final(out)@.drop_last() == old(out)@,
        final(out)@.last() as int == '0' as int + n,
{
    assert(final(out)@.drop_last() =~= old(out)@);
}

} // verus!
