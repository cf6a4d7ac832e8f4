//! Decimal rendering of machine integers.

use vstd::prelude::*;
use vstd::string::StringExecFns;

verus! {

/// The character of one decimal digit.
pub open spec fn digit_char(digit: nat) -> char
    recommends
        digit < 10,
{
    seq!['0', '1', '2', '3', '4', '5', '6', '7', '8', '9'][digit as int]
}

/// The decimal numeral of `value`, most significant digit first, without
/// leading zeros.
pub open spec fn decimal_text(value: nat) -> Seq<char>
    decreases value,
{
    if value < 10 {
        seq![digit_char(value)]
    } else {
        decimal_text(value / 10).push(digit_char(value % 10))
    }
}

/// Appends one decimal digit to `out`.
fn push_digit(out: &mut String, digit: u64)
    requires
        digit < 10,
    ensures
        final(out)@ == old(out)@.push(digit_char(digit as nat)),
{
    let text: &str = match digit {
        0 => "0",
        1 => "1",
        2 => "2",
        3 => "3",
        4 => "4",
        5 => "5",
        6 => "6",
        7 => "7",
        8 => "8",
        _ => "9",
    };
    proof {
        reveal_strlit("0");
        reveal_strlit("1");
        reveal_strlit("2");
        reveal_strlit("3");
        reveal_strlit("4");
        reveal_strlit("5");
        reveal_strlit("6");
        reveal_strlit("7");
        reveal_strlit("8");
        reveal_strlit("9");
    }
    out.append(text);
    assert(out@ =~= old(out)@.push(digit_char(digit as nat)));
}

/// Appends the decimal numeral of `value` to `out`.
pub fn push_decimal(out: &mut String, value: u64)
    ensures
        final(out)@ == old(out)@ + decimal_text(value as nat),
    decreases value,
{
    if value >= 10 {
        push_decimal(out, value / 10);
    }
    push_digit(out, value % 10);
    assert(out@ =~= old(out)@ + decimal_text(value as nat));
}

/// The number that a row of decimal digits stands for.
pub open spec fn numeral_value(text: Seq<char>) -> nat
    decreases text.len(),
{
    if text.len() == 0 {
        0
    } else {
        numeral_value(text.drop_last()) * 10 + (text.last() as nat - '0' as nat) as nat
    }
}

/// A numeral consists of digits, stands for its number and has no leading
/// zero.
pub proof fn law_numeral_stands_for_its_number(value: nat)
    ensures
        decimal_text(value).len() > 0,
        forall|i: int|
            0 <= i < decimal_text(value).len() ==> '0' as nat <= #[trigger] decimal_text(
                value,
            )[i] as nat <= '9' as nat,
        numeral_value(decimal_text(value)) == value,
        decimal_text(value)[0] == '0' ==> value == 0 && decimal_text(value).len() == 1,
    decreases value,
{
    if value >= 10 {
        law_numeral_stands_for_its_number(value / 10);
        let text = decimal_text(value);
        assert(text.drop_last() =~= decimal_text(value / 10));
        assert forall|i: int| 0 <= i < text.len() implies '0' as nat <= #[trigger] text[i] as nat
            <= '9' as nat by {
            if i < text.len() - 1 {
                assert(text[i] == decimal_text(value / 10)[i]);
            }
        }
        assert(text[0] == decimal_text(value / 10)[0]);
    } else {
        assert(decimal_text(value).drop_last() =~= Seq::empty());
        reveal_with_fuel(numeral_value, 2);
    }
}

} // verus!
