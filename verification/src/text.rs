//! Numbers as text.

use vstd::prelude::*;
use vstd::string::StringExecFns;

verus! {

/// The character of a decimal digit.
pub open spec fn digit(value: nat) -> char {
    ('0' as int + value) as char
}

/// A number in decimal digits, without leading zeros.
pub open spec fn decimal_digits(value: nat) -> Seq<char>
    decreases value,
{
    if value < 10 {
        seq![digit(value)]
    } else {
        decimal_digits(value / 10).push(digit(value % 10))
    }
}

fn digit_text(value: u64) -> (r: &'static str)
    requires
        value < 10,
    ensures
        r@ == seq![digit(value as nat)],
{
    proof {
        reveal_strlit("0");
        reveal_strlit("1");
        reveal_strlit("2");
        reveal_strlit("3");
        reveal_strlit("4");
        reveal_strlit("5");
        reveal_strlit("6");
        reveal_strlit("7");
        reveal_strlit("8");
        reveal_strlit("9");
    }
    let text = match value {
        0 => "0",
        1 => "1",
        2 => "2",
        3 => "3",
        4 => "4",
        5 => "5",
        6 => "6",
        7 => "7",
        8 => "8",
        _ => "9",
    };
    assert(text@ =~= seq![digit(value as nat)]);
    text
}

/// A number in decimal digits.
pub fn decimal(value: u64) -> (r: String)
    ensures
        r@ == decimal_digits(value as nat),
    decreases value,
{
    let mut text = if value < 10 {
        String::new()
    } else {
        decimal(value / 10)
    };
    text.append(digit_text(value % 10));
    assert(text@ =~= decimal_digits(value as nat));
    text
}

/// The number that some digits are read as.
pub open spec fn read_as(digits: Seq<char>) -> nat
    decreases digits.len(),
{
    if digits.len() == 0 {
        0
    } else {
        read_as(digits.drop_last()) * 10 + (digits.last() as int - '0' as int) as nat
    }
}

/// A number is read back from its digits, which have no leading zero.
pub proof fn lemma_digits_are_read_back(value: nat)
    ensures
        read_as(decimal_digits(value)) == value,
        decimal_digits(value).len() > 0,
        forall|i: int|
            0 <= i < decimal_digits(value).len() ==> '0' as int <= (
            #[trigger] decimal_digits(value)[i]) as int <= '9' as int,
        value > 0 ==> decimal_digits(value)[0] != '0',
        value == 0 ==> decimal_digits(value).len() == 1,
    decreases value,
{
    let digits = decimal_digits(value);
    if value >= 10 {
        lemma_digits_are_read_back(value / 10);
        assert(digits.drop_last() =~= decimal_digits(value / 10));
        assert(digits.last() as int == '0' as int + value % 10);
    } else {
        assert(digits.drop_last() =~= Seq::<char>::empty());
        assert(read_as(digits.drop_last()) == 0);
        assert(digits.last() as int == '0' as int + value);
    }
}

} // verus!
