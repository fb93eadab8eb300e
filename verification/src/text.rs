//! Numbers in text.
use vstd::arithmetic::div_mod::lemma_div_denominator;
use vstd::arithmetic::power::{lemma_pow_positive, pow};
use vstd::prelude::*;
use vstd::string::StringExecFns;

verus! {

/// The decimal digit of a number below ten.
pub open spec fn digit(value: nat) -> char {
    seq!['0', '1', '2', '3', '4', '5', '6', '7', '8', '9'][value as int]
}

/// The decimal digits of a number, without leading zeros.
pub open spec fn decimal(value: nat) -> Seq<char>
    decreases value,
{
    if value < 10 {
        seq![digit(value)]
    } else {
        decimal(value / 10).push(digit(value % 10))
    }
}

/// Appends a decimal digit.
fn push_digit(text: &mut String, value: usize)
    requires
        value < 10,
    ensures
        final(text)@ == old(text)@.push(digit(value as nat)),
{
    proof {
        reveal_strlit("0");
        reveal_strlit("1");
        reveal_strlit("2");
        reveal_strlit("3");
        reveal_strlit("4");
        reveal_strlit("5");
        reveal_strlit("6");
        reveal_strlit("7");
        reveal_strlit("8");
        reveal_strlit("9");
    }
    let glyph: &str = match value {
        0 => "0",
        1 => "1",
        2 => "2",
        3 => "3",
        4 => "4",
        5 => "5",
        6 => "6",
        7 => "7",
        8 => "8",
        _ => "9",
    };
    assert(glyph@ =~= seq![digit(value as nat)]);
    text.append(glyph);
    assert(text@ =~= old(text)@.push(digit(value as nat)));
}

/// Appends the decimal digits of a number.
pub(crate) fn push_decimal(text: &mut String, value: usize)
    ensures
        final(text)@ == old(text)@ + decimal(value as nat),
    decreases value,
{
    if value >= 10 {
        push_decimal(text, value / 10);
    }
    push_digit(text, value % 10);
    assert(text@ =~= old(text)@ + decimal(value as nat));
}

/// Digits are no NUL characters.
pub(crate) proof fn lemma_decimal_has_no_nul(value: nat)
    ensures
        forall|i: int| 0 <= i < decimal(value).len() ==> decimal(value)[i] != '\0',
    decreases value,
{
    let last = value % 10;
    assert(digit(last) != '\0') by {
        assert(last == 0 || last == 1 || last == 2 || last == 3 || last == 4 || last == 5 || last
            == 6 || last == 7 || last == 8 || last == 9);
    }
    if value >= 10 {
        lemma_decimal_has_no_nul(value / 10);
        assert(decimal(value) == decimal(value / 10).push(digit(last)));
    } else {
        assert(decimal(value) == seq![digit(last)]);
    }
}

/// The decimal digits of a number: digit `place`, counted from the right, is that of the
/// power `10^place`, and there are as many digits as the number needs, at least one.
pub proof fn law_decimal(value: nat, place: nat)
    requires
        place < decimal(value).len(),
    ensures
        decimal(value)[decimal(value).len() - 1 - place] as int == '0' as int + value as int / pow(
            10,
            place,
        ) % 10,
        value < pow(10, decimal(value).len()),
        decimal(value).len() == 1 || pow(10, (decimal(value).len() - 1) as nat) <= value,
    decreases value,
{
    reveal(pow);
    let digits = decimal(value);
    lemma_digit(value % 10);
    if value < 10 {
        assert(digits == seq![digit(value)]);
        assert(pow(10, 0) == 1);
        assert(pow(10, 1) == 10 * pow(10, 0));
    } else {
        let head = decimal(value / 10);
        let len = head.len();
        assert(digits == head.push(digit(value % 10)));
        lemma_has_digits(value / 10);
        law_decimal(value / 10, if place == 0 {
            0
        } else {
            (place - 1) as nat
        });
        assert(pow(10, len + 1) == 10 * pow(10, len));
        assert(pow(10, len) == 10 * pow(10, (len - 1) as nat));
        if len == 1 {
            assert(pow(10, 0) == 1);
        }
        if place == 0 {
            assert(pow(10, 0) == 1);
        } else {
            let below = pow(10, (place - 1) as nat);
            lemma_pow_positive(10, (place - 1) as nat);
            assert(pow(10, place) == 10 * below);
            lemma_div_denominator(value as int, 10, below);
        }
    }
}

/// A number has a digit.
proof fn lemma_has_digits(value: nat)
    ensures
        0 < decimal(value).len(),
{
}

/// The ten digits stand one after another.
proof fn lemma_digit(value: nat)
    requires
        value < 10,
    ensures
        digit(value) as int == '0' as int + value,
{
    assert(value == 0 || value == 1 || value == 2 || value == 3 || value == 4 || value == 5 || value
        == 6 || value == 7 || value == 8 || value == 9);
}

} // verus!
