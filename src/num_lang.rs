//! Words for the magnitude of a number, taken from its count of decimal digits.

use vstd::prelude::*;

verus! {

/// The number of decimal digits of `n` (zero has one digit).
pub open spec fn decimal_digits(n: nat) -> nat
    decreases n,
{
    if n < 10 {
        1
    } else {
        1 + decimal_digits(n / 10)
    }
}

/// Ten to the power `k`.
pub open spec fn ten_pow(k: nat) -> nat
    decreases k,
{
    if k == 0 {
        1
    } else {
        10 * ten_pow((k - 1) as nat)
    }
}

/// A number below `10^k` (with `k >= 1`) has at most `k` digits.
pub proof fn lemma_digits_at_most(n: nat, k: nat)
    requires
        k >= 1,
        n < ten_pow(k),
    ensures
        decimal_digits(n) <= k,
    decreases k,
{
    if n >= 10 {
        assert(ten_pow(0) == 1);
        assert(k != 1);
        lemma_digits_at_most(n / 10, (k - 1) as nat);
    }
}

/// The word for a number with `digits` decimal digits, or `"ERR"` where no
/// word is known.
pub open spec fn magnitude_word(digits: nat) -> Seq<char> {
    if digits == 3 {
        "hundred"@
    } else if digits == 4 {
        "thousand"@
    } else if digits == 5 {
        "ten thousand"@
    } else if digits == 6 {
        "hundred thousand"@
    } else if digits == 7 {
        "million"@
    } else if digits == 8 {
        "ten million"@
    } else if digits == 9 {
        "hundred million"@
    } else if digits == 10 {
        "billion"@
    } else if digits == 11 {
        "ten billion"@
    } else if digits == 12 {
        "hundred billion"@
    } else if digits == 13 {
        "trillion"@
    } else if digits == 14 {
        "ten trillion"@
    } else if digits == 15 {
        "hundred trillion"@
    } else if digits == 16 {
        "quadrillion"@
    } else {
        "ERR"@
    }
}

/// Counts the decimal digits of `num`.
pub fn count_digits(num: u32) -> (r: u32)
    ensures
        r as nat == decimal_digits(num as nat),
        1 <= r <= 10,
{
    proof {
        reveal_with_fuel(ten_pow, 11);
        lemma_digits_at_most(num as nat, 10);
    }
    let mut rest: u32 = num;
    let mut count: u32 = 1;
    while rest >= 10
        invariant
            count + decimal_digits(rest as nat) == decimal_digits(num as nat) + 1,
            decimal_digits(num as nat) <= 10,
            1 <= count,
        decreases rest,
    {
        rest = rest / 10;
        count = count + 1;
    }
    count
}

/// The magnitude word for `num`: `"million"` for a seven-digit number, and so on
/// from `"hundred"` (three digits) up; `"ERR"` for fewer than three digits.
pub fn get_name(num: u32) -> (r: String)
    ensures
        r@ == magnitude_word(decimal_digits(num as nat)),
{
    let digits = count_digits(num);
    let word: &str = if digits == 3 {
        "hundred"
    } else if digits == 4 {
        "thousand"
    } else if digits == 5 {
        "ten thousand"
    } else if digits == 6 {
        "hundred thousand"
    } else if digits == 7 {
        "million"
    } else if digits == 8 {
        "ten million"
    } else if digits == 9 {
        "hundred million"
    } else if digits == 10 {
        "billion"
    } else {
        "ERR"
    };
    word.to_owned()
}

} // verus!
