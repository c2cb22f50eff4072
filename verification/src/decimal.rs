//! Decimal text of integers.

use vstd::prelude::*;

verus! {

/// The character of a decimal digit.
pub open spec fn digit(n: nat) -> char
    recommends
        n < 10,
{
    (48 + n) as char
}

/// The decimal digits of a natural number, without leading zeros.
pub open spec fn digits(n: nat) -> Seq<char>
    decreases n,
{
    if n < 10 {
        seq![digit(n)]
    } else {
        digits(n / 10).push(digit(n % 10))
    }
}

/// The decimal text of an integer: its digits, after a minus sign where it is negative.
pub open spec fn decimal(n: int) -> Seq<char> {
    if n < 0 {
        seq!['-'] + digits((-n) as nat)
    } else {
        digits(n as nat)
    }
}

/// The decimal text of an integer.
pub fn to_decimal(n: i64) -> (text: String)
    ensures
        text@ == decimal(n as int),
{
    if n < 0 {
        let magnitude: u64 = (-(n + 1)) as u64 + 1;
        proof {
            reveal_strlit("-");
        }
        let text = "-".to_owned().concat(natural_to_decimal(magnitude).as_str());
        assert(text@ =~= decimal(n as int));
        text
    } else {
        natural_to_decimal(n as u64)
    }
}

/// The decimal text of a natural number.
pub fn natural_to_decimal(n: u64) -> (text: String)
    ensures
        text@ == digits(n as nat),
    decreases n,
{
    if n < 10 {
        one_digit(n).to_owned()
    } else {
        let text = natural_to_decimal(n / 10).concat(one_digit(n % 10));
        assert(text@ =~= digits((n / 10) as nat).push(digit((n % 10) as nat)));
        text
    }
}

fn one_digit(n: u64) -> (text: &'static str)
    requires
        n < 10,
    ensures
        text@ == seq![digit(n as nat)],
{
    proof {
        reveal_strlit("0");
        reveal_strlit("1");
        reveal_strlit("2");
        reveal_strlit("3");
        reveal_strlit("4");
        reveal_strlit("5");
        reveal_strlit("6");
        reveal_strlit("7");
        reveal_strlit("8");
        reveal_strlit("9");
    }
    let text = match n {
        0 => "0",
        1 => "1",
        2 => "2",
        3 => "3",
        4 => "4",
        5 => "5",
        6 => "6",
        7 => "7",
        8 => "8",
        _ => "9",
    };
    assert(text@ =~= seq![digit(n as nat)]);
    text
}

/// The text of a natural number is positional: it has as many characters as the number
/// has decimal places, and the character at each place is the digit for that power of
/// ten. Only zero starts with a zero.
pub proof fn lemma_digits_are_positional(n: nat)
    ensures
        digits(n).len() > 0,
        n < vstd::arithmetic::power::pow(10, digits(n).len()),
        n == 0 ==> digits(n).len() == 1,
        n > 0 ==> vstd::arithmetic::power::pow(10, (digits(n).len() - 1) as nat) <= n,
        forall|i: int|
            0 <= i < digits(n).len() ==> #[trigger] digits(n)[i] == (48 + (n as int / vstd::arithmetic::power::pow(
                10,
                (digits(n).len() - 1 - i) as nat,
            )) % 10) as char,
    decreases n,
{
    vstd::arithmetic::power::lemma_pow0(10);
    vstd::arithmetic::power::lemma_pow1(10);
    if n >= 10 {
        let m = n / 10;
        let len = digits(n).len();
        lemma_digits_are_positional(m);
        assert forall|e: nat| #[trigger] vstd::arithmetic::power::pow(10, e + 1) == 10 * vstd::arithmetic::power::pow(10, e) by {
            vstd::arithmetic::power::lemma_pow_adds(10, 1, e);
        }
        assert(vstd::arithmetic::power::pow(10, len) == 10 * vstd::arithmetic::power::pow(10, (len - 1) as nat)) by {
            assert(vstd::arithmetic::power::pow(10, (len - 1) as nat + 1) == 10 * vstd::arithmetic::power::pow(10, (len - 1) as nat));
        }
        assert(vstd::arithmetic::power::pow(10, (len - 1) as nat) == 10 * vstd::arithmetic::power::pow(10, (len - 2) as nat)) by {
            assert(vstd::arithmetic::power::pow(10, (len - 2) as nat + 1) == 10 * vstd::arithmetic::power::pow(10, (len - 2) as nat));
        }
        assert forall|i: int| 0 <= i < len implies #[trigger] digits(n)[i] == (48 + (n as int
            / vstd::arithmetic::power::pow(10, (len - 1 - i) as nat)) % 10) as char by {
            if i < len - 1 {
                let e = (len - 2 - i) as nat;
                vstd::arithmetic::power::lemma_pow_positive(10, e);
                assert(vstd::arithmetic::power::pow(10, e + 1) == 10 * vstd::arithmetic::power::pow(10, e));
                assert(e + 1 == len - 1 - i);
                vstd::arithmetic::div_mod::lemma_div_denominator(n as int, 10, vstd::arithmetic::power::pow(10, e));
                assert(n as int / vstd::arithmetic::power::pow(10, (len - 1 - i) as nat) == m as int / vstd::arithmetic::power::pow(10, e));
                assert(digits(n)[i] == digits(m)[i]);
            } else {
                assert(n as int / 1 == n);
            }
        }
    }
}

/// A negative integer is written as a minus sign and the digits of its magnitude, any
/// other as its digits alone.
pub proof fn lemma_decimal_is_signed_digits(n: nat)
    ensures
        decimal(n as int) == digits(n),
        n > 0 ==> decimal(-n)[0] == '-' && decimal(-n).skip(1) == digits(n),
{
    if n > 0 {
        assert(decimal(-n).skip(1) =~= digits(n));
    }
}

/// Different integers have different decimal texts.
pub proof fn lemma_decimal_is_injective(a: int, b: int)
    ensures
        decimal(a) == decimal(b) <==> a == b,
{
    if decimal(a) == decimal(b) {
        let m = if a < 0 {
            (-a) as nat
        } else {
            a as nat
        };
        let n = if b < 0 {
            (-b) as nat
        } else {
            b as nat
        };
        lemma_digits_are_digits(m);
        lemma_digits_are_digits(n);
        assert(decimal(a)[0] == decimal(b)[0]);
        if a < 0 {
            assert(digits(m) =~= decimal(a).skip(1));
            assert(digits(n) =~= decimal(b).skip(1));
        }
        lemma_digits_are_injective(m, n);
    }
}

proof fn lemma_digits_are_digits(n: nat)
    ensures
        digits(n).len() > 0,
        forall|i: int| 0 <= i < digits(n).len() ==> '0' <= #[trigger] digits(n)[i] <= '9',
    decreases n,
{
    if n >= 10 {
        lemma_digits_are_digits(n / 10);
    }
}

proof fn lemma_digits_are_injective(m: nat, n: nat)
    requires
        digits(m) == digits(n),
    ensures
        m == n,
    decreases m,
{
    lemma_digits_are_digits(m / 10);
    lemma_digits_are_digits(n / 10);
    assert(digits(m).last() == digits(n).last());
    assert(digits(m).last() == digit(m % 10));
    assert(digits(n).last() == digit(n % 10));
    assert(m % 10 == n % 10);
    assert(digits(m).len() == digits(n).len());
    if m >= 10 && n >= 10 {
        assert(digits(m / 10) =~= digits(m).drop_last());
        assert(digits(n / 10) =~= digits(n).drop_last());
        lemma_digits_are_injective(m / 10, n / 10);
    }
}

} // verus!
