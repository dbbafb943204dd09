//! Numbers as digits: printing in a radix, and the value of a row of digits.
use crate::text::{is_digit, text_of};
use vstd::prelude::*;

verus! {

/// The character of the digit `d`, with lower-case letters from ten on.
pub open spec fn digit_char(d: nat) -> char {
    if d < 10 {
        (0x30 + d) as char
    } else {
        (0x57 + d) as char
    }
}

/// `n` written in `radix`, without leading zeros.
pub open spec fn printed(n: nat, radix: nat) -> Seq<char>
    decreases n,
    when radix >= 2
    via printed_decreases
{
    if n < radix {
        seq![digit_char(n)]
    } else {
        printed(n / radix, radix).push(digit_char(n % radix))
    }
}

#[via_fn]
proof fn printed_decreases(n: nat, radix: nat) {
    if n >= radix {
        assert(n / radix < n) by (nonlinear_arith)
            requires
                n >= radix >= 2,
        ;
    }
}

/// `n` in decimal.
pub open spec fn decimal(n: nat) -> Seq<char> {
    printed(n, 10)
}

/// `n` in lower-case hexadecimal.
pub open spec fn hexadecimal(n: nat) -> Seq<char> {
    printed(n, 16)
}

fn char_of_digit(d: u8) -> (c: char)
    requires
        d < 16,
    ensures
        c == digit_char(d as nat),
{
    if d < 10 {
        (0x30 + d) as char
    } else {
        (0x57 + d) as char
    }
}

/// Writes `n` in `radix`.
pub fn print_number(n: u64, radix: u64) -> (r: Vec<char>)
    requires
        2 <= radix <= 16,
    ensures
        r@ == printed(n as nat, radix as nat),
    decreases n,
{
    if n < radix {
        let mut r: Vec<char> = Vec::new();
        r.push(char_of_digit(n as u8));
        r
    } else {
        assert(n / radix < n) by (nonlinear_arith)
            requires
                n >= radix,
                radix >= 2,
        ;
        let mut r = print_number(n / radix, radix);
        r.push(char_of_digit((n % radix) as u8));
        r
    }
}

/// `n` in decimal.
pub fn print_decimal(n: u64) -> (r: String)
    ensures
        r@ == decimal(n as nat),
{
    text_of(&print_number(n, 10))
}

/// What is printed in a radix up to ten has digits only.
pub proof fn lemma_decimal_digits(n: nat)
    ensures
        decimal(n).len() >= 1,
        forall|i: int| 0 <= i < decimal(n).len() ==> is_digit(#[trigger] decimal(n)[i]),
    decreases n,
{
    if n >= 10 {
        lemma_decimal_digits(n / 10);
    }
}

/// What is printed in hexadecimal has digits and the letters `a` to `f` only.
pub proof fn lemma_hexadecimal_digits(n: nat)
    ensures
        hexadecimal(n).len() >= 1,
        forall|i: int|
            0 <= i < hexadecimal(n).len() ==> (is_digit(#[trigger] hexadecimal(n)[i]) || 'a'
                <= hexadecimal(n)[i] <= 'f'),
    decreases n,
{
    if n >= 16 {
        lemma_hexadecimal_digits(n / 16);
    }
}

/// The number that a row of digits stands for.
pub open spec fn value(s: Seq<char>) -> nat
    decreases s.len(),
{
    if s.len() == 0 {
        0
    } else {
        value(s.drop_last()) * 10 + (s.last() as nat - 0x30) as nat
    }
}

/// Printing and reading a number gives the number back.
pub proof fn lemma_value_of_decimal(n: nat)
    ensures
        value(decimal(n)) == n,
    decreases n,
{
    if n < 10 {
        let s = decimal(n);
        assert(s.drop_last() == Seq::<char>::empty());
        assert(value(s.drop_last()) == 0);
    } else {
        lemma_value_of_decimal(n / 10);
        let s = decimal(n);
        assert(s.drop_last() == decimal(n / 10));
    }
}

/// Distinct numbers are written differently.
pub proof fn lemma_decimal_injective(m: nat, n: nat)
    requires
        decimal(m) == decimal(n),
    ensures
        m == n,
{
    lemma_value_of_decimal(m);
    lemma_value_of_decimal(n);
}

} // verus!
