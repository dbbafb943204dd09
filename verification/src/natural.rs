//! Natural order of names: rows of digits compare by their value, everything
//! else by its ASCII lower case.
use crate::digits::value;
use crate::order::{
    compare_keys, ints, key_lt, lemma_key_lt_asymmetric, lemma_key_lt_irreflexive,
    lemma_key_lt_total, lemma_key_lt_transitive, KeyOrder,
};
use crate::text::{
    chars_of, in_class, is_digit, lemma_run, lemma_run_is, lower_char, run, run_end, to_lower_char,
    CharClass,
};
use std::cmp::Ordering;
use vstd::prelude::*;

verus! {

/// The value by which a row of digits is ordered: zero where it is too large
/// for sixty-four bits.
pub open spec fn row_value(digits: Seq<char>) -> nat {
    if value(digits) <= u64::MAX {
        value(digits)
    } else {
        0
    }
}

/// Where a character that is no digit stands: before all rows of digits when it
/// comes before `0`, after all of them otherwise.
pub open spec fn char_rank(c: char) -> int {
    if '0' <= c {
        0x1_0000_0000_0000_0000 + c as int
    } else {
        c as int
    }
}

/// Where a row of digits with the value `n` stands among the characters.
pub open spec fn row_rank(n: nat) -> int {
    0x30 + n as int
}

/// The natural key of a name: one number for each row of digits and one for
/// each other character. Names are ordered as their keys are.
pub open spec fn natural_key(s: Seq<char>) -> Seq<int>
    decreases s.len(),
    via natural_key_decreases
{
    if s.len() == 0 {
        seq![]
    } else if is_digit(s[0]) {
        let n = run(s, CharClass::Digit) as int;
        seq![row_rank(row_value(s.take(n)))] + natural_key(s.skip(n))
    } else {
        seq![char_rank(lower_char(s[0]))] + natural_key(s.skip(1))
    }
}

#[via_fn]
proof fn natural_key_decreases(s: Seq<char>) {
    lemma_run(s, CharClass::Digit);
}

proof fn lemma_value_grows(s: Seq<char>, n: nat)
    requires
        n <= s.len(),
        forall|i: int| 0 <= i < s.len() ==> is_digit(#[trigger] s[i]),
    ensures
        value(s.take(n as int)) <= value(s),
    decreases s.len() - n,
{
    if n < s.len() {
        lemma_value_grows(s, n + 1);
        let t = s.take(n as int + 1);
        assert(t.drop_last() == s.take(n as int));
    } else {
        assert(s.take(n as int) == s);
    }
}

/// Reads the row of digits at `from`: its value, and where it ends.
pub fn take_number(chars: &Vec<char>, from: usize) -> (r: (u64, usize))
    requires
        from <= chars.len(),
    ensures
        from <= r.1 <= chars.len(),
        r.1 == from + run(chars@.skip(from as int), CharClass::Digit),
        r.0 == row_value(chars@.subrange(from as int, r.1 as int)),
{
    let end: usize = run_end(chars, from, CharClass::Digit);
    let ghost row = chars@.subrange(from as int, end as int);
    let mut n: u64 = 0;
    let mut i: usize = from;
    proof {
        lemma_run(chars@.skip(from as int), CharClass::Digit);
        assert forall|j: int| 0 <= j < row.len() implies is_digit(#[trigger] row[j]) by {
            assert(row[j] == chars@.skip(from as int)[j]);
            assert(in_class(CharClass::Digit, chars@.skip(from as int)[j]));
        }
        assert(row.take(0) == Seq::<char>::empty());
    }
    while i < end
        invariant
            from <= i <= end <= chars.len(),
            end == from + run(chars@.skip(from as int), CharClass::Digit),
            row == chars@.subrange(from as int, end as int),
            forall|j: int| 0 <= j < row.len() ==> is_digit(#[trigger] row[j]),
            n == value(row.take(i - from)),
        decreases end - i,
    {
        let c: char = chars[i];
        assert(row[i - from] == c);
        let d: u64 = c as u64 - 0x30;
        proof {
            let t = row.take(i - from + 1);
            assert(t.drop_last() == row.take(i - from));
            assert(t.last() == c);
            assert(value(t) == value(row.take(i - from)) * 10 + d);
            lemma_value_grows(row, (i - from + 1) as nat);
        }
        if n > (u64::MAX - d) / 10 {
            assert(n * 10 + d > u64::MAX);
            return (0, end);
        }
        n = n * 10 + d;
        i += 1;
    }
    assert(row.take(row.len() as int) == row);
    (n, end)
}

/// The natural key of `chars`.
pub fn natural_key_of(chars: &Vec<char>) -> (r: Vec<u128>)
    ensures
        ints(r@) == natural_key(chars@),
{
    let mut r: Vec<u128> = Vec::new();
    let mut i: usize = 0;
    assert(chars@.skip(0) == chars@);
    assert(ints(r@) + natural_key(chars@.skip(0)) == natural_key(chars@));
    while i < chars.len()
        invariant
            i <= chars.len(),
            ints(r@) + natural_key(chars@.skip(i as int)) == natural_key(chars@),
        decreases chars.len() - i,
    {
        let ghost before = ints(r@);
        let ghost rest = chars@.skip(i as int);
        let c: char = chars[i];
        assert(rest[0] == c);
        if CharClass::Digit.holds(c) {
            let (n, end) = take_number(chars, i);
            r.push(0x30 + n as u128);
            proof {
                lemma_run(rest, CharClass::Digit);
                assert(rest.take(end - i) == chars@.subrange(i as int, end as int));
                assert(rest.skip(end - i) == chars@.skip(end as int));
                assert(ints(r@) == before.push(row_rank(n as nat)));
                assert(ints(r@) + natural_key(chars@.skip(end as int)) == before + natural_key(
                    rest,
                ));
            }
            i = end;
        } else {
            let l: char = to_lower_char(c);
            if '0' <= l {
                r.push(0x1_0000_0000_0000_0000 + l as u128);
            } else {
                r.push(l as u128);
            }
            proof {
                assert(rest.skip(1) == chars@.skip(i + 1));
                assert(ints(r@) == before.push(char_rank(l)));
                assert(ints(r@) + natural_key(chars@.skip(i + 1)) == before + natural_key(rest));
            }
            i += 1;
        }
    }
    assert(natural_key(chars@.skip(i as int)) == Seq::<int>::empty());
    r
}

/// The natural key of `text`.
pub fn natural_key_of_text(text: &str) -> (r: Vec<u128>)
    ensures
        ints(r@) == natural_key(text@),
{
    natural_key_of(&chars_of(text))
}

/// Compares two names in natural order.
pub fn natural_cmp(a: &str, b: &str) -> (r: Ordering)
    ensures
        r == Ordering::Less <==> key_lt(natural_key(a@), natural_key(b@)),
        r == Ordering::Equal <==> natural_key(a@) == natural_key(b@),
        r == Ordering::Greater <==> key_lt(natural_key(b@), natural_key(a@)),
{
    let left = natural_key_of_text(a);
    let right = natural_key_of_text(b);
    proof {
        lemma_key_lt_total(natural_key(a@), natural_key(b@));
        lemma_key_lt_asymmetric(natural_key(a@), natural_key(b@));
        lemma_key_lt_irreflexive(natural_key(a@));
    }
    match compare_keys(&left, &right) {
        KeyOrder::Less => Ordering::Less,
        KeyOrder::Equal => Ordering::Equal,
        KeyOrder::Greater => Ordering::Greater,
    }
}

/// Names in natural order: equal names stay equal, a name before another stays
/// before what comes after that other, and any two names can be compared.
pub proof fn natural_order_is_total(a: Seq<char>, b: Seq<char>, c: Seq<char>)
    ensures
        !key_lt(natural_key(a), natural_key(a)),
        key_lt(natural_key(a), natural_key(b)) || natural_key(a) == natural_key(b) || key_lt(
            natural_key(b),
            natural_key(a),
        ),
        key_lt(natural_key(a), natural_key(b)) && key_lt(natural_key(b), natural_key(c)) ==> key_lt(
            natural_key(a),
            natural_key(c),
        ),
{
    lemma_key_lt_irreflexive(natural_key(a));
    lemma_key_lt_total(natural_key(a), natural_key(b));
    if key_lt(natural_key(a), natural_key(b)) && key_lt(natural_key(b), natural_key(c)) {
        lemma_key_lt_transitive(natural_key(a), natural_key(b), natural_key(c));
    }
}

/// Two rows of digits, each followed by the same text, stand in the order of
/// their values, however many digits they have.
pub proof fn rows_of_digits_compare_by_value(a: Seq<char>, b: Seq<char>, rest: Seq<char>)
    requires
        a.len() > 0,
        b.len() > 0,
        forall|i: int| 0 <= i < a.len() ==> is_digit(#[trigger] a[i]),
        forall|i: int| 0 <= i < b.len() ==> is_digit(#[trigger] b[i]),
        rest.len() > 0 ==> !is_digit(rest[0]),
        value(a) <= u64::MAX,
        value(b) <= u64::MAX,
        value(a) < value(b),
    ensures
        key_lt(natural_key(a + rest), natural_key(b + rest)),
{
    lemma_key_of_row(a, rest);
    lemma_key_of_row(b, rest);
}

pub proof fn lemma_key_of_row(a: Seq<char>, rest: Seq<char>)
    requires
        a.len() > 0,
        forall|i: int| 0 <= i < a.len() ==> is_digit(#[trigger] a[i]),
        rest.len() > 0 ==> !is_digit(rest[0]),
    ensures
        natural_key(a + rest).len() > 0,
        natural_key(a + rest)[0] == row_rank(row_value(a)),
{
    let s = a + rest;
    assert(is_digit(s[0])) by {
        assert(s[0] == a[0]);
    }
    assert forall|i: int| 0 <= i < a.len() implies in_class(CharClass::Digit, #[trigger] s[i]) by {
        assert(s[i] == a[i]);
    }
    lemma_run_is(s, CharClass::Digit, a.len());
    assert(s.take(a.len() as int) == a);
}

} // verus!
