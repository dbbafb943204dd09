//! Texts as double-precision numbers.
//!
//! A non-negative double is its bit pattern, a natural number: the patterns are
//! ordered as the numbers are. Bits 52 and up are the exponent, the others the
//! fraction; the number is `mantissa * 2^(shift - 1074)`. Bit 63 is the sign.
use crate::bignat::BigNat;
use crate::digits::value;
use crate::order::KeyOrder;
use crate::text::{
    chars_of, in_class, is_digit, lemma_run, lower, lowered, run, run_end, same, slice, CharClass,
};
use std::cmp::Ordering;
use vstd::arithmetic::power2::{
    lemma2_to64, lemma2_to64_rest, lemma_pow2_adds, lemma_pow2_pos, lemma_pow2_strictly_increases, pow2,
};
use vstd::prelude::*;

verus! {

/// The bit pattern of infinity.
pub const INFINITY_BITS: u64 = 0x7ff0_0000_0000_0000;

/// The bit pattern of one.
pub const ONE_BITS: u64 = 0x3ff0_0000_0000_0000;

/// The bit pattern of the number that is none.
pub const NAN_BITS: u64 = 0x7ff8_0000_0000_0000;

/// The bit of the sign.
pub const SIGN_BIT: u64 = 0x8000_0000_0000_0000;

/// The integer factor of the double with these bits.
pub open spec fn mantissa(bits: nat) -> nat {
    if bits / 0x10_0000_0000_0000 == 0 {
        bits
    } else {
        0x10_0000_0000_0000 + bits % 0x10_0000_0000_0000
    }
}

/// The power of two of the double with these bits, counted from the smallest.
pub open spec fn shift(bits: nat) -> nat {
    if bits / 0x10_0000_0000_0000 == 0 {
        0
    } else {
        (bits / 0x10_0000_0000_0000 - 1) as nat
    }
}

/// The double with these bits plus the next one, in units of the smallest
/// positive double: twice the middle between the two.
pub open spec fn middle(bits: nat) -> nat {
    (2 * mantissa(bits) + 1) * pow2(shift(bits))
}

pub open spec fn pow10(k: nat) -> nat
    decreases k,
{
    if k == 0 {
        1
    } else {
        pow10((k - 1) as nat) * 10
    }
}

/// Whether `n / 10^k` is nearer to a double above the one with these bits: it
/// is above the middle to the next one, or in the middle and the bits are odd.
pub open spec fn rounds_above(n: nat, k: nat, bits: nat) -> bool {
    let left = n * pow2(1075);
    let right = pow10(k) * middle(bits);
    left > right || (left == right && bits % 2 == 1)
}

/// Whether these are the bits of the double nearest to `n / 10^k`, of the one
/// with even bits where two are equally near.
pub open spec fn is_nearest_double(n: nat, k: nat, bits: nat) -> bool {
    &&& bits <= INFINITY_BITS
    &&& bits > 0 ==> rounds_above(n, k, (bits - 1) as nat)
    &&& bits < INFINITY_BITS ==> !rounds_above(n, k, bits)
}

/// The bits of the double nearest to `n / 10^k`.
pub open spec fn nearest_double(n: nat, k: nat) -> nat {
    choose|bits: nat| is_nearest_double(n, k, bits)
}

proof fn lemma_middle_grows(bits: nat)
    ensures
        middle(bits) < middle(bits + 1),
{
    let e = bits / 0x10_0000_0000_0000;
    let f = bits % 0x10_0000_0000_0000;
    let p = pow2(shift(bits));
    lemma_pow2_pos(shift(bits));
    if e == 0 || f < 0x0f_ffff_ffff_ffff {
        if e == 0 {
            assert(shift(bits + 1) == 0);
            assert(mantissa(bits + 1) == bits + 1);
        } else {
            assert((bits + 1) / 0x10_0000_0000_0000 == e);
            assert((bits + 1) % 0x10_0000_0000_0000 == f + 1);
        }
        let m = mantissa(bits);
        assert((2 * m + 1) * p < (2 * (m + 1) + 1) * p) by (nonlinear_arith)
            requires
                p > 0,
        ;
    } else {
        assert((bits + 1) / 0x10_0000_0000_0000 == e + 1);
        assert((bits + 1) % 0x10_0000_0000_0000 == 0);
        lemma_pow2_adds(shift(bits), 1);
        lemma2_to64();
        let q = pow2(shift(bits + 1));
        assert(q == p * 2);
        let m = mantissa(bits);
        assert(m == 0x1f_ffff_ffff_ffff);
        assert((2 * m + 1) * p < (2 * 0x10_0000_0000_0000 + 1) * q) by (nonlinear_arith)
            requires
                p > 0,
                q == p * 2,
                m == 0x1f_ffff_ffff_ffff,
        ;
    }
}

proof fn lemma_middle_monotone(a: nat, b: nat)
    requires
        a < b,
    ensures
        middle(a) < middle(b),
    decreases b - a,
{
    lemma_middle_grows(a);
    if a + 1 < b {
        lemma_middle_monotone(a + 1, b);
    }
}

pub proof fn lemma_pow10_pos(k: nat)
    ensures
        pow10(k) > 0,
    decreases k,
{
    if k > 0 {
        lemma_pow10_pos((k - 1) as nat);
    }
}

/// What rounds above a double rounds above all smaller ones.
proof fn lemma_rounds_above(n: nat, k: nat, a: nat, b: nat)
    requires
        a <= b,
        rounds_above(n, k, b),
    ensures
        rounds_above(n, k, a),
{
    if a < b {
        lemma_middle_monotone(a, b);
        lemma_pow10_pos(k);
        let x = middle(a);
        let y = middle(b);
        let t = pow10(k);
        assert(t * x < t * y) by (nonlinear_arith)
            requires
                x < y,
                t > 0,
        ;
    }
}

/// There is one nearest double only.
pub proof fn nearest_double_is_unique(n: nat, k: nat, a: nat, b: nat)
    requires
        is_nearest_double(n, k, a),
        is_nearest_double(n, k, b),
    ensures
        a == b,
{
    if a < b {
        lemma_rounds_above(n, k, a, (b - 1) as nat);
    }
    if b < a {
        lemma_rounds_above(n, k, b, (a - 1) as nat);
    }
}

/// The larger of two fractions has no smaller nearest double.
pub proof fn nearest_double_is_monotone(n: nat, m: nat, k: nat, a: nat, b: nat)
    requires
        n <= m,
        is_nearest_double(n, k, a),
        is_nearest_double(m, k, b),
    ensures
        a <= b,
{
    if b < a {
        let p = pow2(1075);
        assert(n * p <= m * p) by (nonlinear_arith)
            requires
                n <= m,
        ;
        lemma_rounds_above(n, k, b, (a - 1) as nat);
        assert(rounds_above(m, k, b));
    }
}

fn is_above(n: &BigNat, ten_k: &BigNat, Ghost(k): Ghost<nat>, bits: u64) -> (r: bool)
    requires
        ten_k@ == pow10(k),
        bits < INFINITY_BITS,
    ensures
        r == rounds_above(n@, k, bits as nat),
{
    let e: u64 = bits / 0x10_0000_0000_0000;
    let m: u64 = if e == 0 {
        bits
    } else {
        0x10_0000_0000_0000 + bits % 0x10_0000_0000_0000
    };
    let s: u32 = if e == 0 {
        0
    } else {
        (e - 1) as u32
    };
    let (l, r): (u32, u32) = if s <= 1075 {
        (1075 - s, 0)
    } else {
        (0, s - 1075)
    };
    let left: BigNat = n.times_plus(1, 0).times_pow2(l);
    let right: BigNat = ten_k.times_plus(2 * m + 1, 0).times_pow2(r);
    let ord: KeyOrder = left.compared(&right);
    proof {
        // Both sides, times the same power of two, are the sides of the definition.
        let c: nat = if s <= 1075 {
            s as nat
        } else {
            1075
        };
        lemma_pow2_pos(c);
        lemma_pow2_adds(l as nat, c);
        lemma_pow2_adds(r as nat, c);
        let a = n@;
        let t = ten_k@;
        let o = (2 * m + 1) as nat;
        let pc = pow2(c);
        let pl = pow2(l as nat);
        let pr = pow2(r as nat);
        assert(left@ == a * pl);
        assert(right@ == (t * o) * pr);
        assert((a * pl) * pc == a * pow2(1075)) by (nonlinear_arith)
            requires
                pl * pc == pow2(1075),
        ;
        assert(((t * o) * pr) * pc == t * (o * pow2(s as nat))) by (nonlinear_arith)
            requires
                pr * pc == pow2(s as nat),
        ;
        assert(middle(bits as nat) == o * pow2(s as nat));
        let x = left@;
        let y = right@;
        assert(x < y ==> x * pc < y * pc) by (nonlinear_arith)
            requires
                pc > 0,
        ;
        assert(x > y ==> x * pc > y * pc) by (nonlinear_arith)
            requires
                pc > 0,
        ;
    }
    match ord {
        KeyOrder::Greater => true,
        KeyOrder::Equal => bits % 2 == 1,
        KeyOrder::Less => false,
    }
}

/// The bits of the double nearest to `n / 10^k`.
fn round(n: &BigNat, ten_k: &BigNat, Ghost(k): Ghost<nat>) -> (bits: u64)
    requires
        ten_k@ == pow10(k),
    ensures
        bits == nearest_double(n@, k),
        bits <= INFINITY_BITS,
{
    let mut low: u64 = 0;
    let mut high: u64 = INFINITY_BITS;
    while low < high
        invariant
            ten_k@ == pow10(k),
            low <= high <= INFINITY_BITS,
            low > 0 ==> rounds_above(n@, k, (low - 1) as nat),
            high < INFINITY_BITS ==> !rounds_above(n@, k, high as nat),
        decreases high - low,
    {
        let mid: u64 = low + (high - low) / 2;
        if is_above(n, ten_k, Ghost(k), mid) {
            low = mid + 1;
        } else {
            high = mid;
        }
    }
    proof {
        assert(is_nearest_double(n@, k, low as nat));
        let other = nearest_double(n@, k);
        assert(is_nearest_double(n@, k, other));
        nearest_double_is_unique(n@, k, low as nat, other);
    }
    low
}

/// The digits of a plain decimal and how many of them come after the point:
/// digits with at most one point, at least one digit; `None` for other texts.
pub open spec fn decimal_parts(s: Seq<char>) -> Option<(Seq<char>, nat)> {
    let d = run(s, CharClass::Digit) as int;
    if d == s.len() {
        if d > 0 {
            Some((s, 0))
        } else {
            None
        }
    } else {
        let fraction = s.skip(d + 1);
        if s[d] == '.' && run(fraction, CharClass::Digit) == fraction.len() && s.len() > 1 {
            Some((s.take(d) + fraction, fraction.len()))
        } else {
            None
        }
    }
}

/// `s` without a sign in front.
pub open spec fn unsigned(s: Seq<char>) -> Seq<char> {
    if s.len() > 0 && (s[0] == '-' || s[0] == '+') {
        s.skip(1)
    } else {
        s
    }
}

pub open spec fn is_negative(s: Seq<char>) -> bool {
    s.len() > 0 && s[0] == '-'
}

/// The power of ten behind an `e`: digits, with or without a sign.
pub open spec fn exponent_of(s: Seq<char>) -> Option<int> {
    let digits = unsigned(s);
    if digits.len() == 0 || run(digits, CharClass::Digit) != digits.len() {
        None
    } else if is_negative(s) {
        Some(-(value(digits) as int))
    } else {
        Some(value(digits) as int)
    }
}

/// The digits of a decimal and the power of ten that they are multiplied by: a
/// plain decimal, and maybe `e` or `E` and a power of ten.
pub open spec fn number_parts(s: Seq<char>) -> Option<(Seq<char>, int)> {
    let e = run(s, CharClass::NonExponent) as int;
    match decimal_parts(s.take(e)) {
        None => None,
        Some((digits, k)) => if e == s.len() {
            Some((digits, -(k as int)))
        } else {
            match exponent_of(s.skip(e + 1)) {
                None => None,
                Some(exponent) => Some((digits, exponent - k)),
            }
        },
    }
}

/// The bits of the double nearest to `n * 10^exponent`.
pub open spec fn nearest_decimal(n: nat, exponent: int) -> nat {
    if exponent >= 0 {
        nearest_double(n * pow10(exponent as nat), 0)
    } else {
        nearest_double(n, (-exponent) as nat)
    }
}

/// The bits of the double that a text without a sign stands for: a decimal, or
/// a word, in upper or lower case.
pub open spec fn magnitude_of(s: Seq<char>) -> Option<nat> {
    match number_parts(s) {
        Some((digits, exponent)) => Some(nearest_decimal(value(digits), exponent)),
        None => if lower(s) == "inf"@ || lower(s) == "infinity"@ {
            Some(INFINITY_BITS as nat)
        } else if lower(s) == "nan"@ {
            Some(NAN_BITS as nat)
        } else {
            None
        },
    }
}

/// The bits of the double that a text stands for; `None` where it stands for
/// none.
pub open spec fn bits_of(s: Seq<char>) -> Option<nat> {
    match magnitude_of(unsigned(s)) {
        None => None,
        Some(bits) => if is_negative(s) {
            Some(bits + SIGN_BIT as nat)
        } else {
            Some(bits)
        },
    }
}

/// Multiplies by ten for each character of `from..to`, and adds it as a digit.
fn append_digits(n: BigNat, chars: &Vec<char>, from: usize, to: usize, Ghost(seen): Ghost<
    Seq<char>,
>) -> (r: BigNat)
    requires
        from <= to <= chars.len(),
        forall|i: int| from <= i < to ==> is_digit(#[trigger] chars@[i]),
        n@ == value(seen),
    ensures
        r@ == value(seen + chars@.subrange(from as int, to as int)),
{
    let mut r: BigNat = n;
    let mut i: usize = from;
    assert(seen + chars@.subrange(from as int, from as int) == seen);
    while i < to
        invariant
            from <= i <= to <= chars.len(),
            forall|i: int| from <= i < to ==> is_digit(#[trigger] chars@[i]),
            r@ == value(seen + chars@.subrange(from as int, i as int)),
        decreases to - i,
    {
        let c: char = chars[i];
        r = r.times_plus(10, c as u64 - 0x30);
        proof {
            let t = seen + chars@.subrange(from as int, i + 1);
            assert(t.drop_last() == seen + chars@.subrange(from as int, i as int));
            assert(t.last() == c);
        }
        i += 1;
    }
    r
}

/// The digits of a plain decimal as a number, how many there are, and how many
/// of them come after the point.
fn plain_decimal(chars: &Vec<char>) -> (r: Option<(BigNat, usize, usize)>)
    ensures
        match r {
            Some((n, count, k)) => decimal_parts(chars@) matches Some((digits, fraction))
                && n@ == value(digits) && count == digits.len() && k == fraction && k <= count
                && all_digits(digits),
            None => decimal_parts(chars@) is None,
        },
{
    let d: usize = run_end(&chars, 0, CharClass::Digit);
    proof {
        assert(chars@.skip(0) == chars@);
        lemma_run(chars@, CharClass::Digit);
        assert forall|i: int| 0 <= i < d implies is_digit(#[trigger] chars@[i]) by {
            assert(in_class(CharClass::Digit, chars@[i]));
        }
    }
    let ghost none = Seq::<char>::empty();
    if d == chars.len() {
        if d == 0 {
            return None;
        }
        let n: BigNat = append_digits(BigNat::zero(), &chars, 0, d, Ghost(none));
        assert(none + chars@.subrange(0, d as int) == chars@);
        return Some((n, d, 0));
    }
    if chars[d] != '.' || chars.len() == 1 {
        return None;
    }
    let end: usize = run_end(&chars, d + 1, CharClass::Digit);
    let ghost fraction = chars@.skip(d + 1);
    if end != chars.len() {
        return None;
    }
    proof {
        lemma_run(fraction, CharClass::Digit);
        assert forall|i: int| d + 1 <= i < end implies is_digit(#[trigger] chars@[i]) by {
            assert(fraction[i - d - 1] == chars@[i]);
            assert(in_class(CharClass::Digit, fraction[i - d - 1]));
        }
    }
    let whole: BigNat = append_digits(BigNat::zero(), &chars, 0, d, Ghost(none));
    let n: BigNat = append_digits(whole, &chars, d + 1, end, Ghost(none + chars@.subrange(0, d as int)));
    proof {
        assert(none + chars@.subrange(0, d as int) + chars@.subrange(d + 1, end as int)
            == chars@.take(d as int) + fraction);
    }
    Some((n, chars.len() - 1, end - d - 1))
}

pub open spec fn all_digits(s: Seq<char>) -> bool {
    forall|i: int| 0 <= i < s.len() ==> is_digit(#[trigger] s[i])
}

proof fn lemma_value_bound(s: Seq<char>)
    requires
        all_digits(s),
    ensures
        value(s) < pow10(s.len()),
    decreases s.len(),
{
    if s.len() > 0 {
        lemma_value_bound(s.drop_last());
        assert(is_digit(s[s.len() - 1]));
    }
}

proof fn lemma_times_one(x: nat, one: nat)
    by (nonlinear_arith)
    requires
        one == 1,
    ensures
        x * one == x,
        one * x == x,
{
}

proof fn lemma_pow10_adds(a: nat, b: nat)
    ensures
        pow10(a + b) == pow10(a) * pow10(b),
    decreases b,
{
    if b > 0 {
        lemma_pow10_adds(a, (b - 1) as nat);
        let x = pow10(a);
        let y = pow10((b - 1) as nat);
        assert((x * y) * 10 == x * (y * 10)) by (nonlinear_arith);
        assert(pow10((a + b) as nat) == pow10((a + b - 1) as nat) * 10);
    } else {
        lemma_times_one(pow10(a), pow10(b));
    }
}

proof fn lemma_pow10_grows(a: nat, b: nat)
    requires
        a <= b,
    ensures
        pow10(a) <= pow10(b),
    decreases b,
{
    if a < b {
        lemma_pow10_grows(a, (b - 1) as nat);
        lemma_pow10_pos((b - 1) as nat);
    }
}

proof fn lemma_pow2_below_pow10(j: nat)
    ensures
        pow2(3 * j) <= pow10(j),
    decreases j,
{
    lemma2_to64();
    if j > 0 {
        let i = (j - 1) as nat;
        lemma_pow2_below_pow10(i);
        lemma_pow2_adds(3 * i, 3);
        lemma_pow10_pos(i);
    }
}

/// What is at least `10^400` is nearest to infinity.
proof fn lemma_too_large(n: nat)
    requires
        n >= pow10(400),
    ensures
        nearest_double(n, 0) == INFINITY_BITS,
{
    let last = (INFINITY_BITS - 1) as nat;
    let p = pow2(1075);
    lemma_pow2_below_pow10(400);
    lemma_pow2_adds(1200, 1075);
    lemma_pow2_adds(54, 2045);
    lemma_pow2_strictly_increases(2099, 2275);
    lemma2_to64_rest();
    assert(n * p >= pow2(1200) * p) by (nonlinear_arith)
        requires
            n >= pow2(1200),
    ;
    assert(last / 0x10_0000_0000_0000 == 2046);
    assert(shift(last) == 2045);
    let m = mantissa(last);
    assert(2 * m + 1 <= pow2(54));
    let q = pow2(2045);
    assert((2 * m + 1) * q <= pow2(54) * q) by (nonlinear_arith)
        requires
            2 * m + 1 <= pow2(54),
    ;
    lemma_times_one(middle(last), pow10(0));
    assert(rounds_above(n, 0, last));
    assert(is_nearest_double(n, 0, INFINITY_BITS as nat));
    nearest_double_is_unique(n, 0, INFINITY_BITS as nat, nearest_double(n, 0));
}

proof fn lemma_middle_of_zero()
    ensures
        middle(0) == 1,
{
    lemma2_to64();
    assert(mantissa(0) == 0);
    assert(shift(0) == 0);
    lemma_times_one(1, pow2(0));
}

/// What has `count` digits, behind `count + 400` decimal places, is nearest to
/// zero.
proof fn lemma_too_small(n: nat, count: nat, k: nat)
    requires
        n < pow10(count),
        k >= count + 400,
    ensures
        nearest_double(n, k) == 0,
{
    let p = pow2(1075);
    lemma_pow2_below_pow10(400);
    lemma_pow2_strictly_increases(1075, 1200);
    lemma_pow10_adds(count, 400);
    lemma_pow10_grows(count + 400, k);
    let a = pow10(count);
    let b = pow10(400);
    assert(n * p <= a * b) by (nonlinear_arith)
        requires
            n <= a,
            p <= b,
    ;
    lemma_middle_of_zero();
    lemma_times_one(pow10(k), middle(0));
    assert(is_nearest_double(n, k, 0));
    nearest_double_is_unique(n, k, 0, nearest_double(n, k));
}

/// Zero stays zero.
proof fn lemma_zero(k: nat)
    ensures
        nearest_double(0, k) == 0,
{
    lemma_pow10_pos(k);
    lemma_middle_of_zero();
    lemma_times_one(pow10(k), middle(0));
    assert(is_nearest_double(0, k, 0));
    nearest_double_is_unique(0, k, 0, nearest_double(0, k));
}

/// `n * 10^k`.
fn times_pow10(n: &BigNat, k: u128) -> (r: BigNat)
    ensures
        r@ == n@ * pow10(k as nat),
{
    let mut r: BigNat = n.times_plus(1, 0);
    let mut i: u128 = 0;
    proof {
        lemma_times_one(n@, pow10(0));
    }
    while i < k
        invariant
            i <= k,
            r@ == n@ * pow10(i as nat),
        decreases k - i,
    {
        proof {
            let a = n@;
            let t = pow10(i as nat);
            assert((a * t) * 10 == a * (t * 10)) by (nonlinear_arith);
        }
        r = r.times_plus(10, 0);
        i += 1;
    }
    r
}

/// Above this an exponent is not told exactly.
pub const LARGE_EXPONENT: u128 = 0x1_0000_0000_0000_0000_0000;

/// The value of digits, exactly where it is no large exponent.
fn exponent_value(chars: &Vec<char>) -> (r: u128)
    requires
        all_digits(chars@),
    ensures
        r <= value(chars@),
        r < LARGE_EXPONENT ==> r == value(chars@),
{
    let mut r: u128 = 0;
    let mut i: usize = 0;
    while i < chars.len()
        invariant
            i <= chars.len(),
            all_digits(chars@),
            r < 0x10_0000_0000_0000_0000_0000,
            r <= value(chars@.take(i as int)),
            r < LARGE_EXPONENT ==> r == value(chars@.take(i as int)),
        decreases chars.len() - i,
    {
        let c: char = chars[i];
        let ghost t = chars@.take(i + 1);
        assert(t.drop_last() == chars@.take(i as int));
        assert(is_digit(chars@[i as int]));
        if r < LARGE_EXPONENT {
            r = r * 10 + (c as u128 - 0x30);
        }
        i += 1;
    }
    assert(chars@.take(i as int) == chars@);
    r
}

/// The bits of the double nearest to `n * 10^exponent`, where the exponent is
/// `large - k`, or `- large - k` if it is negative.
fn decimal_bits(n: BigNat, count: usize, k: usize, negative: bool, large: u128, Ghost(exact): Ghost<
    nat,
>) -> (bits: u64)
    requires
        n@ < pow10(count as nat),
        k <= count,
        large <= exact,
        large < LARGE_EXPONENT ==> large == exact,
    ensures
        bits == nearest_decimal(
            n@,
            if negative {
                -(exact as int) - k
            } else {
                exact - k
            },
        ),
        bits <= INFINITY_BITS,
{
    let ghost exponent = if negative {
        -(exact as int) - k
    } else {
        exact - k
    };
    let one: BigNat = BigNat::zero().times_plus(1, 1);
    if let KeyOrder::Equal = n.compared(&BigNat::zero()) {
        proof {
            lemma_zero(0);
            if exponent < 0 {
                lemma_zero((-exponent) as nat);
            } else {
                assert(0 * pow10(exponent as nat) == 0);
            }
        }
        return 0;
    }
    if !negative && large >= k as u128 {
        let power: u128 = large - k as u128;
        if power >= 400 {
            proof {
                let x = exponent as nat;
                lemma_pow10_grows(400, x);
                let v = n@;
                let t = pow10(x);
                assert(v * t >= t) by (nonlinear_arith)
                    requires
                        v >= 1,
                ;
                lemma_too_large(v * t);
            }
            return INFINITY_BITS;
        }
        let scaled: BigNat = times_pow10(&n, power);
        return round(&scaled, &one, Ghost(0));
    }
    let places: u128 = if negative {
        if large >= LARGE_EXPONENT {
            LARGE_EXPONENT
        } else {
            large + k as u128
        }
    } else {
        k as u128 - large
    };
    if places >= count as u128 + 400 {
        proof {
            lemma_too_small(n@, count as nat, (-exponent) as nat);
        }
        return 0;
    }
    assert(exponent == -(places as int));
    let ten_k: BigNat = times_pow10(&one, places);
    proof {
        lemma_times_one(pow10(places as nat), one@);
        lemma_times_one(n@, pow10(0));
    }
    round(&n, &ten_k, Ghost(places as nat))
}

/// The power of ten behind an `e`: whether it is negative, and how large it is,
/// exactly where it is not large.
fn parse_exponent(chars: &Vec<char>) -> (r: Option<(bool, u128)>)
    ensures
        match r {
            Some((negative, large)) => {
                let exact = value(unsigned(chars@));
                &&& large <= exact
                &&& large < LARGE_EXPONENT ==> large == exact
                &&& exponent_of(chars@) == Some(
                    if negative {
                        -(exact as int)
                    } else {
                        exact as int
                    },
                )
            },
            None => exponent_of(chars@) is None,
        },
{
    let negative: bool = chars.len() > 0 && chars[0] == '-';
    let start: usize = if negative || (chars.len() > 0 && chars[0] == '+') {
        1
    } else {
        0
    };
    let digits: Vec<char> = slice(chars, start, chars.len());
    assert(digits@ == unsigned(chars@));
    let end: usize = run_end(&digits, 0, CharClass::Digit);
    proof {
        assert(digits@.skip(0) == digits@);
        lemma_run(digits@, CharClass::Digit);
    }
    if digits.len() == 0 || end != digits.len() {
        return None;
    }
    proof {
        assert forall|i: int| 0 <= i < digits@.len() implies is_digit(#[trigger] digits@[i]) by {
            assert(in_class(CharClass::Digit, digits@[i]));
        }
    }
    Some((negative, exponent_value(&digits)))
}

/// The bits of the double that the decimal `chars` stands for.
fn parse_decimal(chars: &Vec<char>) -> (r: Option<u64>)
    ensures
        match (r, number_parts(chars@)) {
            (Some(bits), Some((digits, exponent))) => bits == nearest_decimal(
                value(digits),
                exponent,
            ) && bits <= INFINITY_BITS,
            (None, None) => true,
            _ => false,
        },
{
    let e: usize = run_end(chars, 0, CharClass::NonExponent);
    let mantissa: Vec<char> = slice(chars, 0, e);
    proof {
        assert(chars@.skip(0) == chars@);
        assert(mantissa@ == chars@.take(e as int));
    }
    match plain_decimal(&mantissa) {
        None => None,
        Some((n, count, k)) => {
            proof {
                lemma_value_bound(decimal_parts(mantissa@)->Some_0.0);
            }
            if e == chars.len() {
                return Some(decimal_bits(n, count, k, false, 0, Ghost(0)));
            }
            let behind: Vec<char> = slice(chars, e + 1, chars.len());
            assert(behind@ == chars@.skip(e + 1));
            match parse_exponent(&behind) {
                None => None,
                Some((negative, large)) => Some(
                    decimal_bits(n, count, k, negative, large, Ghost(value(unsigned(behind@)))),
                ),
            }
        },
    }
}

/// The bits of the double that `chars`, which have no sign, stand for.
fn magnitude(chars: &Vec<char>) -> (r: Option<u64>)
    ensures
        match r {
            Some(bits) => magnitude_of(chars@) == Some(bits as nat) && bits <= NAN_BITS,
            None => magnitude_of(chars@) is None,
        },
{
    if let Some(bits) = parse_decimal(chars) {
        return Some(bits);
    }
    let word: Vec<char> = lowered(chars);
    if same(&word, &chars_of("inf")) || same(&word, &chars_of("infinity")) {
        return Some(INFINITY_BITS);
    }
    if same(&word, &chars_of("nan")) {
        return Some(NAN_BITS);
    }
    None
}

/// The bits of the double that `text` stands for, if it stands for one.
pub fn number_bits(text: &str) -> (r: Option<u64>)
    ensures
        match r {
            Some(bits) => bits_of(text@) == Some(bits as nat),
            None => bits_of(text@) is None,
        },
{
    let chars: Vec<char> = chars_of(text);
    let signed: bool = chars.len() > 0 && (chars[0] == '-' || chars[0] == '+');
    let start: usize = if signed {
        1
    } else {
        0
    };
    let rest: Vec<char> = slice(&chars, start, chars.len());
    assert(rest@ == unsigned(chars@));
    match magnitude(&rest) {
        None => None,
        Some(bits) => if chars.len() > 0 && chars[0] == '-' {
            Some(bits + SIGN_BIT)
        } else {
            Some(bits)
        },
    }
}

/// Where the double with these bits stands among all doubles: negative ones
/// before positive ones, `-0` before `0`, and the number that is none at the
/// end that its sign gives.
pub open spec fn total_rank(bits: nat) -> int {
    if bits < SIGN_BIT {
        SIGN_BIT + bits
    } else {
        2 * SIGN_BIT - 1 - bits
    }
}

/// Where a chapter or volume number stands among numbers: as the double that
/// it stands for, and as zero where it stands for none.
pub open spec fn number_rank(s: Seq<char>) -> int {
    match bits_of(s) {
        Some(bits) => total_rank(bits),
        None => total_rank(0),
    }
}

/// Where the chapter or volume number `text` stands among numbers.
pub fn number_rank_of(text: &str) -> (r: u64)
    ensures
        r == number_rank(text@),
{
    let bits: u64 = match number_bits(text) {
        Some(bits) => bits,
        None => 0,
    };
    if bits < SIGN_BIT {
        SIGN_BIT + bits
    } else {
        0xffff_ffff_ffff_ffff - bits
    }
}

/// Compares two chapter or volume numbers as doubles.
pub fn chapter_number_cmp(a: &str, b: &str) -> (r: Ordering)
    ensures
        r == Ordering::Less <==> number_rank(a@) < number_rank(b@),
        r == Ordering::Equal <==> number_rank(a@) == number_rank(b@),
        r == Ordering::Greater <==> number_rank(a@) > number_rank(b@),
{
    let left: u64 = number_rank_of(a);
    let right: u64 = number_rank_of(b);
    if left < right {
        Ordering::Less
    } else if left == right {
        Ordering::Equal
    } else {
        Ordering::Greater
    }
}

} // verus!
