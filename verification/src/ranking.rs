//! How names and numbers are ordered.
use crate::digits::{decimal, hexadecimal, value};
use crate::double::{
    bits_of, decimal_parts, is_nearest_double, lemma_pow10_pos, magnitude_of, mantissa, middle,
    nearest_double, nearest_double_is_monotone, nearest_double_is_unique, number_parts,
    number_rank, pow10, rounds_above, shift, total_rank, unsigned, INFINITY_BITS, SIGN_BIT,
};
use crate::natural::{char_rank, lemma_key_of_row, natural_key};
use crate::order::{
    key_lt, key_order, lemma_key_lt_asymmetric, lemma_key_lt_irreflexive, lemma_key_lt_total,
};
use crate::reading::{spelled_words_are_equal_in_lower_case, spells};
use crate::responses::shown_number;
use crate::text::{in_class, lemma_run, lemma_run_is, lower, lower_char, run, CharClass};
use vstd::arithmetic::power2::{
    lemma2_to64, lemma2_to64_rest, lemma_pow2_adds, lemma_pow2_pos,
    lemma_pow2_strictly_increases, pow2,
};
use vstd::prelude::*;

verus! {

/// Whether a text is of digits only, with at least one.
pub open spec fn is_row(s: Seq<char>) -> bool {
    s.len() > 0 && forall|i: int| 0 <= i < s.len() ==> '0' <= #[trigger] s[i] <= '9'
}

/// A number is written digit by digit: its last digit stands behind the number
/// of its tens, and below ten it is one digit.
pub proof fn numbers_are_written_in_decimal(n: nat, d: nat)
    requires
        d < 10,
    ensures
        decimal(d) == seq![(d + '0' as nat) as char],
        n > 0 ==> decimal(10 * n + d) == decimal(n).push((d + '0' as nat) as char),
{
    if n > 0 {
        assert((10 * n + d) / 10 == n && (10 * n + d) % 10 == d);
    }
}

/// In hexadecimal the digits from ten on are the letters from `a` to `f`.
pub proof fn numbers_are_written_in_hexadecimal(n: nat, d: nat)
    requires
        d < 16,
    ensures
        d < 10 ==> hexadecimal(d) == seq![(d + '0' as nat) as char],
        d >= 10 ==> hexadecimal(d) == seq![((d - 10) + 'a' as nat) as char],
        n > 0 ==> hexadecimal(16 * n + d) == hexadecimal(n) + hexadecimal(d),
{
    if n > 0 {
        assert((16 * n + d) / 16 == n && (16 * n + d) % 16 == d);
        assert(hexadecimal(16 * n + d) =~= hexadecimal(n) + hexadecimal(d));
    }
}

/// A row of digits stands for ten times what it stands for without its last
/// digit, and that digit.
pub proof fn rows_are_read_in_decimal(s: Seq<char>, c: char)
    requires
        '0' <= c <= '9',
    ensures
        value(s.push(c)) == 10 * value(s) + (c as nat - '0' as nat),
        value(Seq::<char>::empty()) == 0,
{
    assert(s.push(c).drop_last() =~= s);
}

/// Zeros in front do not change what a row of digits stands for.
pub proof fn leading_zeros_do_not_count(s: Seq<char>)
    ensures
        value(seq!['0'] + s) == value(s),
    decreases s.len(),
{
    let t = seq!['0'] + s;
    if s.len() == 0 {
        assert(t.drop_last() =~= Seq::<char>::empty());
        assert(value(Seq::<char>::empty()) == 0);
        assert(t.last() == '0');
    } else {
        leading_zeros_do_not_count(s.drop_last());
        assert(t.drop_last() =~= seq!['0'] + s.drop_last());
    }
}

proof fn lemma_natural_head(c: char, s: Seq<char>)
    requires
        !('0' <= c <= '9'),
    ensures
        natural_key(seq![c] + s).len() > 0,
        natural_key(seq![c] + s).skip(1) == natural_key(s),
        natural_key(seq![c] + s)[0] == char_rank(lower_char(c)),
{
    let t = seq![c] + s;
    assert(t[0] == c);
    assert(t.skip(1) =~= s);
    assert(natural_key(t).skip(1) =~= natural_key(s));
}

proof fn lemma_lower_same(c: char, d: char)
    requires
        c == d || 'a' <= d <= 'z' && c as u32 + 32 == d as u32,
    ensures
        lower_char(c) == lower_char(d),
{
    if c != d {
        assert('A' <= c <= 'Z');
        assert((c as u32 + 32) as char == d);
    }
}

/// Names that start with the same character, but for its case, stand as what
/// follows it does.
pub proof fn names_compare_behind_an_equal_start(c: char, s: Seq<char>, d: char, t: Seq<char>)
    requires
        !('0' <= c <= '9'),
        c == d || 'a' <= d <= 'z' && c as u32 + 32 == d as u32,
    ensures
        key_lt(natural_key(seq![c] + s), natural_key(seq![d] + t)) <==> key_lt(natural_key(s), natural_key(t)),
        key_lt(natural_key(seq![d] + t), natural_key(seq![c] + s)) <==> key_lt(natural_key(t), natural_key(s)),
{
    lemma_lower_same(c, d);
    if c != d {
        assert(!('0' <= d <= '9'));
    }
    lemma_natural_head(c, s);
    lemma_natural_head(d, t);
}

/// Names that start with different characters, neither of them a digit or a
/// capital letter, stand as these do.
pub proof fn names_compare_by_their_first_character(c: char, s: Seq<char>, d: char, t: Seq<char>)
    requires
        c < d,
        !('0' <= c <= '9') && !('A' <= c <= 'Z'),
        !('0' <= d <= '9') && !('A' <= d <= 'Z'),
    ensures
        key_lt(natural_key(seq![c] + s), natural_key(seq![d] + t)),
        !key_lt(natural_key(seq![d] + t), natural_key(seq![c] + s)),
{
    lemma_natural_head(c, s);
    lemma_natural_head(d, t);
}

/// Rows of digits come behind characters below `0` and before all others; the
/// empty name comes first.
pub proof fn digits_stand_among_characters(row: Seq<char>, s: Seq<char>, c: char, t: Seq<char>)
    requires
        is_row(row),
        s.len() > 0 ==> !('0' <= s[0] <= '9'),
        !('0' <= c <= '9'),
    ensures
        c < '0' ==> key_lt(natural_key(seq![c] + t), natural_key(row + s)),
        c > '9' ==> key_lt(natural_key(row + s), natural_key(seq![c] + t)),
        key_lt(natural_key(Seq::empty()), natural_key(row + s)),
        key_lt(natural_key(Seq::empty()), natural_key(seq![c] + t)),
{
    lemma_natural_head(c, t);
    lemma_key_of_row(row, s);
    lemma_lower_is_no_lower(c);
}

proof fn lemma_lower_is_no_lower(c: char)
    ensures
        c < '0' ==> lower_char(c) == c,
        c > '9' ==> lower_char(c) > '9',
{
    if 'A' <= c <= 'Z' {
        let d = (c as u32 + 32) as char;
        assert(d as u32 == c as u32 + 32);
    }
}

/// Names that start with rows of digits stand by the values of these, and with
/// equal values as what follows does; a row that does not fit in sixty-four bits
/// counts as zero.
pub proof fn names_compare_by_their_first_number(a: Seq<char>, s: Seq<char>, b: Seq<char>, t: Seq<char>)
    requires
        is_row(a),
        is_row(b),
        s.len() > 0 ==> !('0' <= s[0] <= '9'),
        t.len() > 0 ==> !('0' <= t[0] <= '9'),
    ensures
        ({
            let x: nat = if value(a) < 0x1_0000_0000_0000_0000 {
                value(a)
            } else {
                0
            };
            let y: nat = if value(b) < 0x1_0000_0000_0000_0000 {
                value(b)
            } else {
                0
            };
            &&& x < y ==> key_lt(natural_key(a + s), natural_key(b + t))
            &&& x == y ==> (key_lt(natural_key(a + s), natural_key(b + t)) <==> key_lt(
                natural_key(s),
                natural_key(t),
            ))
        }),
{
    lemma_key_of_row(a, s);
    lemma_key_of_row(b, t);
    lemma_key_behind_row(a, s);
    lemma_key_behind_row(b, t);
}

proof fn lemma_key_behind_row(a: Seq<char>, s: Seq<char>)
    requires
        is_row(a),
        s.len() > 0 ==> !('0' <= s[0] <= '9'),
    ensures
        natural_key(a + s).skip(1) == natural_key(s),
{
    let w = a + s;
    assert(w[0] == a[0]);
    assert forall|i: int| 0 <= i < a.len() implies in_class(CharClass::Digit, #[trigger] w[i]) by {
        assert(w[i] == a[i]);
    }
    if s.len() > 0 {
        assert(w[a.len() as int] == s[0]);
    }
    lemma_run_is(w, CharClass::Digit, a.len());
    assert(w.skip(a.len() as int) =~= s);
    assert(natural_key(w).skip(1) =~= natural_key(s));
}

proof fn lemma_nearest_from(n: nat, k: nat, bits: nat) -> (r: nat)
    requires
        bits <= INFINITY_BITS,
        bits > 0 ==> rounds_above(n, k, (bits - 1) as nat),
    ensures
        is_nearest_double(n, k, r),
    decreases INFINITY_BITS - bits,
{
    if bits == INFINITY_BITS || !rounds_above(n, k, bits) {
        bits
    } else {
        lemma_nearest_from(n, k, bits + 1)
    }
}

proof fn lemma_nearest(n: nat, k: nat)
    ensures
        is_nearest_double(n, k, nearest_double(n, k)),
{
    let r = lemma_nearest_from(n, k, 0);
    assert(is_nearest_double(n, k, r));
}

proof fn lemma_pow10_bound(k: nat)
    ensures
        pow10(k) <= pow2(4 * k),
    decreases k,
{
    if k == 0 {
        lemma_pow2_pos(0);
    } else {
        lemma_pow10_bound((k - 1) as nat);
        lemma_pow2_adds((4 * (k - 1)) as nat, 4);
        lemma2_to64();
        assert(pow2(4) == 16);
        let a = pow10((k - 1) as nat);
        let b = pow2((4 * (k - 1)) as nat);
        assert(a * 10 <= b * 16) by (nonlinear_arith)
            requires
                a <= b,
        ;
        assert((4 * (k - 1)) as nat + 4 == 4 * k);
    }
}

/// How far the middles around a double lie apart: at most two units of its
/// shift, and a small part of the lower one where the double is normal.
proof fn lemma_middle_gap(bits: nat)
    requires
        bits > 0,
    ensures
        middle(bits) <= middle((bits - 1) as nat) + 2 * pow2(shift(bits)),
        bits >= 0x10_0000_0000_0000 ==> 0x10_0000_0000_0000 * pow2(shift(bits)) <= middle((bits - 1) as nat),
{
    let p = pow2(shift(bits));
    lemma_pow2_pos(shift(bits));
    let before = (bits - 1) as nat;
    let e = bits / 0x10_0000_0000_0000;
    let f = bits % 0x10_0000_0000_0000;
    if e == 0 {
        assert(shift(before) == 0 && mantissa(before) == before);
        assert((2 * bits + 1) * p == (2 * before + 1) * p + 2 * p) by (nonlinear_arith)
            requires
                bits == before + 1,
        ;
    } else if f > 0 {
        assert(before / 0x10_0000_0000_0000 == e);
        assert(before % 0x10_0000_0000_0000 == f - 1);
        let m = mantissa(bits);
        assert(mantissa(before) == m - 1 && shift(before) == shift(bits));
        assert((2 * m + 1) * p == (2 * (m - 1) + 1) * p + 2 * p) by (nonlinear_arith);
        assert(0x10_0000_0000_0000 * p <= (2 * (m - 1) + 1) * p) by (nonlinear_arith)
            requires
                m >= 0x10_0000_0000_0001,
                p > 0,
        ;
    } else {
        assert(mantissa(bits) == 0x10_0000_0000_0000);
        assert(before / 0x10_0000_0000_0000 == e - 1);
        assert(before % 0x10_0000_0000_0000 == 0x0f_ffff_ffff_ffff);
        if e == 1 {
            assert(shift(bits) == 0 && shift(before) == 0);
            assert(mantissa(before) == before);
            assert((2 * 0x10_0000_0000_0000 + 1) * p == (2 * 0x0f_ffff_ffff_ffff + 1) * p + 2 * p) by (nonlinear_arith);
            assert(0x10_0000_0000_0000 * p <= (2 * 0x0f_ffff_ffff_ffff + 1) * p) by (nonlinear_arith)
                requires
                    p > 0,
            ;
        } else {
            let h = pow2(shift(before));
            assert(shift(bits) == shift(before) + 1);
            lemma_pow2_adds(shift(before), 1);
            lemma2_to64();
            assert(p == 2 * h);
            lemma_pow2_pos(shift(before));
            assert(mantissa(before) == 0x1f_ffff_ffff_ffff);
            assert((2 * 0x10_0000_0000_0000 + 1) * (2 * h) <= (2 * 0x1f_ffff_ffff_ffff + 1) * h + 2 * (2 * h))
                by (nonlinear_arith);
            assert(0x10_0000_0000_0000 * (2 * h) <= (2 * 0x1f_ffff_ffff_ffff + 1) * h) by (nonlinear_arith)
                requires
                    h > 0,
            ;
        }
    }
}

proof fn lemma_pow2_le(a: nat, b: nat)
    requires
        a <= b,
    ensures
        pow2(a) <= pow2(b),
{
    if a < b {
        lemma_pow2_strictly_increases(a, b);
    }
}

proof fn lemma_smallest_middle()
    ensures
        middle(0) == 1,
{
    assert(mantissa(0) == 0);
    assert(shift(0) == 0);
    lemma2_to64();
    assert(pow2(0) == 1);
}

/// Fractions with up to fifteen digits in all have different nearest doubles.
proof fn lemma_nearest_is_strict(n: nat, m: nat, k: nat)
    requires
        n < m <= 0x4_0000_0000_0000,
        k <= 250,
    ensures
        nearest_double(n, k) < nearest_double(m, k),
{
    let b = nearest_double(n, k);
    let c = nearest_double(m, k);
    lemma_nearest(n, k);
    lemma_nearest(m, k);
    nearest_double_is_monotone(n, m, k, b, c);
    if b == c {
        let p = pow2(1075);
        let t = pow10(k);
        lemma_pow10_pos(k);
        lemma_pow10_bound(k);
        lemma_pow2_le(4 * k, 1000);
        lemma_pow2_adds(1000, 75);
        lemma_pow2_pos(1000);
        lemma_pow2_pos(1075);
        lemma_pow2_le(64, 75);
        lemma2_to64();
        let q = pow2(1000);
        let z = pow2(75);
        assert(z >= 0x1_0000_0000_0000_0000);
        assert(p == q * z);
        if b == 0 {
            lemma_smallest_middle();
            assert(m * p <= t * 1);
            assert(m * p > t) by (nonlinear_arith)
                requires
                    m >= 1,
                    p == q * z,
                    t <= q,
                    z > 1,
                    q > 0,
            ;
        } else {
            let low = middle((b - 1) as nat);
            let unit = pow2(shift(b));
            lemma_middle_gap(b);
            lemma_pow2_pos(shift(b));
            assert(n * p >= t * low);
            if b == INFINITY_BITS {
                assert(b / 0x10_0000_0000_0000 == 0x7ff) by (nonlinear_arith)
                    requires
                        b == 0x7ff0_0000_0000_0000nat,
                ;
                assert(shift(b) == 0x7fe);
                lemma_pow2_le(1075, 0x7fe);
                assert(t * low > n * p) by (nonlinear_arith)
                    requires
                        t >= 1,
                        low >= 0x10_0000_0000_0000 * unit,
                        unit >= p,
                        n < 0x4_0000_0000_0000,
                        p > 0,
                ;
            } else {
                let high = middle(b);
                assert(m * p <= t * high);
                assert(p <= t * (2 * unit)) by (nonlinear_arith)
                    requires
                        n * p >= t * low,
                        m * p <= t * high,
                        high <= low + 2 * unit,
                        m >= n + 1,
                        t > 0,
                        p > 0,
                ;
                if b < 0x10_0000_0000_0000 {
                    assert(b / 0x10_0000_0000_0000 == 0);
                    assert(unit == 1) by {
                        lemma2_to64();
                    }
                    assert(p > t * (2 * unit)) by (nonlinear_arith)
                        requires
                            unit == 1,
                            t <= q,
                            p == q * z,
                            z > 2,
                            q > 0,
                    ;
                } else {
                    assert(t * low > n * p) by (nonlinear_arith)
                        requires
                            p <= t * (2 * unit),
                            low >= 0x10_0000_0000_0000 * unit,
                            n < 0x4_0000_0000_0000,
                            t > 0,
                            unit > 0,
                            p > 0,
                    ;
                }
            }
        }
    }
}

proof fn lemma_digits_only(s: Seq<char>)
    requires
        forall|i: int| 0 <= i < s.len() ==> '0' <= #[trigger] s[i] <= '9',
    ensures
        run(s, CharClass::Digit) == s.len(),
{
    assert forall|i: int| 0 <= i < s.len() implies in_class(CharClass::Digit, #[trigger] s[i]) by {
        assert('0' <= s[i] <= '9');
    }
    lemma_run_is(s, CharClass::Digit, s.len());
}

/// The bits of a row of digits.
proof fn lemma_bits_of_row(a: Seq<char>)
    requires
        is_row(a),
    ensures
        bits_of(a) == Some(nearest_double(value(a), 0)),
{
    assert('0' <= a[0] <= '9');
    assert(unsigned(a) == a);
    assert forall|i: int| 0 <= i < a.len() implies in_class(CharClass::NonExponent, #[trigger] a[i]) by {
        assert('0' <= a[i] <= '9');
    }
    lemma_run_is(a, CharClass::NonExponent, a.len());
    assert(a.take(a.len() as int) =~= a);
    lemma_digits_only(a);
    assert(number_parts(a) == Some((a, 0int)));
    assert(pow10(0) == 1);
    assert(value(a) * pow10(0) == value(a)) by (nonlinear_arith)
        requires
            pow10(0) == 1,
    ;
}

/// The bits of a decimal with a point.
proof fn lemma_bits_of_decimal(a: Seq<char>, f: Seq<char>)
    requires
        is_row(a),
        forall|i: int| 0 <= i < f.len() ==> '0' <= #[trigger] f[i] <= '9',
    ensures
        bits_of(a + seq!['.'] + f) == Some(nearest_double(value(a + f), f.len())),
{
    let s = a + seq!['.'] + f;
    assert('0' <= a[0] <= '9');
    assert(s[0] == a[0]);
    assert(unsigned(s) == s);
    assert forall|i: int| 0 <= i < s.len() implies in_class(CharClass::NonExponent, #[trigger] s[i]) by {
        if i < a.len() {
            assert(s[i] == a[i]);
        } else if i > a.len() {
            assert(s[i] == f[i - a.len() - 1]);
        }
    }
    lemma_run_is(s, CharClass::NonExponent, s.len());
    assert(s.take(s.len() as int) =~= s);
    assert forall|i: int| 0 <= i < a.len() implies in_class(CharClass::Digit, #[trigger] s[i]) by {
        assert(s[i] == a[i]);
    }
    assert(s[a.len() as int] == '.');
    lemma_run_is(s, CharClass::Digit, a.len());
    assert(s.skip(a.len() as int + 1) =~= f);
    lemma_digits_only(f);
    assert(s.take(a.len() as int) =~= a);
    assert(decimal_parts(s) == Some((a + f, f.len())));
    assert(number_parts(s) == Some((a + f, -(f.len() as int))));
    assert(pow10(0) == 1);
    assert(value(a + f) * pow10(0) == value(a + f)) by (nonlinear_arith)
        requires
            pow10(0) == 1,
    ;
}

proof fn lemma_rank_of_nearest(n: nat, k: nat)
    ensures
        nearest_double(n, k) <= INFINITY_BITS,
        total_rank(nearest_double(n, k)) == SIGN_BIT + nearest_double(n, k),
{
    lemma_nearest(n, k);
}

/// Whole numbers stand by their values: a larger one never before a smaller
/// one, equal ones together, and different ones apart as far as doubles tell
/// them apart.
pub proof fn whole_numbers_rank_by_value(a: Seq<char>, b: Seq<char>)
    requires
        is_row(a),
        is_row(b),
    ensures
        value(a) <= value(b) ==> number_rank(a) <= number_rank(b),
        value(a) == value(b) ==> number_rank(a) == number_rank(b),
        value(a) < value(b) && value(b) <= 0x4_0000_0000_0000 ==> number_rank(a) < number_rank(b),
{
    lemma_bits_of_row(a);
    lemma_bits_of_row(b);
    lemma_rank_of_nearest(value(a), 0);
    lemma_rank_of_nearest(value(b), 0);
    lemma_nearest(value(a), 0);
    lemma_nearest(value(b), 0);
    if value(a) <= value(b) {
        nearest_double_is_monotone(
            value(a),
            value(b),
            0,
            nearest_double(value(a), 0),
            nearest_double(value(b), 0),
        );
    }
    if value(a) < value(b) && value(b) <= 0x4_0000_0000_0000 {
        lemma_nearest_is_strict(value(a), value(b), 0);
    }
}

/// Decimals with as many digits behind their points stand by their digits: a
/// larger one never before a smaller one, equal ones together, and different
/// ones apart as far as doubles tell them apart.
pub proof fn decimals_rank_by_value(a: Seq<char>, f: Seq<char>, b: Seq<char>, g: Seq<char>)
    requires
        is_row(a),
        is_row(b),
        f.len() == g.len(),
        forall|i: int| 0 <= i < f.len() ==> '0' <= #[trigger] f[i] <= '9',
        forall|i: int| 0 <= i < g.len() ==> '0' <= #[trigger] g[i] <= '9',
    ensures
        ({
            let x = a + seq!['.'] + f;
            let y = b + seq!['.'] + g;
            &&& value(a + f) <= value(b + g) ==> number_rank(x) <= number_rank(y)
            &&& value(a + f) == value(b + g) ==> number_rank(x) == number_rank(y)
            &&& value(a + f) < value(b + g) && value(b + g) <= 0x4_0000_0000_0000 && f.len() <= 250
                ==> number_rank(x) < number_rank(y)
        }),
{
    let k = f.len();
    let n = value(a + f);
    let m = value(b + g);
    lemma_bits_of_decimal(a, f);
    lemma_bits_of_decimal(b, g);
    lemma_rank_of_nearest(n, k);
    lemma_rank_of_nearest(m, k);
    lemma_nearest(n, k);
    lemma_nearest(m, k);
    if n <= m {
        nearest_double_is_monotone(n, m, k, nearest_double(n, k), nearest_double(m, k));
    }
    if n < m && m <= 0x4_0000_0000_0000 && k <= 250 {
        lemma_nearest_is_strict(n, m, k);
    }
}

/// A point at the end, and zeros at the end behind a point, do not change where
/// a number stands.
pub proof fn trailing_zeros_do_not_count(a: Seq<char>, f: Seq<char>)
    requires
        is_row(a),
        forall|i: int| 0 <= i < f.len() ==> '0' <= #[trigger] f[i] <= '9',
    ensures
        number_rank(a + seq!['.']) == number_rank(a),
        number_rank(a + seq!['.'] + f.push('0')) == number_rank(a + seq!['.'] + f),
{
    let none = Seq::<char>::empty();
    lemma_bits_of_row(a);
    lemma_bits_of_decimal(a, none);
    assert(a + seq!['.'] + none =~= a + seq!['.']);
    assert(a + none =~= a);
    lemma_bits_of_decimal(a, f);
    lemma_bits_of_decimal(a, f.push('0'));
    assert(a + f.push('0') =~= (a + f).push('0'));
    rows_are_read_in_decimal(a + f, '0');
    let n = value(a + f);
    let k = f.len();
    lemma_nearest(n, k);
    lemma_nearest(10 * n, k + 1);
    let b = nearest_double(n, k);
    if b > 0 {
        lemma_rounding_scales(n, k, (b - 1) as nat);
    }
    lemma_rounding_scales(n, k, b);
    assert(is_nearest_double(10 * n, k + 1, b));
    nearest_double_is_unique(10 * n, k + 1, b, nearest_double(10 * n, k + 1));
}

proof fn lemma_rounding_scales(n: nat, k: nat, bits: nat)
    ensures
        rounds_above(10 * n, k + 1, bits) == rounds_above(n, k, bits),
{
    let p = pow2(1075);
    let t = pow10(k);
    let m = middle(bits);
    assert(pow10(k + 1) == t * 10);
    assert((10 * n) * p == 10 * (n * p)) by (nonlinear_arith);
    assert((t * 10) * m == 10 * (t * m)) by (nonlinear_arith);
}

/// A minus mirrors where a number stands, so that negative numbers come first,
/// the largest of them last; a plus changes nothing.
pub proof fn signs_mirror_numbers(s: Seq<char>)
    requires
        is_row(s),
    ensures
        number_rank(seq!['-'] + s) + number_rank(s) == 0xffff_ffff_ffff_ffff,
        number_rank(seq!['-'] + s) < number_rank(s),
        number_rank(seq!['+'] + s) == number_rank(s),
{
    let minus = seq!['-'] + s;
    let plus = seq!['+'] + s;
    assert(minus.skip(1) =~= s && plus.skip(1) =~= s);
    assert('0' <= s[0] <= '9');
    assert(unsigned(s) == s);
    lemma_bits_of_row(s);
    lemma_rank_of_nearest(value(s), 0);
    assert(magnitude_of(s) == Some(nearest_double(value(s), 0)));
}

/// A text that starts with a letter, and not like `inf` or `nan`, stands where
/// zero stands.
pub proof fn other_texts_rank_as_zero(s: Seq<char>)
    requires
        s.len() > 0,
        'a' <= s[0] <= 'z' || 'A' <= s[0] <= 'Z',
        s[0] != 'i' && s[0] != 'I' && s[0] != 'n' && s[0] != 'N',
    ensures
        number_rank(s) == number_rank(seq!['0']),
{
    lemma_text_is_no_number(s);
    let zero = seq!['0'];
    lemma_bits_of_row(zero);
    assert(zero.drop_last() =~= Seq::<char>::empty());
    assert(value(Seq::<char>::empty()) == 0);
    assert(value(zero) == 0);
    lemma_nearest(0, 0);
    lemma_smallest_middle();
    assert(pow10(0) == 1);
    assert(!rounds_above(0, 0, 0)) by {
        assert(0nat * pow2(1075) == 0) by (nonlinear_arith);
        assert(pow10(0) * middle(0) == 1) by (nonlinear_arith)
            requires
                pow10(0) == 1,
                middle(0) == 1,
        ;
    }
    nearest_double_is_unique(0, 0, 0, nearest_double(0, 0));
}

proof fn lemma_text_is_no_number(s: Seq<char>)
    requires
        s.len() > 0,
        'a' <= s[0] <= 'z' || 'A' <= s[0] <= 'Z',
        s[0] != 'i' && s[0] != 'I' && s[0] != 'n' && s[0] != 'N',
    ensures
        bits_of(s) is None,
{
    reveal_strlit("inf");
    reveal_strlit("infinity");
    reveal_strlit("nan");
    assert(unsigned(s) == s);
    let e = run(s, CharClass::NonExponent) as int;
    lemma_run(s, CharClass::NonExponent);
    let front = s.take(e);
    if front.len() > 0 {
        assert(front[0] == s[0]);
        assert(!in_class(CharClass::Digit, front[0]));
        lemma_run_is(front, CharClass::Digit, 0);
        assert(decimal_parts(front) is None);
    } else {
        lemma_run_is(front, CharClass::Digit, 0);
    }
    assert(number_parts(s) is None);
    lemma_first_letter(s[0]);
    assert(lower(s)[0] == lower_char(s[0]));
    assert("inf"@[0] == 'i' && "infinity"@[0] == 'i' && "nan"@[0] == 'n');
    assert(bits_of(s) is None);
}

proof fn lemma_first_letter(c: char)
    requires
        c != 'i' && c != 'I' && c != 'n' && c != 'N',
    ensures
        lower_char(c) != 'i' && lower_char(c) != 'n',
{
    if 'A' <= c <= 'Z' {
        let d = (c as u32 + 32) as char;
        assert(d as u32 == c as u32 + 32);
    }
}

/// Where the highest bit of a number below two to the fifty-third is.
proof fn lemma_highest_bit(n: nat, e: nat) -> (r: nat)
    requires
        0 < n < 0x20_0000_0000_0000,
        n < pow2(e + 1),
        e <= 52,
    ensures
        r <= 52,
        pow2(r) <= n < pow2(r + 1),
    decreases e,
{
    if pow2(e) <= n {
        e
    } else if e == 0 {
        lemma2_to64();
        assert(pow2(0) == 1);
        e
    } else {
        lemma_highest_bit(n, (e - 1) as nat)
    }
}

/// A whole number below two to the fifty-third is its nearest double, exactly:
/// the fraction bits with the leading one, times two to the exponent.
pub proof fn whole_numbers_are_exact(n: nat)
    requires
        0 < n < 0x20_0000_0000_0000,
    ensures
        ({
            let b = nearest_double(n, 0);
            &&& 0x10_0000_0000_0000 <= b
            &&& b < 0x7ff0_0000_0000_0000
            &&& (0x10_0000_0000_0000 + b % 0x10_0000_0000_0000) * pow2((b / 0x10_0000_0000_0000 - 1) as nat) == n
                * pow2(1074)
        }),
{
    lemma2_to64();
    lemma2_to64_rest();
    assert(pow2(53) == 0x20_0000_0000_0000);
    assert(pow2(52) == 0x10_0000_0000_0000);
    let e = lemma_highest_bit(n, 52);
    let up = (52 - e) as nat;
    let m = n * pow2(up);
    lemma_pow2_adds(e, up);
    lemma_pow2_adds(e + 1, up);
    lemma_pow2_pos(up);
    assert(e + up == 52 && e + 1 + up == 53);
    let x = pow2(e);
    let y = pow2(e + 1);
    let u = pow2(up);
    assert(0x10_0000_0000_0000 <= m < 0x20_0000_0000_0000) by (nonlinear_arith)
        requires
            x * u == 0x10_0000_0000_0000,
            y * u == 0x20_0000_0000_0000,
            x <= n < y,
            u > 0,
            m == n * u,
    ;
    let b = ((e + 1023) * 0x10_0000_0000_0000 + (m - 0x10_0000_0000_0000)) as nat;
    assert(b / 0x10_0000_0000_0000 == e + 1023);
    assert(b % 0x10_0000_0000_0000 == m - 0x10_0000_0000_0000);
    assert(mantissa(b) == m && shift(b) == e + 1022);
    let p = pow2(shift(b));
    lemma_pow2_pos(shift(b));
    lemma_pow2_adds(up, shift(b));
    assert(up + shift(b) == 1074);
    assert(m * p == n * pow2(1074)) by (nonlinear_arith)
        requires
            m == n * u,
            u * p == pow2(1074),
    ;
    lemma_pow2_adds(1, 1074);
    let left = n * pow2(1075);
    assert(left == 2 * (m * p)) by (nonlinear_arith)
        requires
            left == n * pow2(1075),
            pow2(1075) == 2 * pow2(1074),
            m * p == n * pow2(1074),
    ;
    assert(pow10(0) == 1);
    let right = pow10(0) * middle(b);
    assert(right == 2 * (m * p) + p) by (nonlinear_arith)
        requires
            right == 1 * ((2 * m + 1) * p),
    ;
    assert(!rounds_above(n, 0, b));
    let before = (b - 1) as nat;
    let lower = pow10(0) * middle(before);
    assert(lower < left) by {
        if m > 0x10_0000_0000_0000 {
            assert(before / 0x10_0000_0000_0000 == e + 1023);
            assert(mantissa(before) == m - 1 && shift(before) == shift(b));
            assert(lower < left) by (nonlinear_arith)
                requires
                    lower == 1 * ((2 * (m - 1) + 1) * p),
                    left == 2 * (m * p),
                    p > 0,
            ;
        } else {
            assert(before / 0x10_0000_0000_0000 == e + 1022);
            assert(before % 0x10_0000_0000_0000 == 0x0f_ffff_ffff_ffff);
            assert(mantissa(before) == 0x1f_ffff_ffff_ffff && shift(before) == e + 1021);
            let h = pow2(shift(before));
            lemma_pow2_pos(shift(before));
            lemma_pow2_adds(1, shift(before));
            assert(p == 2 * h);
            assert(lower < left) by (nonlinear_arith)
                requires
                    lower == 1 * ((2 * 0x1f_ffff_ffff_ffff + 1) * h),
                    left == 2 * (m * p),
                    m == 0x10_0000_0000_0000,
                    p == 2 * h,
                    h > 0,
            ;
        }
    }
    assert(rounds_above(n, 0, before));
    assert(is_nearest_double(n, 0, b));
    lemma_nearest(n, 0);
    nearest_double_is_unique(n, 0, b, nearest_double(n, 0));
}

/// A reader is shown the whole number of a chapter exactly, and one where the
/// number starts with a letter and not like `inf` or `nan`.
pub proof fn readers_are_shown_the_number(number: Seq<char>)
    ensures
        is_row(number) && 0 < value(number) < 0x20_0000_0000_0000 ==> {
            let b = shown_number(number);
            &&& 0x10_0000_0000_0000 <= b
            &&& b < 0x7ff0_0000_0000_0000
            &&& (0x10_0000_0000_0000 + b % 0x10_0000_0000_0000) * pow2((b / 0x10_0000_0000_0000 - 1) as nat)
                == value(number) * pow2(1074)
        },
        number.len() > 0 && ('a' <= number[0] <= 'z' || 'A' <= number[0] <= 'Z') && number[0] != 'i' && number[0]
            != 'I' && number[0] != 'n' && number[0] != 'N' ==> {
            let b = shown_number(number);
            (0x10_0000_0000_0000 + b % 0x10_0000_0000_0000) * pow2((b / 0x10_0000_0000_0000 - 1) as nat) == pow2(
                1074,
            )
        },
{
    if is_row(number) && 0 < value(number) < 0x20_0000_0000_0000 {
        lemma_bits_of_row(number);
        whole_numbers_are_exact(value(number));
    }
    if number.len() > 0 && ('a' <= number[0] <= 'z' || 'A' <= number[0] <= 'Z') && number[0] != 'i' && number[0]
        != 'I' && number[0] != 'n' && number[0] != 'N' {
        lemma_text_is_no_number(number);
        let b = shown_number(number);
        assert(b == 0x3ff0_0000_0000_0000);
        assert(b / 0x10_0000_0000_0000 == 0x3ff && b % 0x10_0000_0000_0000 == 0);
        lemma_pow2_adds(52, 0x3fe);
        lemma2_to64_rest();
        assert(pow2(52) == 0x10_0000_0000_0000);
    }
}

/// Keys compare number by number: the first difference decides, and a key that
/// ends comes before one that goes on.
pub proof fn keys_compare_number_by_number(x: int, a: Seq<int>, y: int, b: Seq<int>)
    ensures
        key_lt(seq![x] + a, seq![y] + b) <==> x < y || x == y && key_lt(a, b),
        key_lt(Seq::empty(), seq![y] + b),
        !key_lt(seq![x] + a, Seq::empty()),
        !key_lt(Seq::empty(), Seq::empty()),
{
    assert((seq![x] + a).skip(1) =~= a);
    assert((seq![y] + b).skip(1) =~= b);
}

/// Comparing two keys tells which of them comes first.
pub proof fn comparing_tells_the_first(a: Seq<int>, b: Seq<int>)
    ensures
        key_order(a, b) is Less <==> key_lt(a, b),
        key_order(a, b) is Greater <==> key_lt(b, a),
        key_order(a, b) is Equal <==> a == b,
{
    lemma_key_lt_total(a, b);
    lemma_key_lt_asymmetric(a, b);
    lemma_key_lt_irreflexive(a);
}

spec fn zeros(k: nat) -> Seq<char> {
    Seq::new(k, |i: int| '0')
}

proof fn lemma_value_with_zeros(a: Seq<char>, k: nat)
    ensures
        value(a + zeros(k)) == value(a) * pow10(k),
    decreases k,
{
    if k == 0 {
        assert(a + zeros(0) =~= a);
        assert(value(a) * pow10(0) == value(a)) by (nonlinear_arith)
            requires
                pow10(0) == 1,
        ;
    } else {
        let before = a + zeros((k - 1) as nat);
        lemma_value_with_zeros(a, (k - 1) as nat);
        assert(a + zeros(k) =~= before.push('0'));
        rows_are_read_in_decimal(before, '0');
        let p = pow10((k - 1) as nat);
        assert(10 * (value(a) * p) == value(a) * (p * 10)) by (nonlinear_arith);
    }
}

/// A power of ten behind `e` or `E` stands for as many zeros.
pub proof fn powers_of_ten_stand_for_zeros(a: Seq<char>, e: char, x: Seq<char>)
    requires
        is_row(a),
        e == 'e' || e == 'E',
        is_row(x),
    ensures
        number_rank(a + seq![e] + x) == number_rank(a + Seq::new(value(x), |i: int| '0')),
{
    let s = a + seq![e] + x;
    let k = value(x);
    let long = a + zeros(k);
    assert(zeros(k) =~= Seq::new(value(x), |i: int| '0'));
    assert('0' <= a[0] <= '9');
    assert(s[0] == a[0] && long[0] == a[0]);
    assert(unsigned(s) == s);
    assert forall|i: int| 0 <= i < a.len() implies in_class(CharClass::NonExponent, #[trigger] s[i]) by {
        assert(s[i] == a[i]);
    }
    assert(s[a.len() as int] == e);
    lemma_run_is(s, CharClass::NonExponent, a.len());
    assert(s.take(a.len() as int) =~= a);
    assert(s.skip(a.len() as int + 1) =~= x);
    lemma_digits_only(a);
    lemma_digits_only(x);
    assert('0' <= x[0] <= '9');
    assert(unsigned(x) == x);
    assert(number_parts(s) == Some((a, k as int)));
    assert forall|i: int| 0 <= i < long.len() implies '0' <= #[trigger] long[i] <= '9' by {
        if i < a.len() {
            assert(long[i] == a[i]);
        }
    }
    lemma_bits_of_row(long);
    lemma_value_with_zeros(a, k);
}

/// `inf` and `infinity` stand behind all whole numbers, and `nan` behind those,
/// in small or capital letters.
pub proof fn infinity_stands_behind_numbers(a: Seq<char>, word: Seq<char>, none: Seq<char>)
    requires
        is_row(a),
        spells(word, "inf"@) || spells(word, "infinity"@),
        spells(none, "nan"@),
    ensures
        number_rank(a) <= number_rank(word),
        number_rank(word) < number_rank(none),
{
    reveal_strlit("inf");
    reveal_strlit("infinity");
    reveal_strlit("nan");
    spelled_words_are_equal_in_lower_case(word, "inf"@);
    spelled_words_are_equal_in_lower_case(word, "infinity"@);
    spelled_words_are_equal_in_lower_case(none, "nan"@);
    assert("inf"@ != "nan"@) by {
        assert("inf"@[0] == 'i' && "nan"@[0] == 'n');
    }
    assert(word[0] == 'i' || word[0] as u32 + 32 == 'i' as u32);
    assert(none[0] == 'n' || none[0] as u32 + 32 == 'n' as u32);
    lemma_word_is_no_decimal(word);
    lemma_word_is_no_decimal(none);
    assert(lower(none) != "inf"@ && lower(none) != "infinity"@) by {
        assert(lower(none).len() == 3);
        assert("infinity"@.len() == 8);
    }
    lemma_bits_of_row(a);
    lemma_rank_of_nearest(value(a), 0);
}

proof fn lemma_word_is_no_decimal(s: Seq<char>)
    requires
        s.len() > 1,
        s[0] as u32 >= 0x41,
        s[0] != 'e' && s[0] != 'E',
    ensures
        unsigned(s) == s,
        number_parts(s) is None,
        s[0] != '-',
{
    let e = run(s, CharClass::NonExponent) as int;
    lemma_run(s, CharClass::NonExponent);
    let front = s.take(e);
    assert(e > 0);
    assert(front[0] == s[0]);
    lemma_run_is(front, CharClass::Digit, 0);
    assert(decimal_parts(front) is None);
}

} // verus!
