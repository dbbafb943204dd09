//! Sizes in bytes as text for people.
use crate::digits::{decimal, print_decimal};
use vstd::prelude::*;
use vstd::string::StringExecFns;

verus! {

/// The integer nearest to `n / d`, the even one where two are equally near.
pub open spec fn half_even(n: nat, d: nat) -> nat {
    if 2 * (n % d) > d || (2 * (n % d) == d && (n / d) % 2 == 1) {
        n / d + 1
    } else {
        n / d
    }
}

/// The distance between neighbouring doubles around the integer `n`, at least
/// one.
pub open spec fn double_step(n: nat) -> nat
    decreases n,
{
    if n < 0x20_0000_0000_0000 {
        1
    } else {
        2 * double_step(n / 2)
    }
}

/// The double nearest to the integer `n`: a double holds integers to
/// fifty-three significant bits.
pub open spec fn as_double(n: nat) -> nat {
    half_even(n, double_step(n)) * double_step(n)
}

/// How many times a size is divided by 1024, at most four times.
pub open spec fn unit_index(size: nat) -> nat {
    if size < 0x400 {
        0
    } else if size < 0x10_0000 {
        1
    } else if size < 0x4000_0000 {
        2
    } else if size < 0x100_0000_0000 {
        3
    } else {
        4
    }
}

/// The bytes in one unit, and the unit's name.
pub open spec fn unit(index: nat) -> (nat, Seq<char>) {
    if index == 0 {
        (1, "B"@)
    } else if index == 1 {
        (0x400, "KiB"@)
    } else if index == 2 {
        (0x10_0000, "MiB"@)
    } else if index == 3 {
        (0x4000_0000, "GiB"@)
    } else {
        (0x100_0000_0000, "TiB"@)
    }
}

/// Bytes as such below 1024, else in the largest unit, taken as a double and
/// rounded to one decimal.
pub open spec fn readable_size(bytes: nat) -> Seq<char> {
    let size = as_double(bytes);
    let (divisor, name) = unit(unit_index(size));
    if unit_index(size) == 0 {
        decimal(bytes) + " "@ + name
    } else {
        let tenths = half_even(10 * size, divisor);
        decimal(tenths / 10) + "."@ + decimal(tenths % 10) + " "@ + name
    }
}

fn half_even_of(n: u128, d: u128) -> (r: u128)
    requires
        0 < d < 0x1_0000_0000_0000_0000,
        n < 0x1_0000_0000_0000_0000_0000,
    ensures
        r == half_even(n as nat, d as nat),
        r <= n / d + 1,
{
    let q: u128 = n / d;
    let r: u128 = n % d;
    assert(q <= n) by (nonlinear_arith)
        requires
            q == n / d,
            d >= 1,
    ;
    if 2 * r > d || (2 * r == d && q % 2 == 1) {
        q + 1
    } else {
        q
    }
}

fn double_step_of(n: u64) -> (r: u64)
    ensures
        r == double_step(n as nat),
        1 <= r < 0x1000,
        n >= 0x20_0000_0000_0000 ==> r * 0x10_0000_0000_0000 <= n,
    decreases n,
{
    if n < 0x20_0000_0000_0000 {
        1
    } else {
        2 * double_step_of(n / 2)
    }
}

/// `bytes` as text, in the largest fitting unit.
pub fn human_bytes(bytes: u64) -> (r: String)
    ensures
        r@ == readable_size(bytes as nat),
{
    let step: u64 = double_step_of(bytes);
    let q: u128 = half_even_of(bytes as u128, step as u128);
    assert(bytes / step <= bytes) by (nonlinear_arith)
        requires
            step >= 1,
    ;
    assert(q * step <= 0x1_0000_0000_0000_1000) by (nonlinear_arith)
        requires
            q <= bytes / step + 1,
            1 <= step < 0x1000,
            bytes <= 0xffff_ffff_ffff_ffff,
    ;
    let size: u128 = q * step as u128;
    let (divisor, name): (u128, &str) = if size < 0x400 {
        (1, "B")
    } else if size < 0x10_0000 {
        (0x400, "KiB")
    } else if size < 0x4000_0000 {
        (0x10_0000, "MiB")
    } else if size < 0x100_0000_0000 {
        (0x4000_0000, "GiB")
    } else {
        (0x100_0000_0000, "TiB")
    };
    if divisor == 1 {
        let mut r: String = print_decimal(bytes);
        r.append(" ");
        r.append(name);
        r
    } else {
        let tenths: u128 = half_even_of(10 * size, divisor);
        assert((10 * size) / (divisor as int) <= 0x300_0000_0000_0000) by (nonlinear_arith)
            requires
                size <= 0x1_0000_0000_0000_1000,
                divisor >= 0x400,
        ;
        let mut r: String = print_decimal((tenths / 10) as u64);
        r.append(".");
        r.append(print_decimal((tenths % 10) as u64).as_str());
        r.append(" ");
        r.append(name);
        r
    }
}

} // verus!
