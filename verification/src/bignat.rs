//! Natural numbers of any size, as far as the rounding of numerals needs them:
//! multiplication by a machine word, and comparison.
use crate::order::KeyOrder;
use vstd::arithmetic::power2::{lemma2_to64, lemma_pow2_adds, pow2};
use vstd::prelude::*;

verus! {

/// A natural number, as limbs of thirty-two bits, the lowest first.
#[derive(Debug)]
pub struct BigNat {
    limbs: Vec<u32>,
}

/// The weight of limb `n`.
spec fn weight(n: nat) -> nat
    decreases n,
{
    if n == 0 {
        1
    } else {
        weight((n - 1) as nat) * 0x1_0000_0000
    }
}

spec fn limb(s: Seq<u32>, i: int) -> nat {
    if 0 <= i < s.len() {
        s[i] as nat
    } else {
        0
    }
}

/// The value of the lowest `n` limbs.
spec fn low(s: Seq<u32>, n: nat) -> nat
    decreases n,
{
    if n == 0 {
        0
    } else {
        low(s, (n - 1) as nat) + limb(s, n - 1) * weight((n - 1) as nat)
    }
}

proof fn lemma_low_bound(s: Seq<u32>, n: nat)
    ensures
        low(s, n) < weight(n),
    decreases n,
{
    if n > 0 {
        lemma_low_bound(s, (n - 1) as nat);
        let w = weight((n - 1) as nat);
        let l = limb(s, n - 1);
        let v = low(s, (n - 1) as nat);
        assert(v + l * w < w * 0x1_0000_0000) by (nonlinear_arith)
            requires
                v < w,
                l < 0x1_0000_0000,
        ;
    }
}

proof fn lemma_low_beyond(s: Seq<u32>, n: nat)
    requires
        s.len() <= n,
    ensures
        low(s, n) == low(s, s.len()),
    decreases n,
{
    if s.len() < n {
        lemma_low_beyond(s, (n - 1) as nat);
        assert(limb(s, n - 1) * weight((n - 1) as nat) == 0) by (nonlinear_arith)
            requires
                limb(s, n - 1) == 0,
        ;
    }
}

proof fn lemma_low_prefix(s: Seq<u32>, t: Seq<u32>, n: nat)
    requires
        n <= s.len(),
        n <= t.len(),
        s.take(n as int) == t.take(n as int),
    ensures
        low(s, n) == low(t, n),
    decreases n,
{
    if n > 0 {
        assert(s.take(n - 1) == s.take(n as int).take(n - 1));
        assert(t.take(n - 1) == t.take(n as int).take(n - 1));
        lemma_low_prefix(s, t, (n - 1) as nat);
        assert(s[n - 1] == s.take(n as int)[n - 1] && t[n - 1] == t.take(n as int)[n - 1]);
    }
}

impl View for BigNat {
    type V = nat;

    closed spec fn view(&self) -> nat {
        low(self.limbs@, self.limbs@.len())
    }
}

impl BigNat {
    pub fn zero() -> (r: BigNat)
        ensures
            r@ == 0,
    {
        BigNat { limbs: Vec::new() }
    }

    /// This number times `m`, plus `a`.
    pub fn times_plus(&self, m: u64, a: u64) -> (r: BigNat)
        ensures
            r@ == self@ * m + a,
    {
        let mut out: Vec<u32> = Vec::new();
        let mut carry: u64 = a;
        let mut i: usize = 0;
        let ghost s = self.limbs@;
        assert(low(s, 0) * m + a == a) by (nonlinear_arith)
            requires
                low(s, 0) == 0,
        ;
        assert(carry * weight(0) == a) by (nonlinear_arith)
            requires
                weight(0) == 1,
                carry == a,
        ;
        while i < self.limbs.len()
            invariant
                i <= self.limbs.len(),
                s == self.limbs@,
                out.len() == i,
                low(out@, i as nat) + carry * weight(i as nat) == low(s, i as nat) * m + a,
            decreases self.limbs.len() - i,
        {
            let l: u32 = self.limbs[i];
            assert(l * m + carry <= 0x1_0000_0000 * 0xffff_ffff_ffff_ffff) by (nonlinear_arith)
                requires
                    l <= 0xffff_ffff,
                    m <= 0xffff_ffff_ffff_ffff,
                    carry <= 0xffff_ffff_ffff_ffff,
            ;
            assert(0 <= l * m <= l * m + carry) by (nonlinear_arith)
                requires
                    l >= 0,
                    m >= 0,
                    carry >= 0,
            ;
            let t: u128 = l as u128 * m as u128 + carry as u128;
            let d: u32 = (t % 0x1_0000_0000) as u32;
            let next: u64 = (t / 0x1_0000_0000) as u64;
            let ghost before = out@;
            out.push(d);
            proof {
                let w = weight(i as nat);
                let lo = low(before, i as nat);
                let sl = low(s, i as nat);
                assert(before.take(i as int) == out@.take(i as int));
                lemma_low_prefix(before, out@, i as nat);
                assert(low(out@, (i + 1) as nat) == lo + d * w);
                assert(low(s, (i + 1) as nat) == sl + l * w);
                assert(t == d + next * 0x1_0000_0000);
                assert(lo + d * w + next * (w * 0x1_0000_0000) == (sl + l * w) * m + a)
                    by (nonlinear_arith)
                    requires
                        lo + carry * w == sl * m + a,
                        l * m + carry == d + next * 0x1_0000_0000,
                ;
            }
            carry = next;
            i += 1;
        }
        let ghost n = i as nat;
        let ghost before = out@;
        out.push((carry % 0x1_0000_0000) as u32);
        out.push((carry / 0x1_0000_0000) as u32);
        proof {
            assert(before.take(n as int) == out@.take(n as int));
            lemma_low_prefix(before, out@, n);
            let w = weight(n);
            let c0 = carry % 0x1_0000_0000;
            let c1 = carry / 0x1_0000_0000;
            assert(weight(n + 1) == w * 0x1_0000_0000);
            assert(low(out@, n + 1) == low(before, n) + c0 * w);
            assert(low(out@, n + 2) == low(out@, n + 1) + c1 * weight(n + 1));
            assert(c0 * w + c1 * (w * 0x1_0000_0000) == carry * w) by (nonlinear_arith)
                requires
                    carry == c0 + c1 * 0x1_0000_0000,
            ;
        }
        BigNat { limbs: out }
    }

    /// This number times two to the power of `bits`.
    pub fn times_pow2(self, bits: u32) -> (r: BigNat)
        ensures
            r@ == self@ * pow2(bits as nat),
    {
        let ghost start = self@;
        let mut r: BigNat = self;
        let mut left: u32 = bits;
        proof {
            lemma2_to64();
        }
        assert(start * pow2(0) == start);
        while left > 0
            invariant
                left <= bits,
                r@ == start * pow2((bits - left) as nat),
            decreases left,
        {
            let ghost before = r@;
            let ghost e = (bits - left) as nat;
            if left >= 32 {
                r = r.times_plus(0x1_0000_0000, 0);
                left -= 32;
                proof {
                    lemma2_to64();
                    lemma_pow2_adds(e, 32);
                    assert(before * 0x1_0000_0000 == start * pow2(e + 32)) by (nonlinear_arith)
                        requires
                            before == start * pow2(e),
                            pow2(e) * 0x1_0000_0000 == pow2(e + 32),
                    ;
                }
            } else {
                r = r.times_plus(2, 0);
                left -= 1;
                proof {
                    lemma2_to64();
                    lemma_pow2_adds(e, 1);
                    assert(before * 2 == start * pow2(e + 1)) by (nonlinear_arith)
                        requires
                            before == start * pow2(e),
                            pow2(e) * 2 == pow2(e + 1),
                    ;
                }
            }
        }
        r
    }

    /// How this number stands to `other`.
    pub fn compared(&self, other: &BigNat) -> (r: KeyOrder)
        ensures
            r == (if self@ < other@ {
                KeyOrder::Less
            } else if self@ == other@ {
                KeyOrder::Equal
            } else {
                KeyOrder::Greater
            }),
    {
        let ghost s = self.limbs@;
        let ghost t = other.limbs@;
        let mut r: KeyOrder = KeyOrder::Equal;
        let mut i: usize = 0;
        while i < self.limbs.len() || i < other.limbs.len()
            invariant
                s == self.limbs@,
                t == other.limbs@,
                i <= self.limbs.len() || i <= other.limbs.len(),
                r == (if low(s, i as nat) < low(t, i as nat) {
                    KeyOrder::Less
                } else if low(s, i as nat) == low(t, i as nat) {
                    KeyOrder::Equal
                } else {
                    KeyOrder::Greater
                }),
            decreases self.limbs.len() + other.limbs.len() - i,
        {
            let a: u32 = if i < self.limbs.len() {
                self.limbs[i]
            } else {
                0
            };
            let b: u32 = if i < other.limbs.len() {
                other.limbs[i]
            } else {
                0
            };
            proof {
                lemma_low_bound(s, i as nat);
                lemma_low_bound(t, i as nat);
                let w = weight(i as nat);
                let x = low(s, i as nat);
                let y = low(t, i as nat);
                assert(low(s, (i + 1) as nat) == x + a * w);
                assert(low(t, (i + 1) as nat) == y + b * w);
                if a < b {
                    assert(x + a * w < y + b * w) by (nonlinear_arith)
                        requires
                            x < w,
                            a + 1 <= b,
                            y >= 0,
                    ;
                } else if b < a {
                    assert(y + b * w < x + a * w) by (nonlinear_arith)
                        requires
                            y < w,
                            b + 1 <= a,
                            x >= 0,
                    ;
                }
            }
            if a < b {
                r = KeyOrder::Less;
            } else if b < a {
                r = KeyOrder::Greater;
            }
            i += 1;
        }
        proof {
            lemma_low_beyond(s, i as nat);
            lemma_low_beyond(t, i as nat);
        }
        r
    }
}

} // verus!
