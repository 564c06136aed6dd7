//! Natural numbers of any size, for arithmetic that must not overflow.

use vstd::prelude::*;

verus! {

/// The base of the number system: one limb holds a digit below it.
pub open spec fn radix() -> nat {
    0x1_0000_0000_0000_0000
}

/// The weight of the digit at position `k`: the base to the power `k`.
pub open spec fn place(k: nat) -> nat
    decreases k,
{
    if k == 0 {
        1
    } else {
        radix() * place((k - 1) as nat)
    }
}

/// The digit at position `k`, zero beyond the last limb.
pub open spec fn limb_at(limbs: Seq<u64>, k: int) -> nat {
    if 0 <= k < limbs.len() {
        limbs[k] as nat
    } else {
        0
    }
}

/// The number that the lowest `k` digits spell, least significant first.
pub open spec fn low_value(limbs: Seq<u64>, k: nat) -> nat
    decreases k,
{
    if k == 0 {
        0
    } else {
        low_value(limbs, (k - 1) as nat) + limb_at(limbs, k - 1) * place((k - 1) as nat)
    }
}

/// The lowest `k` digits spell a number below the weight of position `k`.
proof fn lemma_low_value_below_place(limbs: Seq<u64>, k: nat)
    ensures
        low_value(limbs, k) < place(k),
    decreases k,
{
    if k > 0 {
        let p = place((k - 1) as nat);
        let digit = limb_at(limbs, k - 1);
        lemma_low_value_below_place(limbs, (k - 1) as nat);
        assert(digit * p + p <= radix() * p) by (nonlinear_arith)
            requires
                digit + 1 <= radix(),
                p >= 0,
        ;
    }
}

/// Two sequences that agree on their lowest `k` digits spell the same number
/// there.
proof fn lemma_low_value_agrees(s: Seq<u64>, t: Seq<u64>, k: nat)
    requires
        forall|j: int| 0 <= j < k ==> limb_at(s, j) == limb_at(t, j),
    ensures
        low_value(s, k) == low_value(t, k),
    decreases k,
{
    if k > 0 {
        lemma_low_value_agrees(s, t, (k - 1) as nat);
    }
}

/// Digits beyond the last limb add nothing.
proof fn lemma_low_value_padding(limbs: Seq<u64>, k: nat)
    requires
        k >= limbs.len(),
    ensures
        low_value(limbs, k) == low_value(limbs, limbs.len()),
    decreases k,
{
    if k > limbs.len() {
        lemma_low_value_padding(limbs, (k - 1) as nat);
        assert(limb_at(limbs, k - 1) * place((k - 1) as nat) == 0) by (nonlinear_arith)
            requires
                limb_at(limbs, k - 1) == 0,
        ;
    }
}

/// Where two sequences agree on the digits from position `i` up to `n`, the
/// numbers they spell up to `n` differ as the numbers they spell up to `i`.
proof fn lemma_low_value_common_top(s: Seq<u64>, t: Seq<u64>, i: nat, n: nat)
    requires
        i <= n,
        forall|j: int| i <= j < n ==> limb_at(s, j) == limb_at(t, j),
    ensures
        low_value(s, n) - low_value(t, n) == low_value(s, i) - low_value(t, i),
    decreases n,
{
    if i < n {
        lemma_low_value_common_top(s, t, i, (n - 1) as nat);
    }
}

/// A natural number of any size.
pub struct Wide {
    limbs: Vec<u64>,
}

impl Wide {
    /// The number that this value stands for.
    pub closed spec fn value(&self) -> nat {
        low_value(self.limbs@, self.limbs@.len())
    }

    /// The digit at position `i`, zero beyond the last limb.
    fn digit(&self, i: usize) -> (d: u64)
        ensures
            d == limb_at(self.limbs@, i as int),
    {
        if i < self.limbs.len() {
            self.limbs[i]
        } else {
            0
        }
    }

    /// The number `x`.
    pub fn from_u64(x: u64) -> (w: Wide)
        ensures
            w.value() == x,
    {
        let mut limbs: Vec<u64> = Vec::new();
        limbs.push(x);
        let w = Wide { limbs };
        proof {
            reveal_with_fuel(low_value, 2);
            reveal_with_fuel(place, 1);
            assert(limb_at(w.limbs@, 0) * place(0) == x) by (nonlinear_arith)
                requires
                    limb_at(w.limbs@, 0) == x,
                    place(0) == 1,
            ;
        }
        w
    }

    /// The product of this number and `m`.
    pub fn times(&self, m: u64) -> (w: Wide)
        ensures
            w.value() == self.value() * m,
    {
        let n = self.limbs.len();
        let mut limbs: Vec<u64> = Vec::new();
        let mut carry: u64 = 0;
        let mut i: usize = 0;
        assert(low_value(self.limbs@, 0) * m == 0) by (nonlinear_arith)
            requires
                low_value(self.limbs@, 0) == 0,
        ;
        while i < n
            invariant
                n == self.limbs.len(),
                i <= n,
                limbs.len() == i,
                low_value(limbs@, i as nat) + carry * place(i as nat) == low_value(
                    self.limbs@,
                    i as nat,
                ) * m,
            decreases n - i,
        {
            let digit = self.limbs[i];
            assert(digit * m + carry <= 0xffff_ffff_ffff_ffff * 0x1_0000_0000_0000_0000)
                by (nonlinear_arith)
                requires
                    digit <= 0xffff_ffff_ffff_ffff,
                    m <= 0xffff_ffff_ffff_ffff,
                    carry <= 0xffff_ffff_ffff_ffff,
            ;
            let total: u128 = (digit as u128) * (m as u128) + (carry as u128);
            let low: u64 = (total % 0x1_0000_0000_0000_0000) as u64;
            let high: u64 = (total / 0x1_0000_0000_0000_0000) as u64;
            let ghost before = limbs@;
            limbs.push(low);
            proof {
                let p = place(i as nat);
                let done = low_value(self.limbs@, i as nat);
                assert(total == low + high * radix());
                lemma_low_value_agrees(before, limbs@, i as nat);
                assert(limb_at(limbs@, i as int) == low);
                assert(limb_at(self.limbs@, i as int) == digit);
                assert(place((i + 1) as nat) == radix() * p);
                assert(low * p + high * (radix() * p) == (low + high * radix()) * p)
                    by (nonlinear_arith);
                assert((digit * m + carry) * p == digit * p * m + carry * p) by (nonlinear_arith);
                assert((done + digit * p) * m == done * m + digit * p * m) by (nonlinear_arith);
            }
            carry = high;
            i = i + 1;
        }
        let ghost before = limbs@;
        limbs.push(carry);
        proof {
            lemma_low_value_agrees(before, limbs@, n as nat);
            assert(limb_at(limbs@, n as int) == carry);
        }
        Wide { limbs }
    }

    /// The sum of this number and `other`.
    pub fn plus(&self, other: &Wide) -> (w: Wide)
        ensures
            w.value() == self.value() + other.value(),
    {
        let n = if self.limbs.len() >= other.limbs.len() {
            self.limbs.len()
        } else {
            other.limbs.len()
        };
        let mut limbs: Vec<u64> = Vec::new();
        let mut carry: u64 = 0;
        let mut i: usize = 0;
        while i < n
            invariant
                i <= n,
                limbs.len() == i,
                carry <= 1,
                low_value(limbs@, i as nat) + carry * place(i as nat) == low_value(
                    self.limbs@,
                    i as nat,
                ) + low_value(other.limbs@, i as nat),
            decreases n - i,
        {
            let x = self.digit(i);
            let y = other.digit(i);
            let total: u128 = (x as u128) + (y as u128) + (carry as u128);
            let low: u64 = (total % 0x1_0000_0000_0000_0000) as u64;
            let high: u64 = (total / 0x1_0000_0000_0000_0000) as u64;
            let ghost before = limbs@;
            limbs.push(low);
            proof {
                let p = place(i as nat);
                assert(total == low + high * radix());
                lemma_low_value_agrees(before, limbs@, i as nat);
                assert(limb_at(limbs@, i as int) == low);
                assert(place((i + 1) as nat) == radix() * p);
                assert(low * p + high * (radix() * p) == (low + high * radix()) * p)
                    by (nonlinear_arith);
                assert((x + y + carry) * p == x * p + y * p + carry * p) by (nonlinear_arith);
            }
            carry = high;
            i = i + 1;
        }
        let ghost before = limbs@;
        limbs.push(carry);
        proof {
            lemma_low_value_agrees(before, limbs@, n as nat);
            assert(limb_at(limbs@, n as int) == carry);
            lemma_low_value_padding(self.limbs@, n as nat);
            lemma_low_value_padding(other.limbs@, n as nat);
        }
        Wide { limbs }
    }

    /// Whether this number is at most `other`.
    pub fn at_most(&self, other: &Wide) -> (b: bool)
        ensures
            b == (self.value() <= other.value()),
    {
        let n = if self.limbs.len() >= other.limbs.len() {
            self.limbs.len()
        } else {
            other.limbs.len()
        };
        proof {
            lemma_low_value_padding(self.limbs@, n as nat);
            lemma_low_value_padding(other.limbs@, n as nat);
        }
        let mut i: usize = n;
        while i > 0
            invariant
                i <= n,
                self.value() == low_value(self.limbs@, n as nat),
                other.value() == low_value(other.limbs@, n as nat),
                forall|j: int|
                    i <= j < n ==> limb_at(self.limbs@, j) == limb_at(other.limbs@, j),
            decreases i,
        {
            let x = self.digit(i - 1);
            let y = other.digit(i - 1);
            if x != y {
                proof {
                    let p = place((i - 1) as nat);
                    lemma_low_value_common_top(self.limbs@, other.limbs@, i as nat, n as nat);
                    lemma_low_value_below_place(self.limbs@, (i - 1) as nat);
                    lemma_low_value_below_place(other.limbs@, (i - 1) as nat);
                    if x < y {
                        assert(x * p + p <= y * p) by (nonlinear_arith)
                            requires
                                x + 1 <= y,
                                p >= 0,
                        ;
                    } else {
                        assert(y * p + p <= x * p) by (nonlinear_arith)
                            requires
                                y + 1 <= x,
                                p >= 0,
                        ;
                    }
                }
                return x < y;
            }
            i = i - 1;
        }
        proof {
            lemma_low_value_common_top(self.limbs@, other.limbs@, 0, n as nat);
        }
        true
    }
}

} // verus!
