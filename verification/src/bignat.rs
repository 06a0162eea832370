//! Natural numbers of unbounded size, as far as prediction needs them:
//! multiplication by a sum of two machine words, and comparison.

use vstd::prelude::*;

verus! {

/// The base in which a number is written: each limb holds one digit below it.
pub open spec fn radix() -> nat {
    0x1_0000_0000
}

/// `radix()` to the power `k`: what a one in limb `k` is worth.
pub open spec fn place(k: nat) -> nat
    decreases k,
{
    if k == 0 {
        1
    } else {
        radix() * place((k - 1) as nat)
    }
}

/// The number that `limbs` writes, least significant limb first.
pub open spec fn limbs_value(limbs: Seq<u32>) -> nat
    decreases limbs.len(),
{
    if limbs.len() == 0 {
        0
    } else {
        limbs_value(limbs.drop_last()) + limbs.last() as nat * place((limbs.len() - 1) as nat)
    }
}

/// A higher place is worth at least as much as a lower one.
pub proof fn lemma_place_monotonic(j: nat, k: nat)
    requires
        j <= k,
    ensures
        place(j) <= place(k),
    decreases k,
{
    if j < k {
        lemma_place_monotonic(j, (k - 1) as nat);
    }
}

/// A number of `n` limbs is below `radix()` to the `n`.
pub proof fn lemma_value_below_place(limbs: Seq<u32>)
    ensures
        limbs_value(limbs) < place(limbs.len()),
    decreases limbs.len(),
{
    if limbs.len() > 0 {
        let k = (limbs.len() - 1) as nat;
        lemma_value_below_place(limbs.drop_last());
        let top = limbs.last() as nat;
        assert(limbs_value(limbs.drop_last()) + top * place(k) < radix() * place(k))
            by (nonlinear_arith)
            requires
                limbs_value(limbs.drop_last()) < place(k),
                top < radix(),
        ;
    }
}

/// A number whose top limb is not zero is at least the worth of that limb's place.
pub proof fn lemma_value_reaches_place(limbs: Seq<u32>)
    requires
        limbs.len() > 0,
        limbs.last() != 0,
    ensures
        limbs_value(limbs) >= place((limbs.len() - 1) as nat),
{
    let k = (limbs.len() - 1) as nat;
    let top = limbs.last() as nat;
    assert(top * place(k) >= place(k)) by (nonlinear_arith)
        requires
            top >= 1,
    ;
}

/// A natural number, held as limbs in base `radix()` without a leading zero.
pub struct BigNat {
    limbs: Vec<u32>,
}

impl BigNat {
    /// The number that is held.
    pub closed spec fn value(&self) -> nat {
        limbs_value(self.limbs@)
    }

    /// The top limb, if there is one, is not zero.
    pub closed spec fn wf(&self) -> bool {
        self.limbs@.len() > 0 ==> self.limbs@.last() != 0
    }

    /// The number that `n` holds.
    pub fn from_u64(n: u64) -> (r: BigNat)
        ensures
            r.wf(),
            r.value() == n,
    {
        let mut limbs: Vec<u32> = Vec::new();
        let mut rest: u64 = n;
        proof {
            assert(place(0) == 1);
            assert(limbs_value(limbs@) == 0);
        }
        while rest > 0
            invariant
                limbs_value(limbs@) + rest * place(limbs@.len()) == n,
                limbs@.len() > 0 && rest == 0 ==> limbs@.last() != 0,
            decreases rest,
        {
            let digit: u32 = (rest % 0x1_0000_0000) as u32;
            let ghost before = limbs@;
            let ghost k = limbs@.len();
            limbs.push(digit);
            proof {
                assert(limbs@.drop_last() == before);
                assert(digit * place(k) + (rest / 0x1_0000_0000) * (radix() * place(k)) == rest
                    * place(k)) by (nonlinear_arith)
                    requires
                        digit == rest % 0x1_0000_0000,
                        radix() == 0x1_0000_0000,
                ;
            }
            rest = rest / 0x1_0000_0000;
        }
        BigNat { limbs }
    }

    /// The product of this number and `a + b`. The sum is taken without
    /// overflow, so neither factor needs a bound.
    pub fn times_sum(&self, a: u64, b: u64) -> (r: BigNat)
        requires
            self.wf(),
        ensures
            r.wf(),
            r.value() == self.value() * (a + b),
    {
        let m: u128 = a as u128 + b as u128;
        let n = self.limbs.len();
        let mut out: Vec<u32> = Vec::new();
        if m == 0 || n == 0 {
            proof {
                assert(self.value() * (a + b) == 0) by (nonlinear_arith)
                    requires
                        a + b == 0 || self.value() == 0,
                ;
            }
            return BigNat { limbs: out };
        }
        let mut carry: u128 = 0;
        let mut i: usize = 0;
        proof {
            assert(self.limbs@.take(0) =~= Seq::<u32>::empty());
            assert(limbs_value(out@) == 0);
        }
        while i < n
            invariant
                n == self.limbs@.len(),
                n > 0,
                self.limbs@.last() != 0,
                0 < m == a + b,
                i <= n,
                out@.len() == i,
                carry < m,
                limbs_value(out@) + carry * place(i as nat) == limbs_value(self.limbs@.take(i as int))
                    * m,
                i == n && carry == 0 ==> out@.last() != 0,
            decreases n - i,
        {
            let limb = self.limbs[i];
            assert(limb as u128 * m + carry < 0x1_0000_0000 * m) by (nonlinear_arith)
                requires
                    limb < 0x1_0000_0000,
                    carry < m,
            ;
            let t: u128 = limb as u128 * m + carry;
            let digit: u32 = (t % 0x1_0000_0000) as u32;
            let ghost before = out@;
            out.push(digit);
            proof {
                let k = i as nat;
                let prefix = self.limbs@.take(i as int);
                let longer = self.limbs@.take(i + 1);
                assert(longer.drop_last() =~= prefix);
                assert(out@.drop_last() =~= before);
                let v = limbs_value(before);
                let w = limbs_value(prefix);
                let p = place(k);
                let q = t / 0x1_0000_0000;
                assert(v + digit * p + q * (radix() * p) == (w + limb * p) * m)
                    by (nonlinear_arith)
                    requires
                        v + carry * p == w * m,
                        t == limb * m + carry,
                        digit == t % 0x1_0000_0000,
                        q == t / 0x1_0000_0000,
                        radix() == 0x1_0000_0000,
                ;
                if i + 1 == n && q == 0 {
                    assert(t >= 1) by (nonlinear_arith)
                        requires
                            t == limb * m + carry,
                            limb >= 1,
                            m >= 1,
                            carry >= 0,
                    ;
                }
            }
            carry = t / 0x1_0000_0000;
            i = i + 1;
        }
        proof {
            assert(self.limbs@.take(n as int) =~= self.limbs@);
        }
        while carry > 0
            invariant
                limbs_value(out@) + carry * place(out@.len()) == self.value() * m,
                out@.len() > 0,
                carry == 0 ==> out@.last() != 0,
            decreases carry,
        {
            let digit: u32 = (carry % 0x1_0000_0000) as u32;
            let ghost before = out@;
            let ghost k = out@.len();
            out.push(digit);
            proof {
                assert(out@.drop_last() =~= before);
                assert(digit * place(k) + (carry / 0x1_0000_0000) * (radix() * place(k)) == carry
                    * place(k)) by (nonlinear_arith)
                    requires
                        digit == carry % 0x1_0000_0000,
                        radix() == 0x1_0000_0000,
                ;
            }
            carry = carry / 0x1_0000_0000;
        }
        BigNat { limbs: out }
    }

    /// Whether this number is greater than `other`.
    pub fn exceeds(&self, other: &BigNat) -> (r: bool)
        requires
            self.wf(),
            other.wf(),
        ensures
            r == (self.value() > other.value()),
    {
        let n = self.limbs.len();
        let m = other.limbs.len();
        if n != m {
            proof {
                lemma_value_below_place(self.limbs@);
                lemma_value_below_place(other.limbs@);
                if n > m {
                    lemma_value_reaches_place(self.limbs@);
                    lemma_place_monotonic(m as nat, (n - 1) as nat);
                } else {
                    lemma_value_reaches_place(other.limbs@);
                    lemma_place_monotonic(n as nat, (m - 1) as nat);
                }
            }
            return n > m;
        }
        let mut i: usize = n;
        proof {
            assert(self.limbs@.take(n as int) =~= self.limbs@);
            assert(other.limbs@.take(n as int) =~= other.limbs@);
        }
        while i > 0
            invariant
                i <= n,
                n == self.limbs@.len(),
                n == other.limbs@.len(),
                (self.value() > other.value()) == (limbs_value(self.limbs@.take(i as int))
                    > limbs_value(other.limbs@.take(i as int))),
            decreases i,
        {
            let x = self.limbs[i - 1];
            let y = other.limbs[i - 1];
            proof {
                let xs = self.limbs@.take(i as int);
                let ys = other.limbs@.take(i as int);
                assert(xs.drop_last() =~= self.limbs@.take(i - 1));
                assert(ys.drop_last() =~= other.limbs@.take(i - 1));
                lemma_value_below_place(xs.drop_last());
                lemma_value_below_place(ys.drop_last());
                let p = place((i - 1) as nat);
                if x > y {
                    assert(x * p >= y * p + p) by (nonlinear_arith)
                        requires
                            x >= y + 1,
                    ;
                }
                if x < y {
                    assert(y * p >= x * p + p) by (nonlinear_arith)
                        requires
                            y >= x + 1,
                    ;
                }
            }
            if x != y {
                return x > y;
            }
            i = i - 1;
        }
        false
    }
}

} // verus!
