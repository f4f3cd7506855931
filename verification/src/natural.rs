//! Natural numbers of any size, for comparisons that 128 bits cannot hold.

use vstd::prelude::*;

verus! {

/// The base of the limbs: two to the power 64.
pub open spec fn radix() -> nat {
    0x1_0000_0000_0000_0000
}

/// `radix()` to the power `k`.
pub open spec fn radix_pow(k: nat) -> nat
    decreases k,
{
    if k == 0 {
        1
    } else {
        radix() * radix_pow((k - 1) as nat)
    }
}

/// The number that a sequence of limbs stands for, least significant limb first.
pub open spec fn limbs_value(limbs: Seq<u64>) -> nat
    decreases limbs.len(),
{
    if limbs.len() == 0 {
        0
    } else {
        limbs_value(limbs.drop_last()) + limbs.last() as nat * radix_pow((limbs.len() - 1) as nat)
    }
}

/// The value of the first `n` limbs; limbs beyond the end count as zero.
pub open spec fn prefix_value(limbs: Seq<u64>, n: int) -> nat {
    if n <= 0 {
        0
    } else if n >= limbs.len() {
        limbs_value(limbs)
    } else {
        limbs_value(limbs.take(n))
    }
}

/// The limb at position `i`, zero beyond the end.
pub open spec fn limb_or_zero(limbs: Seq<u64>, i: int) -> nat {
    if 0 <= i < limbs.len() {
        limbs[i] as nat
    } else {
        0
    }
}

/// A power of the radix is positive.
proof fn lemma_radix_pow_positive(k: nat)
    ensures
        radix_pow(k) > 0,
    decreases k,
{
    if k > 0 {
        lemma_radix_pow_positive((k - 1) as nat);
        assert(radix() * radix_pow((k - 1) as nat) > 0) by (nonlinear_arith)
            requires
                radix() > 0,
                radix_pow((k - 1) as nat) > 0,
        ;
    }
}

/// A limb added at the top counts with the power of its position.
proof fn lemma_value_push(limbs: Seq<u64>, x: u64)
    ensures
        limbs_value(limbs.push(x)) == limbs_value(limbs) + x as nat * radix_pow(limbs.len()),
{
    assert(limbs.push(x).drop_last() =~= limbs);
}

/// One more limb adds that limb times the power of its position.
proof fn lemma_prefix_step(limbs: Seq<u64>, n: int)
    requires
        0 <= n,
    ensures
        prefix_value(limbs, n + 1) == prefix_value(limbs, n) + limb_or_zero(limbs, n) * radix_pow(
            n as nat,
        ),
{
    let p = radix_pow(n as nat);
    if n < limbs.len() {
        let longer = limbs.take(n + 1);
        assert(longer.drop_last() =~= limbs.take(n));
        assert(longer.last() == limbs[n]);
        assert(limbs_value(longer) == limbs_value(limbs.take(n)) + limbs[n] as nat * p);
        if n + 1 == limbs.len() {
            assert(longer =~= limbs);
        }
        if n == 0 {
            assert(limbs.take(0) =~= Seq::<u64>::empty());
            assert(limbs_value(limbs.take(0)) == 0);
        }
    } else {
        assert(0 * p == 0) by (nonlinear_arith);
        if limbs.len() == 0 {
            assert(limbs_value(limbs) == 0);
        }
    }
}

/// A number of `n` limbs is smaller than the radix to the power `n`.
proof fn lemma_value_bound(limbs: Seq<u64>)
    ensures
        limbs_value(limbs) < radix_pow(limbs.len()),
    decreases limbs.len(),
{
    if limbs.len() > 0 {
        let k = (limbs.len() - 1) as nat;
        lemma_value_bound(limbs.drop_last());
        lemma_radix_pow_positive(k);
        assert(limbs_value(limbs.drop_last()) + limbs.last() as nat * radix_pow(k) < radix()
            * radix_pow(k)) by (nonlinear_arith)
            requires
                limbs_value(limbs.drop_last()) < radix_pow(k),
                (limbs.last() as nat) < radix(),
        ;
    }
}

/// The value is the lowest limb plus the radix times the value of the rest.
proof fn lemma_value_first(limbs: Seq<u64>)
    requires
        limbs.len() > 0,
    ensures
        limbs_value(limbs) == limbs[0] as nat + radix() * limbs_value(limbs.drop_first()),
    decreases limbs.len(),
{
    let front = limbs.drop_last();
    let x = limbs.last();
    let top = radix_pow((limbs.len() - 1) as nat);
    assert(limbs_value(limbs) == limbs_value(front) + x as nat * top);
    if front.len() == 0 {
        assert(limbs.drop_first() =~= Seq::<u64>::empty());
        assert(limbs_value(limbs.drop_first()) == 0);
        assert(limbs_value(front) == 0);
        assert(top == 1);
        assert(x as nat * top == x as nat) by (nonlinear_arith)
            requires
                top == 1,
        ;
        assert(radix() * 0 == 0);
    } else {
        lemma_value_first(front);
        let k = (limbs.len() - 2) as nat;
        let inner = limbs_value(front.drop_first());
        assert(limbs.drop_first() =~= front.drop_first().push(x));
        lemma_value_push(front.drop_first(), x);
        assert(limbs_value(limbs.drop_first()) == inner + x as nat * radix_pow(k));
        assert(top == radix() * radix_pow(k));
        assert(front[0] == limbs[0]);
        assert(radix() * (inner + x as nat * radix_pow(k)) == radix() * inner + x as nat * top)
            by (nonlinear_arith)
            requires
                top == radix() * radix_pow(k),
        ;
    }
}

/// A natural number without an upper limit.
pub struct Natural {
    limbs: Vec<u64>,
}

impl View for Natural {
    type V = nat;

    closed spec fn view(&self) -> nat {
        limbs_value(self.limbs@)
    }
}

impl Natural {
    /// The natural number with the value of `x`.
    pub fn from_u128(x: u128) -> (n: Natural)
        ensures
            n@ == x,
    {
        let low: u64 = (x % 0x1_0000_0000_0000_0000) as u64;
        let high: u64 = (x / 0x1_0000_0000_0000_0000) as u64;
        let mut limbs: Vec<u64> = Vec::new();
        limbs.push(low);
        limbs.push(high);
        proof {
            let one = Seq::<u64>::empty().push(low);
            assert(limbs@ =~= one.push(high));
            lemma_value_push(Seq::<u64>::empty(), low);
            lemma_value_push(one, high);
            assert(limbs_value(Seq::<u64>::empty()) == 0);
            assert(radix_pow(0) == 1);
            assert(radix_pow(1) == radix()) by {
                assert(radix_pow(1) == radix() * radix_pow(0));
            }
            assert(x == low as nat + high as nat * radix());
            assert(low as nat * radix_pow(0) == low as nat) by (nonlinear_arith)
                requires
                    radix_pow(0) == 1,
            ;
        }
        Natural { limbs }
    }

    /// The product of the number and one limb.
    fn mul_limb(&self, m: u64) -> (n: Natural)
        ensures
            n@ == self@ * m,
    {
        let mut out: Vec<u64> = Vec::new();
        let mut carry: u64 = 0;
        let mut i: usize = 0;
        proof {
            assert(limbs_value(out@) == 0);
            assert(0 * radix_pow(0) == 0 && 0 * (m as nat) == 0) by (nonlinear_arith);
        }
        while i < self.limbs.len()
            invariant
                i <= self.limbs.len(),
                out@.len() == i,
                limbs_value(out@) + carry as nat * radix_pow(i as nat) == prefix_value(
                    self.limbs@,
                    i as int,
                ) * m,
            decreases self.limbs.len() - i,
        {
            let limb = self.limbs[i];
            assert(limb as u128 * m as u128 + carry as u128 <= 0xFFFF_FFFF_FFFF_FFFF
                * 0xFFFF_FFFF_FFFF_FFFF + 0xFFFF_FFFF_FFFF_FFFF) by (nonlinear_arith)
                requires
                    limb <= 0xFFFF_FFFF_FFFF_FFFF,
                    m <= 0xFFFF_FFFF_FFFF_FFFF,
                    carry <= 0xFFFF_FFFF_FFFF_FFFF,
            ;
            let t: u128 = limb as u128 * m as u128 + carry as u128;
            let low: u64 = (t % 0x1_0000_0000_0000_0000) as u64;
            let high: u64 = (t / 0x1_0000_0000_0000_0000) as u64;
            proof {
                let p = radix_pow(i as nat);
                let v = limbs_value(out@);
                let before = prefix_value(self.limbs@, i as int);
                lemma_value_push(out@, low);
                lemma_prefix_step(self.limbs@, i as int);
                assert(radix_pow((i + 1) as nat) == radix() * p);
                assert(t == low as nat + high as nat * radix());
                assert(t == limb as nat * m as nat + carry as nat);
                assert(v + low as nat * p + high as nat * (radix() * p) == (before + limb as nat
                    * p) * m) by (nonlinear_arith)
                    requires
                        v + carry as nat * p == before * m,
                        low as nat + high as nat * radix() == limb as nat * m as nat
                            + carry as nat,
                ;
            }
            out.push(low);
            carry = high;
            i += 1;
        }
        proof {
            lemma_value_push(out@, carry);
        }
        out.push(carry);
        Natural { limbs: out }
    }

    /// The number times `radix()`.
    fn shifted(&self) -> (n: Natural)
        ensures
            n@ == self@ * radix(),
    {
        let mut out: Vec<u64> = Vec::new();
        out.push(0);
        let mut i: usize = 0;
        while i < self.limbs.len()
            invariant
                i <= self.limbs.len(),
                out@ =~= seq![0u64] + self.limbs@.take(i as int),
            decreases self.limbs.len() - i,
        {
            out.push(self.limbs[i]);
            i += 1;
        }
        proof {
            assert(self.limbs@.take(i as int) =~= self.limbs@);
            lemma_value_first(out@);
            assert(out@.drop_first() =~= self.limbs@);
            assert(self@ * radix() == radix() * self@) by (nonlinear_arith);
        }
        Natural { limbs: out }
    }

    /// The sum of two numbers.
    pub fn add(&self, other: &Natural) -> (n: Natural)
        ensures
            n@ == self@ + other@,
    {
        let len = if self.limbs.len() >= other.limbs.len() {
            self.limbs.len()
        } else {
            other.limbs.len()
        };
        let mut out: Vec<u64> = Vec::new();
        let mut carry: u64 = 0;
        let mut i: usize = 0;
        while i < len
            invariant
                i <= len,
                len >= self.limbs.len(),
                len >= other.limbs.len(),
                out@.len() == i,
                carry <= 1,
                limbs_value(out@) + carry as nat * radix_pow(i as nat) == prefix_value(
                    self.limbs@,
                    i as int,
                ) + prefix_value(other.limbs@, i as int),
            decreases len - i,
        {
            let a: u64 = if i < self.limbs.len() {
                self.limbs[i]
            } else {
                0
            };
            let b: u64 = if i < other.limbs.len() {
                other.limbs[i]
            } else {
                0
            };
            let t: u128 = a as u128 + b as u128 + carry as u128;
            let low: u64 = (t % 0x1_0000_0000_0000_0000) as u64;
            let high: u64 = (t / 0x1_0000_0000_0000_0000) as u64;
            proof {
                let p = radix_pow(i as nat);
                lemma_value_push(out@, low);
                lemma_prefix_step(self.limbs@, i as int);
                lemma_prefix_step(other.limbs@, i as int);
                assert(radix_pow((i + 1) as nat) == radix() * p);
                assert(low as nat * p + high as nat * (radix() * p) == (a as nat + b as nat
                    + carry as nat) * p) by (nonlinear_arith)
                    requires
                        low as nat + high as nat * radix() == a as nat + b as nat + carry as nat,
                ;
                assert((a as nat + b as nat + carry as nat) * p == a as nat * p + b as nat * p
                    + carry as nat * p) by (nonlinear_arith);
            }
            out.push(low);
            carry = high;
            i += 1;
        }
        proof {
            lemma_value_push(out@, carry);
        }
        out.push(carry);
        Natural { limbs: out }
    }

    /// The product of two numbers.
    pub fn mul(&self, other: &Natural) -> (n: Natural)
        ensures
            n@ == self@ * other@,
    {
        let mut acc = Natural { limbs: Vec::new() };
        let mut i: usize = other.limbs.len();
        proof {
            assert(other.limbs@.skip(i as int) =~= Seq::<u64>::empty());
            assert(limbs_value(other.limbs@.skip(i as int)) == 0);
            assert(limbs_value(acc.limbs@) == 0);
            assert(self@ * 0 == 0) by (nonlinear_arith);
        }
        while i > 0
            invariant
                i <= other.limbs.len(),
                acc@ == self@ * limbs_value(other.limbs@.skip(i as int)),
            decreases i,
        {
            i -= 1;
            let part = self.mul_limb(other.limbs[i]);
            let moved = acc.shifted();
            proof {
                let rest = other.limbs@.skip(i as int);
                let upper = limbs_value(other.limbs@.skip(i + 1));
                lemma_value_first(rest);
                assert(rest.drop_first() =~= other.limbs@.skip(i + 1));
                assert(rest[0] == other.limbs@[i as int]);
                assert(self@ * upper * radix() + self@ * rest[0] == self@ * (rest[0] as nat
                    + radix() * upper)) by (nonlinear_arith);
            }
            acc = moved.add(&part);
        }
        proof {
            assert(other.limbs@.skip(0) =~= other.limbs@);
        }
        acc
    }

    /// Whether the number is smaller than `other`.
    pub fn lt(&self, other: &Natural) -> (less: bool)
        ensures
            less == (self@ < other@),
    {
        let len = if self.limbs.len() >= other.limbs.len() {
            self.limbs.len()
        } else {
            other.limbs.len()
        };
        let mut i: usize = len;
        while i > 0
            invariant
                i <= len,
                len >= self.limbs.len(),
                len >= other.limbs.len(),
                self@ - prefix_value(self.limbs@, i as int) == other@ - prefix_value(
                    other.limbs@,
                    i as int,
                ),
            decreases i,
        {
            i -= 1;
            let a: u64 = if i < self.limbs.len() {
                self.limbs[i]
            } else {
                0
            };
            let b: u64 = if i < other.limbs.len() {
                other.limbs[i]
            } else {
                0
            };
            proof {
                lemma_prefix_step(self.limbs@, i as int);
                lemma_prefix_step(other.limbs@, i as int);
                lemma_prefix_bound(self.limbs@, i as int);
                lemma_prefix_bound(other.limbs@, i as int);
            }
            if a != b {
                proof {
                    let p = radix_pow(i as nat);
                    if a < b {
                        assert(a as nat * p + p <= b as nat * p) by (nonlinear_arith)
                            requires
                                a < b,
                        ;
                    } else {
                        assert(b as nat * p + p <= a as nat * p) by (nonlinear_arith)
                            requires
                                b < a,
                        ;
                    }
                }
                return a < b;
            }
        }
        false
    }
}

/// The first `n` limbs are worth less than the radix to the power `n`.
proof fn lemma_prefix_bound(limbs: Seq<u64>, n: int)
    requires
        0 <= n,
    ensures
        prefix_value(limbs, n) < radix_pow(n as nat),
    decreases n,
{
    if n == 0 {
    } else if n >= limbs.len() {
        lemma_prefix_bound(limbs, n - 1);
        lemma_prefix_step(limbs, n - 1);
        if n - 1 < limbs.len() {
            lemma_value_bound(limbs);
        } else {
            lemma_radix_pow_positive((n - 1) as nat);
            assert(radix_pow((n - 1) as nat) <= radix() * radix_pow((n - 1) as nat))
                by (nonlinear_arith)
                requires
                    radix() >= 1,
            ;
        }
    } else {
        lemma_value_bound(limbs.take(n));
    }
}

} // verus!
