//! Natural numbers of any size, held as 32-bit limbs, with just the
//! operations that comparing products of powers needs.

use vstd::prelude::*;

verus! {

/// `b` raised to `e`.
pub open spec fn power(b: nat, e: nat) -> nat
    decreases e,
{
    if e == 0 {
        1
    } else {
        b * power(b, (e - 1) as nat)
    }
}

/// The base of the limb representation.
pub open spec fn radix() -> nat {
    0x1_0000_0000
}

/// The number that a little-endian limb sequence stands for.
pub open spec fn limbs_value(s: Seq<u32>) -> nat
    decreases s.len(),
{
    if s.len() == 0 {
        0
    } else {
        limbs_value(s.drop_last()) + s.last() as nat * power(radix(), (s.len() - 1) as nat)
    }
}

/// A power grows with its base.
pub proof fn lemma_power_monotone(a: nat, b: nat, e: nat)
    requires
        a <= b,
    ensures
        power(a, e) <= power(b, e),
    decreases e,
{
    if e > 0 {
        lemma_power_monotone(a, b, (e - 1) as nat);
        let x = power(a, (e - 1) as nat);
        let y = power(b, (e - 1) as nat);
        assert(a * x <= b * y) by (nonlinear_arith)
            requires
                a <= b,
                x <= y,
        ;
    }
}

/// A power of a positive base is positive.
pub proof fn lemma_power_positive(b: nat, e: nat)
    requires
        b > 0,
    ensures
        power(b, e) > 0,
    decreases e,
{
    if e > 0 {
        lemma_power_positive(b, (e - 1) as nat);
        let x = power(b, (e - 1) as nat);
        assert(b * x > 0) by (nonlinear_arith)
            requires
                b > 0,
                x > 0,
        ;
    }
}

/// A positive power grows strictly with its base.
pub proof fn lemma_power_strictly_monotone(a: nat, b: nat, e: nat)
    requires
        a < b,
        e > 0,
    ensures
        power(a, e) < power(b, e),
{
    lemma_power_monotone(a, b, (e - 1) as nat);
    lemma_power_positive(b, (e - 1) as nat);
    let x = power(a, (e - 1) as nat);
    let y = power(b, (e - 1) as nat);
    assert(a * x < b * y) by (nonlinear_arith)
        requires
            a < b,
            x <= y,
            y > 0,
    ;
}

/// `n` limbs hold only numbers below `radix()` to the `n`.
pub proof fn lemma_limbs_value_bound(s: Seq<u32>)
    ensures
        limbs_value(s) < power(radix(), s.len()),
    decreases s.len(),
{
    if s.len() > 0 {
        lemma_limbs_value_bound(s.drop_last());
        let w = power(radix(), (s.len() - 1) as nat);
        let low = limbs_value(s.drop_last());
        let top = s.last() as nat;
        assert(low + top * w < radix() * w) by (nonlinear_arith)
            requires
                low < w,
                top < radix(),
        ;
    }
}

/// A power of a positive base grows with its exponent.
pub proof fn lemma_power_exponent_monotone(b: nat, e1: nat, e2: nat)
    requires
        b >= 1,
        e1 <= e2,
    ensures
        power(b, e1) <= power(b, e2),
    decreases e2,
{
    if e1 < e2 {
        lemma_power_exponent_monotone(b, e1, (e2 - 1) as nat);
        let x = power(b, (e2 - 1) as nat);
        assert(x <= b * x) by (nonlinear_arith)
            requires
                b >= 1,
                x >= 0,
        ;
    }
}

/// The `i` lowest limbs, or all of them where there are fewer.
pub open spec fn low_limbs(s: Seq<u32>, i: int) -> Seq<u32> {
    if 0 <= i < s.len() {
        s.subrange(0, i)
    } else {
        s
    }
}

/// The limb of weight `radix()` to the `i`, which is zero above the last limb.
pub open spec fn limb_at(s: Seq<u32>, i: int) -> nat {
    if 0 <= i < s.len() {
        s[i] as nat
    } else {
        0
    }
}

/// The `i` lowest limbs are the `i - 1` lowest and the limb above them,
/// which outweighs all that is below it.
pub proof fn lemma_low_limbs_step(s: Seq<u32>, i: int)
    requires
        i >= 1,
    ensures
        limbs_value(low_limbs(s, i)) == limbs_value(low_limbs(s, i - 1)) + limb_at(s, i - 1)
            * power(radix(), (i - 1) as nat),
        limbs_value(low_limbs(s, i - 1)) < power(radix(), (i - 1) as nat),
{
    let lower = low_limbs(s, i - 1);
    lemma_limbs_value_bound(lower);
    lemma_power_exponent_monotone(radix(), lower.len(), (i - 1) as nat);
    if i <= s.len() {
        assert(low_limbs(s, i).drop_last() =~= lower);
    } else {
        assert(0 * power(radix(), (i - 1) as nat) == 0) by (nonlinear_arith);
    }
}

/// A natural number as little-endian 32-bit limbs.
pub struct Wide {
    pub limbs: Vec<u32>,
}

impl View for Wide {
    type V = nat;

    open spec fn view(&self) -> nat {
        limbs_value(self.limbs@)
    }
}

impl Wide {
    /// The number one, in a single limb.
    pub fn one() -> (r: Wide)
        ensures
            r@ == 1,
            r.limbs@.len() == 1,
    {
        let mut limbs: Vec<u32> = Vec::new();
        limbs.push(1u32);
        proof {
            let s = limbs@;
            assert(s.drop_last().len() == 0);
            assert(limbs_value(s.drop_last()) == 0);
            assert(power(radix(), 0) == 1);
            assert(limbs_value(s) == limbs_value(s.drop_last()) + s.last() as nat * power(
                radix(),
                0,
            ));
        }
        Wide { limbs }
    }

    /// The product with a single limb; the result has one limb more.
    pub fn times(&self, m: u32) -> (r: Wide)
        ensures
            r@ == self@ * m,
            r.limbs@.len() == self.limbs@.len() + 1,
    {
        let n: usize = self.limbs.len();
        let mut out: Vec<u32> = Vec::new();
        let mut carry: u64 = 0;
        let mut i: usize = 0;
        assert(limbs_value(out@) == 0);
        assert(limbs_value(self.limbs@.subrange(0, 0)) == 0);
        assert(m * 0 == 0) by (nonlinear_arith);
        while i < n
            invariant
                i <= n,
                n == self.limbs@.len(),
                out@.len() == i,
                carry < radix(),
                limbs_value(out@) + carry * power(radix(), i as nat) == m * limbs_value(
                    self.limbs@.subrange(0, i as int),
                ),
            decreases n - i,
        {
            let limb: u32 = self.limbs[i];
            assert(limb as u64 * m as u64 + carry <= 0xffff_ffff_0000_0000u64) by (nonlinear_arith)
                requires
                    limb <= 0xffff_ffffu32,
                    m <= 0xffff_ffffu32,
                    carry <= 0xffff_ffffu64,
            ;
            let prod: u64 = limb as u64 * m as u64 + carry;
            let low: u64 = prod % 0x1_0000_0000u64;
            let high: u64 = prod / 0x1_0000_0000u64;
            proof {
                let before = self.limbs@.subrange(0, i as int);
                let after = self.limbs@.subrange(0, i + 1);
                let grown = out@.push(low as u32);
                let w = power(radix(), i as nat);
                assert(after.drop_last() =~= before);
                assert(grown.drop_last() =~= out@);
                assert(power(radix(), (i + 1) as nat) == radix() * w);
                assert(limbs_value(grown) == limbs_value(out@) + low * w);
                assert(limbs_value(after) == limbs_value(before) + limb * w);
                assert(low + radix() * high == limb * m + carry);
                assert(limbs_value(out@) + low * w + high * (radix() * w) == m * (limbs_value(
                    before,
                ) + limb * w)) by (nonlinear_arith)
                    requires
                        limbs_value(out@) + carry * w == m * limbs_value(before),
                        low + radix() * high == limb * m + carry,
                ;
            }
            out.push(low as u32);
            carry = high;
            i = i + 1;
        }
        proof {
            let grown = out@.push(carry as u32);
            assert(self.limbs@.subrange(0, n as int) =~= self.limbs@);
            assert(grown.drop_last() =~= out@);
            assert(limbs_value(grown) == limbs_value(out@) + carry * power(radix(), n as nat));
            assert(m * limbs_value(self.limbs@) == limbs_value(self.limbs@) * m) by (nonlinear_arith);
        }
        out.push(carry as u32);
        Wide { limbs: out }
    }

    /// Whether this number is at most `other`.
    pub fn at_most(&self, other: &Wide) -> (r: bool)
        ensures
            r == (self@ <= other@),
    {
        let here: usize = self.limbs.len();
        let there: usize = other.limbs.len();
        let mut i: usize = if here > there {
            here
        } else {
            there
        };
        while i > 0
            invariant
                here == self.limbs@.len(),
                there == other.limbs@.len(),
                (self@ <= other@) == (limbs_value(low_limbs(self.limbs@, i as int)) <= limbs_value(
                    low_limbs(other.limbs@, i as int),
                )),
            decreases i,
        {
            let x: u32 = if i <= here {
                self.limbs[i - 1]
            } else {
                0
            };
            let y: u32 = if i <= there {
                other.limbs[i - 1]
            } else {
                0
            };
            proof {
                lemma_low_limbs_step(self.limbs@, i as int);
                lemma_low_limbs_step(other.limbs@, i as int);
                let w = power(radix(), (i - 1) as nat);
                let la = limbs_value(low_limbs(self.limbs@, i - 1));
                let lb = limbs_value(low_limbs(other.limbs@, i - 1));
                if x < y {
                    assert(la + x * w < lb + y * w) by (nonlinear_arith)
                        requires
                            la < w,
                            lb >= 0,
                            x < y,
                    ;
                } else if x > y {
                    assert(la + x * w > lb + y * w) by (nonlinear_arith)
                        requires
                            lb < w,
                            la >= 0,
                            x > y,
                    ;
                }
            }
            if x < y {
                return true;
            }
            if x > y {
                return false;
            }
            i = i - 1;
        }
        true
    }
}

/// The product of two powers, each of a single-limb base.
pub fn power_product(a: u32, ea: u32, b: u32, eb: u32) -> (r: Wide)
    ensures
        r@ == power(a as nat, ea as nat) * power(b as nat, eb as nat),
        r.limbs@.len() == 1 + ea + eb,
{
    let mut acc = Wide::one();
    let mut j: u32 = 0;
    while j < ea
        invariant
            j <= ea,
            acc@ == power(a as nat, j as nat),
            acc.limbs@.len() == 1 + j,
        decreases ea - j,
    {
        acc = acc.times(a);
        assert(power(a as nat, j as nat) * a == a * power(a as nat, j as nat)) by (nonlinear_arith);
        j = j + 1;
    }
    let mut k: u32 = 0;
    assert(power(a as nat, ea as nat) * power(b as nat, 0) == power(a as nat, ea as nat)) by {
        assert(power(b as nat, 0) == 1);
    }
    while k < eb
        invariant
            k <= eb,
            acc@ == power(a as nat, ea as nat) * power(b as nat, k as nat),
            acc.limbs@.len() == 1 + ea + k,
        decreases eb - k,
    {
        let ghost pa = power(a as nat, ea as nat);
        let ghost pb = power(b as nat, k as nat);
        acc = acc.times(b);
        assert(pa * pb * b == pa * (b * pb)) by (nonlinear_arith);
        k = k + 1;
    }
    acc
}

} // verus!
