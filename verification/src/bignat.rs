//! Natural numbers of arbitrary size, as far as exact integer logarithms of
//! large powers need them.

use vstd::prelude::*;
use vstd::arithmetic::power::{pow, lemma_pow0, lemma_pow_positive};
use vstd::arithmetic::logarithm::{log, lemma_log0, lemma_log_s};
use vstd::arithmetic::div_mod::lemma_fundamental_div_mod_converse;

verus! {

/// The radix of the representation: each limb holds 32 bits.
pub const BASE: u64 = 0x1_0000_0000;

/// The number that the limbs `s` stand for, least significant limb first.
pub open spec fn value(s: Seq<u32>) -> nat
    decreases s.len(),
{
    if s.len() == 0 {
        0
    } else {
        s[0] as nat + BASE as nat * value(s.drop_first())
    }
}

/// `b` to the power of `e`, as a natural number.
pub open spec fn npow(b: nat, e: nat) -> nat {
    pow(b as int, e) as nat
}

/// Unfolding of a power at a positive exponent.
pub proof fn lemma_npow_step(b: nat, e: nat)
    ensures
        npow(b, 0) == 1,
        npow(b, e + 1) == b * npow(b, e),
        pow(b as int, e) >= 0,
{
    reveal(pow);
    lemma_pow0(b as int);
    if b > 0 {
        lemma_pow_positive(b as int, e);
        lemma_pow_positive(b as int, e + 1);
    } else {
        vstd::arithmetic::power::lemma0_pow(e + 1);
        if e > 0 {
            vstd::arithmetic::power::lemma0_pow(e);
        }
    }
    assert(pow(b as int, e + 1) == b * pow(b as int, e));
    assert(b * pow(b as int, e) >= 0) by (nonlinear_arith)
        requires
            b >= 0,
            pow(b as int, e) >= 0,
    ;
}

/// Appending a limb adds it at the weight of its position.
pub proof fn lemma_value_push(s: Seq<u32>, x: u32)
    ensures
        value(s.push(x)) == value(s) + x * npow(BASE as nat, s.len()),
    decreases s.len(),
{
    let b = BASE as nat;
    if s.len() == 0 {
        assert(s.push(x).drop_first() =~= Seq::<u32>::empty());
        lemma_npow_step(b, 0);
        assert(value(s.push(x)) == x as nat + b * value(Seq::<u32>::empty()));
    } else {
        let t = s.drop_first();
        assert(s.push(x).drop_first() =~= t.push(x));
        lemma_value_push(t, x);
        lemma_npow_step(b, t.len());
        let w = npow(b, t.len());
        assert(npow(b, s.len()) == b * w);
        assert(value(s.push(x)) == s[0] as nat + b * value(t.push(x)));
        assert(b * (value(t) + x * w) == b * value(t) + x * (b * w)) by (nonlinear_arith);
    }
}

/// The limbs of a number are all zero exactly where the number is zero.
pub proof fn lemma_value_zero(s: Seq<u32>)
    ensures
        value(s) == 0 <==> (forall|j: int| 0 <= j < s.len() ==> s[j] == 0),
    decreases s.len(),
{
    if s.len() > 0 {
        let t = s.drop_first();
        lemma_value_zero(t);
        assert(BASE as nat * value(t) == 0 <==> value(t) == 0) by (nonlinear_arith);
        if value(s) == 0 {
            assert forall|j: int| 0 <= j < s.len() implies s[j] == 0 by {
                if j > 0 {
                    assert(t[j - 1] == s[j]);
                }
            }
        }
        if forall|j: int| 0 <= j < s.len() ==> s[j] == 0 {
            assert forall|j: int| 0 <= j < t.len() implies t[j] == 0 by {
                assert(t[j] == s[j + 1]);
            }
        }
    }
}

/// The product of the number `a` and the factor `k`.
pub fn mul_small(a: &Vec<u32>, k: u32) -> (r: Vec<u32>)
    ensures
        value(r@) == value(a@) * k,
        r@.len() == a@.len() + 1,
{
    let mut out: Vec<u32> = Vec::new();
    let mut carry: u64 = 0;
    let mut j: usize = 0;
    let ghost b = BASE as nat;
    proof {
        lemma_npow_step(b, 0);
        assert(a@.take(0) =~= Seq::<u32>::empty());
        assert(out@ =~= Seq::<u32>::empty());
        assert(value(Seq::<u32>::empty()) == 0);
        assert(0 * k == 0) by (nonlinear_arith);
        assert(0 * npow(b, 0) == 0) by (nonlinear_arith);
    }
    while j < a.len()
        invariant
            j <= a@.len(),
            out@.len() == j,
            carry < BASE,
            b == BASE as nat,
            value(out@) + carry * npow(b, j as nat) == value(a@.take(j as int)) * k,
        decreases a@.len() - j,
    {
        let limb: u64 = a[j] as u64;
        assert(limb * (k as u64) + carry <= 0xffff_ffff * 0xffff_ffff + 0xffff_ffff) by (nonlinear_arith)
            requires
                limb <= 0xffff_ffff,
                k <= 0xffff_ffff,
                carry <= 0xffff_ffff,
        ;
        let cur: u64 = limb * (k as u64) + carry;
        let low: u32 = (cur % BASE) as u32;
        let high: u64 = cur / BASE;
        proof {
            let w = npow(b, j as nat);
            lemma_value_push(out@, low);
            lemma_value_push(a@.take(j as int), a@[j as int]);
            assert(a@.take(j as int).push(a@[j as int]) =~= a@.take(j + 1));
            lemma_npow_step(b, j as nat);
            assert(cur == low + high * b);
            assert(value(out@) + low * w + high * (b * w) == (value(out@) + carry * w) + limb * k * w)
                by (nonlinear_arith)
                requires
                    low + high * b == limb * k + carry,
            ;
            assert((value(a@.take(j as int)) + limb * w) * k == value(a@.take(j as int)) * k + limb
                * k * w) by (nonlinear_arith);
        }
        out.push(low);
        carry = high;
        j = j + 1;
    }
    proof {
        lemma_value_push(out@, carry as u32);
        assert(a@.take(j as int) =~= a@);
    }
    out.push(carry as u32);
    out
}

/// Divides the number `a` by `m` in place and returns the remainder.
pub fn div_small(a: &mut Vec<u32>, m: u32) -> (rem: u32)
    requires
        m > 0,
    ensures
        final(a)@.len() == old(a)@.len(),
        value(final(a)@) == value(old(a)@) / (m as nat),
        rem == value(old(a)@) % (m as nat),
{
    let ghost orig = a@;
    let ghost b = BASE as nat;
    let n: usize = a.len();
    let mut j: usize = n;
    let mut rem: u64 = 0;
    proof {
        assert(a@.skip(n as int) =~= Seq::<u32>::empty());
        assert(value(Seq::<u32>::empty()) == 0);
        assert(0 * m == 0) by (nonlinear_arith);
    }
    while j > 0
        invariant
            j <= n,
            n == orig.len(),
            a@.len() == n,
            m > 0,
            rem < m,
            b == BASE as nat,
            a@.take(j as int) =~= orig.take(j as int),
            value(orig.skip(j as int)) == value(a@.skip(j as int)) * m + rem,
        decreases j,
    {
        j = j - 1;
        let cur: u64 = rem * BASE + a[j] as u64;
        let q: u64 = cur / (m as u64);
        let r: u64 = cur % (m as u64);
        let ghost before = a@;
        proof {
            assert(a@[j as int] == orig.take(j + 1)[j as int]);
            assert(q < BASE) by (nonlinear_arith)
                requires
                    cur < m * BASE,
                    q == cur / (m as u64),
                    m > 0,
            ;
        }
        a[j] = q as u32;
        rem = r;
        proof {
            let hi_old = orig.skip(j + 1);
            let hi_new = before.skip(j + 1);
            assert(orig.skip(j as int).drop_first() =~= hi_old);
            assert(a@.skip(j as int).drop_first() =~= hi_new);
            assert(a@.skip(j + 1) =~= hi_new);
            assert(value(orig.skip(j as int)) == orig[j as int] + b * value(hi_old));
            assert(value(a@.skip(j as int)) == q + b * value(hi_new));
            assert(cur == q * m + r) by (nonlinear_arith)
                requires
                    q == cur / (m as u64),
                    r == cur % (m as u64),
                    m > 0,
            ;
            let old_rem = (cur - orig[j as int]) / (b as int);
            assert((q + b * value(hi_new)) * m + r == orig[j as int] + b * (value(hi_new) * m
                + old_rem)) by (nonlinear_arith)
                requires
                    q * m + r == old_rem * b + orig[j as int],
            ;
            assert(a@.take(j as int) =~= orig.take(j as int));
        }
    }
    proof {
        assert(a@.skip(0) =~= a@);
        assert(orig.skip(0) =~= orig);
        lemma_fundamental_div_mod_converse(
            value(orig) as int,
            m as int,
            value(a@) as int,
            rem as int,
        );
    }
    rem as u32
}

/// Whether the number `a` is zero.
pub fn is_zero(a: &Vec<u32>) -> (r: bool)
    ensures
        r == (value(a@) == 0),
{
    let mut j: usize = 0;
    while j < a.len()
        invariant
            j <= a@.len(),
            forall|i: int| 0 <= i < j ==> a@[i] == 0,
        decreases a@.len() - j,
    {
        if a[j] != 0 {
            proof {
                lemma_value_zero(a@);
            }
            return false;
        }
        j = j + 1;
    }
    proof {
        lemma_value_zero(a@);
    }
    true
}

/// The power `b^e`.
pub fn power(b: u32, e: u32) -> (r: Vec<u32>)
    ensures
        value(r@) == npow(b as nat, e as nat),
{
    let mut p: Vec<u32> = Vec::new();
    p.push(1);
    let mut j: u32 = 0;
    proof {
        lemma_npow_step(b as nat, 0);
        assert(p@.drop_first() =~= Seq::<u32>::empty());
        assert(value(p@.drop_first()) == 0);
        assert(value(p@) == p@[0] as nat + BASE as nat * value(p@.drop_first()));
        assert(value(p@) == 1);
    }
    while j < e
        invariant
            j <= e,
            value(p@) == npow(b as nat, j as nat),
        decreases e - j,
    {
        proof {
            lemma_npow_step(b as nat, j as nat);
            assert(npow(b as nat, j as nat) * b == b * npow(b as nat, j as nat)) by (nonlinear_arith);
        }
        p = mul_small(&p, b);
        j = j + 1;
    }
    p
}

/// Whether `x` is a power of `base` with a natural exponent.
pub open spec fn is_power_of(base: nat, x: nat) -> bool {
    npow(base, log(base as int, x as int) as nat) == x
}

/// The integer logarithm of `x` to the base `m`, rounded down, together with
/// whether `x` is a power of `m`.
pub fn log_floor(x: Vec<u32>, m: u32) -> (r: (u32, bool))
    requires
        m >= 2,
        value(x@) >= 1,
        log(m as int, value(x@) as int) <= u32::MAX,
    ensures
        r.0 == log(m as int, value(x@) as int),
        r.1 == is_power_of(m as nat, value(x@)),
{
    let ghost x0 = value(x@);
    let ghost mn = m as nat;
    let mut p = x;
    let mut count: u32 = 0;
    let mut exact: bool = true;
    let ghost mut lost: nat = 0;
    proof {
        lemma_npow_step(mn, 0);
        vstd::arithmetic::logarithm::lemma_log_nonnegative(m as int, x0 as int);
        assert(x0 * 1 == x0) by (nonlinear_arith);
    }
    loop
        invariant_except_break
            value(p@) >= 1,
            count + log(m as int, value(p@) as int) == log(m as int, x0 as int),
            log(m as int, value(p@) as int) >= 0,
            x0 == value(p@) * npow(mn, count as nat) + lost,
            lost < npow(mn, count as nat),
            exact == (lost == 0),
        invariant
            m >= 2,
            mn == m as nat,
            log(m as int, x0 as int) <= u32::MAX,
        ensures
            count == log(m as int, x0 as int),
            exact == (npow(mn, count as nat) == x0),
        decreases value(p@),
    {
        let ghost before = value(p@);
        let rem = div_small(&mut p, m);
        proof {
            vstd::arithmetic::div_mod::lemma_fundamental_div_mod(before as int, m as int);
            assert(before == value(p@) * mn + rem) by (nonlinear_arith)
                requires
                    before == mn * (before / mn) + before % mn,
                    value(p@) == before / mn,
                    rem == before % mn,
            ;
        }
        if is_zero(&p) {
            proof {
                assert(before == rem) by (nonlinear_arith)
                    requires
                        before == value(p@) * mn + rem,
                        value(p@) == 0,
                ;
                lemma_log0(m as int, before as int);
                let w = npow(mn, count as nat);
                assert(x0 == before * w + lost);
                if before == 1 {
                    assert(before * w == w) by (nonlinear_arith)
                        requires
                            before == 1,
                    ;
                } else {
                    assert(before * w >= 2 * w) by (nonlinear_arith)
                        requires
                            before >= 2,
                            w >= 0,
                    ;
                }
            }
            exact = exact && rem == 1;
            break ;
        }
        proof {
            assert(before >= mn && value(p@) < before) by (nonlinear_arith)
                requires
                    before == value(p@) * mn + rem,
                    value(p@) >= 1,
                    mn >= 2,
            ;
            lemma_log_s(m as int, before as int);
            vstd::arithmetic::logarithm::lemma_log_nonnegative(m as int, value(p@) as int);
            let w = npow(mn, count as nat);
            lemma_npow_step(mn, count as nat);
            assert((value(p@) * mn + rem) * w + lost == value(p@) * (mn * w) + (rem * w + lost))
                by (nonlinear_arith);
            assert(rem * w + lost < mn * w) by (nonlinear_arith)
                requires
                    rem < mn,
                    lost < w,
            ;
            assert((rem * w + lost == 0) <==> (rem == 0 && lost == 0)) by (nonlinear_arith)
                requires
                    w > lost,
                    rem >= 0,
                    lost >= 0,
            ;
            lost = (rem * w + lost) as nat;
        }
        exact = exact && rem == 0;
        count = count + 1;
    }
    (count, exact)
}

} // verus!
