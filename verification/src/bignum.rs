//! Fixed-width multi-limb unsigned integers.
//!
//! Squared sensor magnitudes live at the quantum `2^-298` and reach `2^554`,
//! far past `u128`, so the decoder compares them through little-endian vectors
//! of nine 64-bit limbs. The only operations the decoder needs are: build
//! `c * 2^s`, add, and compare.

use vstd::prelude::*;
use vstd::arithmetic::power2::{
    pow2, lemma2_to64, lemma2_to64_rest, lemma_pow2_adds, lemma_pow2_pos,
    lemma_pow2_strictly_increases,
};
use vstd::arithmetic::div_mod::lemma_fundamental_div_mod;
use vstd::arithmetic::mul::lemma_mul_inequality;

verus! {

/// Number of limbs: enough for values below `2^576`.
pub const LIMBS: usize = 9;

/// Value of a little-endian limb vector: `sum of s[i] * 2^(64 i)`.
pub open spec fn limbs_val(s: Seq<u64>) -> int
    decreases s.len(),
{
    if s.len() == 0 {
        0
    } else {
        limbs_val(s.drop_last()) + s.last() * pow2((64 * (s.len() - 1)) as nat)
    }
}

pub proof fn lemma_limbs_val_nonneg(s: Seq<u64>)
    ensures
        limbs_val(s) >= 0,
    decreases s.len(),
{
    if s.len() > 0 {
        lemma_limbs_val_nonneg(s.drop_last());
        lemma_pow2_pos((64 * (s.len() - 1)) as nat);
        vstd::arithmetic::mul::lemma_mul_nonnegative(s.last() as int, pow2((64 * (s.len() - 1)) as nat) as int);
    }
}

pub proof fn lemma_limbs_val_bound(s: Seq<u64>)
    ensures
        limbs_val(s) < pow2((64 * s.len()) as nat),
    decreases s.len(),
{
    if s.len() == 0 {
        lemma_pow2_pos(0);
    } else {
        let n = s.len();
        lemma_limbs_val_bound(s.drop_last());
        lemma_pow2_pos((64 * (n - 1)) as nat);
        lemma2_to64();
        lemma2_to64_rest();
        assert(s.last() <= 0xffff_ffff_ffff_ffffu64);
        lemma_mul_inequality(s.last() as int, pow2(64) - 1, pow2((64 * (n - 1)) as nat) as int);
        lemma_pow2_adds(64, (64 * (n - 1)) as nat);
        assert((pow2(64) - 1) * pow2((64 * (n - 1)) as nat)
            == pow2(64) * pow2((64 * (n - 1)) as nat) - pow2((64 * (n - 1)) as nat)) by (nonlinear_arith);
        assert(limbs_val(s) < pow2((64 * (n - 1)) as nat) + (pow2(64) - 1) * pow2((64 * (n - 1)) as nat));
        assert((64 * n) as nat == 64 + (64 * (n - 1)) as nat);
    }
}

/// Appending a limb adds its value at the top position.
pub proof fn lemma_limbs_val_push(s: Seq<u64>, x: u64)
    ensures
        limbs_val(s.push(x)) == limbs_val(s) + x * pow2((64 * s.len()) as nat),
{
    assert(s.push(x).drop_last() =~= s);
    assert(s.push(x).last() == x);
}

/// One step of a prefix: `take(i + 1)` adds limb `i` to `take(i)`.
pub proof fn lemma_limbs_val_take_step(s: Seq<u64>, i: int)
    requires
        0 <= i < s.len(),
    ensures
        limbs_val(s.take(i + 1)) == limbs_val(s.take(i)) + s[i] * pow2((64 * i) as nat),
{
    assert(s.take(i + 1).drop_last() =~= s.take(i));
    assert(s.take(i + 1).last() == s[i]);
}

/// Limb vectors of equal length compare like their values, decided at the
/// highest differing limb.
pub proof fn lemma_limbs_val_order(a: Seq<u64>, b: Seq<u64>, k: int)
    requires
        a.len() == b.len(),
        0 <= k < a.len(),
        a[k] < b[k],
        forall|j: int| k < j < a.len() ==> a[j] == b[j],
    ensures
        limbs_val(a) < limbs_val(b),
    decreases a.len(),
{
    let n = a.len();
    if k == n - 1 {
        lemma_limbs_val_bound(a.drop_last());
        lemma_limbs_val_nonneg(b.drop_last());
        let p = pow2((64 * (n - 1)) as nat) as int;
        lemma_pow2_pos((64 * (n - 1)) as nat);
        assert(a.last() == a[k] && b.last() == b[k]);
        assert(a[k] * p + p <= b[k] * p) by (nonlinear_arith)
            requires
                a[k] < b[k],
                p > 0,
        ;
        assert(limbs_val(a) < a[k] * p + p);
    } else {
        assert(a.last() == b.last());
        lemma_limbs_val_order(a.drop_last(), b.drop_last(), k);
    }
}

/// `2^r` as a machine word, for `r < 64`.
pub fn pow2_u64(r: u64) -> (p: u64)
    requires
        r < 64,
    ensures
        p == pow2(r as nat),
{
    let mut p: u64 = 1;
    let mut k: u64 = 0;
    proof {
        lemma2_to64();
    }
    while k < r
        invariant
            k <= r,
            r < 64,
            p == pow2(k as nat),
        decreases r - k,
    {
        proof {
            lemma_pow2_strictly_increases(k as nat, 63);
            lemma2_to64_rest();
        }
        p = p * 2;
        k = k + 1;
        proof {
            vstd::arithmetic::power2::lemma_pow2_unfold(k as nat);
        }
    }
    p
}

/// Builds the limb vector of `c * 2^s`.
pub fn limbs_from_scaled(c: u64, s: usize) -> (v: Vec<u64>)
    requires
        c < pow2(48),
        s <= 508,
    ensures
        v@.len() == LIMBS,
        limbs_val(v@) == c * pow2(s as nat),
{
    let li: usize = s / 64;
    let r: u64 = (s % 64) as u64;
    let p: u64 = pow2_u64(r);
    proof {
        lemma2_to64();
        lemma2_to64_rest();
        if (r as nat) < 63 {
            lemma_pow2_strictly_increases(r as nat, 63);
        }
        assert((c as u128) * (p as u128) < 0x1_0000_0000_0000_0000_0000_0000_0000u128) by (nonlinear_arith)
            requires
                c < 0x1_0000_0000_0000u64,
                p <= 0x8000_0000_0000_0000u64,
        ;
    }
    let w: u128 = (c as u128) * (p as u128);
    let lo: u64 = (w % 0x1_0000_0000_0000_0000u128) as u64;
    let hi: u64 = (w / 0x1_0000_0000_0000_0000u128) as u64;
    proof {
        lemma_fundamental_div_mod(w as int, 0x1_0000_0000_0000_0000);
        assert(w == 0x1_0000_0000_0000_0000 * (w as int / 0x1_0000_0000_0000_0000) + (w as int % 0x1_0000_0000_0000_0000));
        assert(w as int / 0x1_0000_0000_0000_0000 < 0x1_0000_0000_0000_0000) by (nonlinear_arith)
            requires
                w < 0x1_0000_0000_0000_0000_0000_0000_0000u128,
        ;
    }
    let mut v: Vec<u64> = Vec::new();
    let mut i: usize = 0;
    while i < LIMBS
        invariant
            i <= LIMBS,
            v@.len() == i,
            li <= 7,
            limbs_val(v@) == (if i > li { (lo as int) * pow2((64 * li) as nat) } else { 0 })
                + (if i > li + 1 { (hi as int) * pow2((64 * (li + 1)) as nat) } else { 0 }),
        decreases LIMBS - i,
    {
        let x: u64 = if i == li {
            lo
        } else if i == li + 1 {
            hi
        } else {
            0
        };
        proof {
            lemma_limbs_val_push(v@, x);
        }
        v.push(x);
        i = i + 1;
    }
    proof {
        // lo + hi * 2^64 == c * 2^r, placed at limb li, gives c * 2^s.
        lemma2_to64();
        lemma2_to64_rest();
        lemma_pow2_adds(64, (64 * li) as nat);
        assert((hi as int) * pow2((64 * (li + 1)) as nat) == (hi as int) * (pow2(64) * pow2((64 * li) as nat)));
        let pl = pow2((64 * li) as nat) as int;
        assert((lo as int) * pl + (hi as int) * (pow2(64) * pl) == (lo + pow2(64) * hi) * pl) by (nonlinear_arith);
        assert(lo + pow2(64) * hi == w);
        assert(limbs_val(v@) == w * pl);
        assert(w == c * pow2(r as nat));
        vstd::arithmetic::div_mod::lemma_fundamental_div_mod(s as int, 64);
        assert(s == 64 * li + r);
        lemma_pow2_adds(r as nat, (64 * li) as nat);
        assert(w * pl == (c * pow2(r as nat)) * pl);
        assert((c * pow2(r as nat)) * pl == c * (pow2(r as nat) * pl)) by (nonlinear_arith);
        assert(pow2(s as nat) == pow2(r as nat) * pl);
    }
    v
}

/// Adds two limb vectors of equal length whose sum still fits.
pub fn add_limbs(a: &Vec<u64>, b: &Vec<u64>) -> (c: Vec<u64>)
    requires
        a@.len() == b@.len(),
        limbs_val(a@) + limbs_val(b@) < pow2((64 * a@.len()) as nat),
    ensures
        c@.len() == a@.len(),
        limbs_val(c@) == limbs_val(a@) + limbs_val(b@),
{
    let n: usize = a.len();
    let mut c: Vec<u64> = Vec::new();
    let mut carry: u64 = 0;
    let mut i: usize = 0;
    while i < n
        invariant
            i <= n,
            n == a@.len() == b@.len(),
            c@.len() == i,
            carry <= 1,
            limbs_val(c@) + (carry as int) * pow2((64 * i) as nat)
                == limbs_val(a@.take(i as int)) + limbs_val(b@.take(i as int)),
        decreases n - i,
    {
        let s: u128 = a[i] as u128 + b[i] as u128 + carry as u128;
        let lo: u64 = (s % 0x1_0000_0000_0000_0000u128) as u64;
        let nc: u64 = (s / 0x1_0000_0000_0000_0000u128) as u64;
        proof {
            lemma2_to64();
            lemma_fundamental_div_mod(s as int, 0x1_0000_0000_0000_0000);
            assert(s as int / 0x1_0000_0000_0000_0000 <= 1) by (nonlinear_arith)
                requires
                    s < 2 * 0x1_0000_0000_0000_0000u128,
            ;
            lemma_limbs_val_push(c@, lo);
            lemma_limbs_val_take_step(a@, i as int);
            lemma_limbs_val_take_step(b@, i as int);
            lemma_pow2_adds(64, (64 * i) as nat);
            let pl = pow2((64 * i) as nat) as int;
            // value added at position i plus carry moved up one limb
            assert((lo as int) * pl + (nc as int) * (pow2(64) * pl) == (lo + pow2(64) * nc) * pl) by (nonlinear_arith);
            assert(lo + pow2(64) * nc == s);
            assert((s as int) * pl == (a@[i as int] + b@[i as int] + carry) * pl);
            assert((a@[i as int] + b@[i as int] + carry) * pl
                == a@[i as int] * pl + b@[i as int] * pl + carry * pl) by (nonlinear_arith);
            assert(pow2((64 * (i + 1)) as nat) == pow2(64) * pl);
        }
        c.push(lo);
        carry = nc;
        i = i + 1;
    }
    proof {
        assert(a@.take(n as int) =~= a@);
        assert(b@.take(n as int) =~= b@);
        if carry == 1 {
            lemma_limbs_val_nonneg(c@);
            assert(false);
        }
    }
    c
}

/// Compares two limb vectors of equal length: `limbs_val(a) < limbs_val(b)`.
pub fn lt_limbs(a: &Vec<u64>, b: &Vec<u64>) -> (r: bool)
    requires
        a@.len() == b@.len(),
    ensures
        r == (limbs_val(a@) < limbs_val(b@)),
{
    let n: usize = a.len();
    let mut i: usize = n;
    while i > 0
        invariant
            i <= n,
            n == a@.len() == b@.len(),
            forall|j: int| i <= j < n ==> a@[j] == b@[j],
        decreases i,
    {
        i = i - 1;
        if a[i] < b[i] {
            proof {
                lemma_limbs_val_order(a@, b@, i as int);
            }
            return true;
        }
        if a[i] > b[i] {
            proof {
                lemma_limbs_val_order(b@, a@, i as int);
            }
            return false;
        }
    }
    proof {
        assert(a@ =~= b@);
    }
    false
}

} // verus!
