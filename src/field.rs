//! Arithmetic in the prime field of order `2^64 - 2^32 + 1`, with elements held as
//! canonical `u64` values below the modulus.
use vstd::arithmetic::div_mod::{
    lemma_mod_add_multiples_vanish, lemma_mul_mod_noop_left, lemma_mul_mod_noop_right,
};
use vstd::arithmetic::mul::lemma_mul_is_associative;
use vstd::prelude::*;

verus! {

/// The field modulus `2^64 - 2^32 + 1`.
pub const MODULUS: u64 = 18446744069414584321;

pub open spec fn modulus() -> int {
    MODULUS as int
}

/// A value is a field element when it is below the modulus.
pub open spec fn is_elem(a: u64) -> bool {
    a < MODULUS
}

pub open spec fn all_elems(s: Seq<u64>) -> bool {
    forall|i: int| 0 <= i < s.len() ==> #[trigger] s[i] < MODULUS
}

pub open spec fn fadd(a: int, b: int) -> int {
    (a + b) % modulus()
}

pub open spec fn fsub(a: int, b: int) -> int {
    (a - b) % modulus()
}

pub open spec fn fmul(a: int, b: int) -> int {
    (a * b) % modulus()
}

/// `x` raised to the power `e` in the field.
pub open spec fn fpow(x: int, e: nat) -> int
    decreases e,
{
    if e == 0 {
        1
    } else {
        fmul(x, fpow(x, (e - 1) as nat))
    }
}

pub proof fn lemma_fpow_bound(x: int, e: nat)
    ensures
        0 <= fpow(x, e) < modulus(),
{
}

pub proof fn lemma_fmul_assoc(a: int, b: int, c: int)
    ensures
        fmul(a, fmul(b, c)) == fmul(fmul(a, b), c),
{
    let p = modulus();
    lemma_mul_mod_noop_right(a, b * c, p);
    lemma_mul_mod_noop_left(a * b, c, p);
    lemma_mul_is_associative(a, b, c);
}

/// Squaring the base halves the exponent.
pub proof fn lemma_fpow_square(b: int, k: nat)
    ensures
        fpow(b, 2 * k) == fpow(fmul(b, b), k),
    decreases k,
{
    if k > 0 {
        lemma_fpow_square(b, (k - 1) as nat);
        let k2 = (2 * k) as nat;
        assert(fpow(b, k2) == fmul(b, fpow(b, (k2 - 1) as nat)));
        assert(fpow(b, (k2 - 1) as nat) == fmul(b, fpow(b, (k2 - 2) as nat)));
        assert((k2 - 2) as nat == 2 * ((k - 1) as nat));
        assert(fpow(fmul(b, b), k) == fmul(fmul(b, b), fpow(fmul(b, b), (k - 1) as nat)));
        lemma_fmul_assoc(b, b, fpow(b, (2 * k - 2) as nat));
    }
}

pub fn add_mod(a: u64, b: u64) -> (r: u64)
    requires
        is_elem(a),
        is_elem(b),
    ensures
        r as int == fadd(a as int, b as int),
        is_elem(r),
{
    ((a as u128 + b as u128) % (MODULUS as u128)) as u64
}

pub fn sub_mod(a: u64, b: u64) -> (r: u64)
    requires
        is_elem(a),
        is_elem(b),
    ensures
        r as int == fsub(a as int, b as int),
        is_elem(r),
{
    proof {
        lemma_mod_add_multiples_vanish(a - b, modulus());
    }
    ((a as u128 + MODULUS as u128 - b as u128) % (MODULUS as u128)) as u64
}

pub fn mul_mod(a: u64, b: u64) -> (r: u64)
    requires
        is_elem(a),
        is_elem(b),
    ensures
        r as int == fmul(a as int, b as int),
        is_elem(r),
{
    assert((a as u128) * (b as u128) < 0x1_0000_0000_0000_0000_0000_0000_0000_0000) by (nonlinear_arith)
        requires
            a < 0x1_0000_0000_0000_0000,
            b < 0x1_0000_0000_0000_0000,
    ;
    ((a as u128 * b as u128) % (MODULUS as u128)) as u64
}

/// `x^e` by square-and-multiply.
pub fn exp_mod(x: u64, e: u64) -> (r: u64)
    requires
        is_elem(x),
    ensures
        r as int == fpow(x as int, e as nat),
        is_elem(r),
{
    let mut acc: u64 = 1;
    let mut base: u64 = x;
    let mut k: u64 = e;
    proof {
        lemma_fpow_bound(x as int, e as nat);
    }
    while k > 0
        invariant
            is_elem(acc),
            is_elem(base),
            fmul(acc as int, fpow(base as int, k as nat)) == fpow(x as int, e as nat),
        decreases k,
    {
        let half: u64 = k / 2;
        proof {
            lemma_fpow_square(base as int, half as nat);
            if k % 2 == 1 {
                assert(fpow(base as int, k as nat) == fmul(
                    base as int,
                    fpow(base as int, (2 * half) as nat),
                ));
                lemma_fmul_assoc(acc as int, base as int, fpow(base as int, (2 * half) as nat));
            } else {
                assert(k as nat == 2 * half);
            }
        }
        if k % 2 == 1 {
            acc = mul_mod(acc, base);
        }
        base = mul_mod(base, base);
        k = half;
    }
    proof {
        assert(fmul(acc as int, 1) == acc as int % modulus());
    }
    acc
}

} // verus!
