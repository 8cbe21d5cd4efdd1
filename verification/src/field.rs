use vstd::prelude::*;
use crate::error::SssError;

verus! {

// Arithmetic in GF(2^8), the field of 256 elements represented as bytes.
// Addition is bitwise XOR. Multiplication is carry-less polynomial
// multiplication reduced by the fixed irreducible modulus
// x^8 + x^4 + x^3 + x^2 + 1 (0x11d), computed bit by bit: doubling a byte
// shifts its polynomial left and, when the high bit falls out, folds the
// modulus back in with XOR.

/// Addition (and subtraction) in GF(2^8): bitwise XOR, its own inverse.
pub open spec fn spec_gf_add(a: u8, b: u8) -> u8 {
    a ^ b
}

/// Multiplication by x in GF(2^8): shift left, reduce by the modulus 0x11d
/// when the high bit falls out.
pub open spec fn spec_xtime(a: u8) -> u8 {
    if a >= 128 {
        ((2 * (a - 128)) as u8) ^ 0x1d
    } else {
        (2 * a) as u8
    }
}

/// Multiplication in GF(2^8), one bit of `b` at a time: the product is the
/// XOR of `a` shifted past every set bit of `b`, reduced by the modulus.
pub open spec fn spec_gf_mul(a: u8, b: u8) -> u8
    decreases b,
{
    if b == 0 {
        0
    } else {
        (if b % 2 == 1 { a } else { 0 }) ^ spec_gf_mul(spec_xtime(a), b / 2)
    }
}

/// Exponentiation in GF(2^8) by repeated multiplication.
pub open spec fn spec_gf_pow(a: u8, n: nat) -> u8
    decreases n,
{
    if n == 0 {
        1
    } else {
        spec_gf_mul(spec_gf_pow(a, (n - 1) as nat), a)
    }
}

/// The multiplicative inverse of a nonzero element: since the 255 nonzero
/// elements form a group, a^254 * a == a^255 == 1.
pub open spec fn spec_gf_inv(b: u8) -> u8 {
    spec_gf_pow(b, 254)
}

/// Division in GF(2^8): multiplication by the inverse. For the zero divisor
/// this mathematical shorthand yields 0; the executable `gf_div` rejects a
/// zero divisor with an error instead.
pub open spec fn spec_gf_div(a: u8, b: u8) -> u8 {
    spec_gf_mul(a, spec_gf_inv(b))
}

pub proof fn lemma_xor_zero(a: u8)
    ensures
        a ^ 0 == a,
        0 ^ a == a,
{
    assert(a ^ 0 == a) by (bit_vector);
    assert(0 ^ a == a) by (bit_vector);
}

pub proof fn lemma_xor_assoc(a: u8, b: u8, c: u8)
    ensures
        a ^ (b ^ c) == (a ^ b) ^ c,
{
    assert(a ^ (b ^ c) == (a ^ b) ^ c) by (bit_vector);
}

/// Zero is absorbing on the left of multiplication.
pub proof fn lemma_mul_zero_left(b: u8)
    ensures
        spec_gf_mul(0, b) == 0,
    decreases b,
{
    if b != 0 {
        lemma_mul_zero_left(b / 2);
        lemma_xor_zero(0);
    }
}

/// One is the multiplicative identity on the right.
pub proof fn lemma_mul_one_right(a: u8)
    ensures
        spec_gf_mul(a, 1) == a,
{
    assert(spec_gf_mul(spec_xtime(a), 0) == 0);
    assert(spec_gf_mul(a, 1) == a ^ spec_gf_mul(spec_xtime(a), 0));
    lemma_xor_zero(a);
}

/// One raised to any power is one.
pub proof fn lemma_pow_one(n: nat)
    ensures
        spec_gf_pow(1, n) == 1,
    decreases n,
{
    if n != 0 {
        lemma_pow_one((n - 1) as nat);
        lemma_mul_one_right(1);
    }
}

/// Addition in GF(2^8).
pub fn gf_add(a: u8, b: u8) -> (r: u8)
    ensures
        r == spec_gf_add(a, b),
{
    a ^ b
}

fn xtime(a: u8) -> (r: u8)
    ensures
        r == spec_xtime(a),
{
    if a >= 128 {
        (2 * (a - 128)) ^ 0x1d
    } else {
        2 * a
    }
}

/// Multiplication in GF(2^8) by the bitwise (Russian peasant) method.
pub fn gf_mul(a: u8, b: u8) -> (r: u8)
    ensures
        r == spec_gf_mul(a, b),
{
    let mut acc: u8 = 0;
    let mut aa: u8 = a;
    let mut bb: u8 = b;
    proof {
        lemma_xor_zero(spec_gf_mul(a, b));
    }
    while bb != 0
        invariant
            spec_gf_mul(a, b) == acc ^ spec_gf_mul(aa, bb),
        decreases bb,
    {
        let ghost rest = spec_gf_mul(spec_xtime(aa), (bb / 2) as u8);
        let ghost acc0 = acc;
        let ghost aa0 = aa;
        if bb % 2 == 1 {
            acc = acc ^ aa;
            proof {
                assert(acc0 ^ (aa0 ^ rest) == (acc0 ^ aa0) ^ rest) by (bit_vector);
            }
        } else {
            proof {
                lemma_xor_zero(rest);
                assert(acc0 ^ (0 ^ rest) == acc0 ^ rest);
            }
        }
        aa = xtime(aa);
        bb = bb / 2;
    }
    proof {
        lemma_xor_zero(acc);
    }
    acc
}

fn gf_pow254(a: u8) -> (r: u8)
    ensures
        r == spec_gf_pow(a, 254),
{
    let mut acc: u8 = 1;
    let mut i: usize = 0;
    while i < 254
        invariant
            i <= 254,
            acc == spec_gf_pow(a, i as nat),
        decreases 254 - i,
    {
        acc = gf_mul(acc, a);
        i = i + 1;
    }
    acc
}

/// The multiplicative inverse; the zero element has none.
pub fn gf_inv(b: u8) -> (r: Result<u8, SssError>)
    ensures
        b == 0 <==> r is Err,
        r is Err ==> r == Err::<u8, SssError>(SssError::ArithmeticError),
        b != 0 ==> r == Ok::<u8, SssError>(spec_gf_inv(b)),
{
    if b == 0 {
        Err(SssError::ArithmeticError)
    } else {
        Ok(gf_pow254(b))
    }
}

/// Division in GF(2^8); division by the zero element fails.
pub fn gf_div(a: u8, b: u8) -> (r: Result<u8, SssError>)
    ensures
        b == 0 <==> r is Err,
        r is Err ==> r == Err::<u8, SssError>(SssError::ArithmeticError),
        b != 0 ==> r == Ok::<u8, SssError>(spec_gf_div(a, b)),
{
    if b == 0 {
        Err(SssError::ArithmeticError)
    } else {
        Ok(gf_mul(a, gf_pow254(b)))
    }
}

/// Division where the divisor is read as `spec_gf_div` reads it: the zero
/// divisor yields zero. Recovery only ever divides by products of nonzero
/// differences, so the zero case never carries information out.
pub(crate) fn gf_div_total(a: u8, b: u8) -> (r: u8)
    ensures
        r == spec_gf_div(a, b),
{
    gf_mul(a, gf_pow254(b))
}

} // verus!
