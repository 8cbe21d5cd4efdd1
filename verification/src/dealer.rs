use vstd::prelude::*;
use crate::error::SssError;
use crate::field::{gf_add, gf_mul, spec_gf_add, spec_gf_mul};
use crate::share::{models, Share, ShareModel};

verus! {

// The dealer: splits a secret into `count` shares such that any `threshold`
// of them reconstruct it. For each byte of the secret an implicit polynomial
// of degree threshold-1 over GF(2^8) is formed, whose constant term is that
// byte and whose higher coefficients are the caller-supplied random bytes;
// share j carries the evaluation of every byte's polynomial at x = j+1.

/// Horner evaluation of a polynomial over GF(2^8). Coefficients are ordered
/// from the highest degree down to the constant term; the empty polynomial
/// is zero.
pub open spec fn spec_eval_poly(coeffs: Seq<u8>, x: u8) -> u8
    decreases coeffs.len(),
{
    if coeffs.len() == 0 {
        0
    } else {
        spec_gf_add(spec_gf_mul(spec_eval_poly(coeffs.drop_last(), x), x), coeffs.last())
    }
}

/// The polynomial for byte position `i` of the secret: the `threshold - 1`
/// random coefficients reserved for that position (highest degree first),
/// then the secret byte itself as the constant term.
pub open spec fn spec_poly_for(secret: Seq<u8>, coeffs: Seq<u8>, threshold: nat, i: int) -> Seq<u8>
    recommends
        threshold >= 1,
        0 <= i < secret.len(),
        coeffs.len() == secret.len() * (threshold - 1),
{
    coeffs.subrange(i * (threshold - 1), (i + 1) * (threshold - 1)) + seq![secret[i]]
}

/// The y-vector of the share at x-coordinate `x`: every byte's polynomial
/// evaluated at `x`.
pub open spec fn spec_share_ys(secret: Seq<u8>, coeffs: Seq<u8>, threshold: nat, x: u8) -> Seq<u8> {
    Seq::new(secret.len(), |i: int| spec_eval_poly(spec_poly_for(secret, coeffs, threshold, i), x))
}

/// The full output of the dealer: share j sits at the nonzero x-coordinate
/// j + 1, so the x-coordinates 1..=count are pairwise distinct.
pub open spec fn spec_split_shares(secret: Seq<u8>, coeffs: Seq<u8>, threshold: nat, count: nat) -> Seq<ShareModel> {
    Seq::new(count, |j: int| ShareModel {
        x: (j + 1) as u8,
        ys: spec_share_ys(secret, coeffs, threshold, (j + 1) as u8),
    })
}

/// Split `secret` into `count` shares of which any `threshold` reconstruct
/// it. `coeffs` supplies the `secret.len() * (threshold - 1)` random
/// polynomial coefficients; the result is a deterministic function of the
/// arguments, so the caller owns the randomness. Parameters are checked in
/// order: a zero threshold, then a zero share count, then a threshold above
/// the share count.
pub fn split_bytes(secret: &[u8], threshold: u8, count: u8, coeffs: &[u8]) -> (r: Result<
    Vec<Share>,
    SssError,
>)
    requires
        1 <= threshold <= count ==> coeffs@.len() == secret@.len() * (threshold - 1),
    ensures
        r == Err::<Vec<Share>, SssError>(SssError::InvalidThreshold) <==> threshold == 0,
        r == Err::<Vec<Share>, SssError>(SssError::InvalidShareCount) <==> (threshold >= 1
            && count == 0),
        r == Err::<Vec<Share>, SssError>(SssError::ThresholdExceedsShares) <==> (threshold >= 1
            && count >= 1 && threshold > count),
        1 <= threshold <= count ==> (r matches Ok(v) && models(v@) == spec_split_shares(
            secret@,
            coeffs@,
            threshold as nat,
            count as nat,
        )),
{
    if threshold < 1 {
        return Err(SssError::InvalidThreshold);
    }
    if count < 1 {
        return Err(SssError::InvalidShareCount);
    }
    if threshold > count {
        return Err(SssError::ThresholdExceedsShares);
    }
    let km1: usize = (threshold - 1) as usize;
    let clen: usize = coeffs.len();
    let ghost target = spec_split_shares(secret@, coeffs@, threshold as nat, count as nat);
    let mut shares: Vec<Share> = Vec::new();
    let mut j: usize = 0;
    while j < count as usize
        invariant
            1 <= threshold <= count,
            km1 == threshold - 1,
            clen == coeffs@.len(),
            coeffs@.len() == secret@.len() * (threshold - 1),
            j <= count,
            target == spec_split_shares(secret@, coeffs@, threshold as nat, count as nat),
            models(shares@) == target.take(j as int),
        decreases count - j,
    {
        let x: u8 = (j + 1) as u8;
        let ghost ys_target = spec_share_ys(secret@, coeffs@, threshold as nat, x);
        let mut ys: Vec<u8> = Vec::new();
        let mut i: usize = 0;
        while i < secret.len()
            invariant
                1 <= threshold,
                km1 == threshold - 1,
                clen == coeffs@.len(),
                coeffs@.len() == secret@.len() * (threshold - 1),
                i <= secret@.len(),
                ys_target == spec_share_ys(secret@, coeffs@, threshold as nat, x),
                ys@ == ys_target.take(i as int),
            decreases secret@.len() - i,
        {
            let ghost poly = spec_poly_for(secret@, coeffs@, threshold as nat, i as int);
            proof {
                assert((i + 1) * (threshold - 1) <= secret@.len() * (threshold - 1)
                    && i * (threshold - 1) + (threshold - 1) == (i + 1) * (threshold - 1)
                    && i * (threshold - 1) <= (i + 1) * (threshold - 1)
                    && i * (threshold - 1) >= 0) by (nonlinear_arith)
                    requires
                        0 <= i < secret@.len(),
                        threshold >= 1,
                ;
            }
            let base: usize = i * km1;
            let mut acc: u8 = 0;
            let mut t: usize = 0;
            while t < km1
                invariant
                    1 <= threshold,
                    km1 == threshold - 1,
                    clen == coeffs@.len(),
                    0 <= i < secret@.len(),
                    base == i * km1,
                    base + km1 <= coeffs@.len(),
                    t <= km1,
                    poly == coeffs@.subrange(base as int, (base + km1) as int) + seq![
                        secret@[i as int],
                    ],
                    poly.len() == km1 + 1,
                    acc == spec_eval_poly(poly.take(t as int), x),
                decreases km1 - t,
            {
                proof {
                    assert(poly.take(t + 1).drop_last() == poly.take(t as int));
                    assert(poly.take(t + 1).last() == poly[t as int]);
                    assert(poly[t as int] == coeffs@[base + t]);
                }
                acc = gf_add(gf_mul(acc, x), coeffs[base + t]);
                t = t + 1;
            }
            proof {
                assert(poly.drop_last() == poly.take(km1 as int));
                assert(poly.last() == secret@[i as int]);
            }
            acc = gf_add(gf_mul(acc, x), secret[i]);
            ys.push(acc);
            proof {
                assert(ys_target[i as int] == spec_eval_poly(poly, x));
                assert(ys_target.take(i + 1) == ys_target.take(i as int).push(ys_target[i as int]));
            }
            i = i + 1;
        }
        proof {
            assert(ys@ == ys_target.take(secret@.len() as int));
            assert(ys_target.take(secret@.len() as int) =~= ys_target);
        }
        shares.push(Share { x, ys });
        proof {
            assert(target[j as int] == (ShareModel { x, ys: ys_target }));
            assert(models(shares@) =~= target.take(j as int).push(target[j as int]));
            assert(target.take(j + 1) =~= target.take(j as int).push(target[j as int]));
        }
        j = j + 1;
    }
    proof {
        assert(target.take(count as int) =~= target);
    }
    Ok(shares)
}

} // verus!
