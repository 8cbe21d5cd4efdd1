use vstd::prelude::*;
use crate::error::SssError;
use crate::field::{gf_div_total, gf_mul, spec_gf_div, spec_gf_mul};
use crate::share::{models, Share, ShareModel};

verus! {

// Recovery: Lagrange interpolation at x = 0 over GF(2^8), one byte position
// at a time. The secret byte is the sum over the shares of
//   y_j * (prod of the other x-coordinates) / (prod of (x_j ^ other x)),
// since at the evaluation point 0 each numerator factor 0 - x is x itself.
// The model below walks the 256 possible x-coordinates in increasing order,
// so it depends only on the set of (x, ys) points, not on the order in which
// the shares were presented.

/// The shares as a map from x-coordinate to y-vector. Meaningful when the
/// x-coordinates are pairwise distinct.
pub open spec fn points_of(s: Seq<ShareModel>) -> Map<u8, Seq<u8>> {
    Map::new(
        |x: u8| exists|i: int| 0 <= i < s.len() && s[i].x == x,
        |x: u8|
            {
                let i = choose|i: int| 0 <= i < s.len() && s[i].x == x;
                s[i].ys
            },
    )
}

/// All x-coordinates pairwise distinct.
pub open spec fn distinct_xs(s: Seq<ShareModel>) -> bool {
    forall|i: int, j: int| 0 <= i < j < s.len() ==> s[i].x != s[j].x
}

/// All y-vectors of one length.
pub open spec fn uniform_len(s: Seq<ShareModel>) -> bool {
    forall|i: int| 0 <= i < s.len() ==> (#[trigger] s[i].ys).len() == s[0].ys.len()
}

/// With distinct x-coordinates, the point map reads back exactly each
/// share's y-vector under its x-coordinate.
pub proof fn lemma_points_at(s: Seq<ShareModel>, i: int)
    requires
        distinct_xs(s),
        0 <= i < s.len(),
    ensures
        points_of(s).contains_key(s[i].x),
        points_of(s)[s[i].x] == s[i].ys,
{
    assert(points_of(s).contains_key(s[i].x));
    let i2 = choose|i2: int| 0 <= i2 < s.len() && s[i2].x == s[i].x;
    assert(i2 == i);
}

/// The numerator of the Lagrange coefficient for the share at `x`: the
/// product of every other present x-coordinate (each being 0 - x2 at the
/// evaluation point 0), walked over the coordinates below `k`.
pub open spec fn spec_num_prod(pm: Map<u8, Seq<u8>>, x: u8, k: int) -> u8
    decreases k,
{
    if k <= 0 {
        1
    } else {
        let x2 = (k - 1) as u8;
        let rest = spec_num_prod(pm, x, k - 1);
        if pm.contains_key(x2) && x2 != x {
            spec_gf_mul(rest, x2)
        } else {
            rest
        }
    }
}

/// The denominator of the Lagrange coefficient for the share at `x`: the
/// product of x ^ x2 over every other present x-coordinate below `k`.
pub open spec fn spec_den_prod(pm: Map<u8, Seq<u8>>, x: u8, k: int) -> u8
    decreases k,
{
    if k <= 0 {
        1
    } else {
        let x2 = (k - 1) as u8;
        let rest = spec_den_prod(pm, x, k - 1);
        if pm.contains_key(x2) && x2 != x {
            spec_gf_mul(rest, x ^ x2)
        } else {
            rest
        }
    }
}

/// The Lagrange basis coefficient, at the evaluation point 0, of the share
/// at x-coordinate `x`.
pub open spec fn spec_coef(pm: Map<u8, Seq<u8>>, x: u8) -> u8 {
    spec_gf_div(spec_num_prod(pm, x, 256), spec_den_prod(pm, x, 256))
}

/// One recovered byte: the XOR over all present x-coordinates below `k` of
/// that share's y at position `i` times its Lagrange coefficient.
pub open spec fn spec_byte_sum(pm: Map<u8, Seq<u8>>, i: int, k: int) -> u8
    decreases k,
{
    if k <= 0 {
        0
    } else {
        let x = (k - 1) as u8;
        let rest = spec_byte_sum(pm, i, k - 1);
        if pm.contains_key(x) {
            rest ^ spec_gf_mul(pm[x][i], spec_coef(pm, x))
        } else {
            rest
        }
    }
}

/// The recovered secret: one interpolated byte per position.
pub open spec fn spec_recover(pm: Map<u8, Seq<u8>>, len: nat) -> Seq<u8> {
    Seq::new(len, |i: int| spec_byte_sum(pm, i, 256))
}

/// Reconstruct the secret bytes from at least one share. The shares must
/// all have the same length (else InconsistentShareLength) and pairwise
/// distinct x-coordinates (else DuplicateShare); at most 255 fit (else
/// TooManyShares). No check that enough shares are present is possible:
/// fewer shares than the dealer's threshold recover a value unrelated to
/// the secret, not an error.
pub fn combine_bytes(shares: &Vec<Share>) -> (r: Result<Vec<u8>, SssError>)
    requires
        shares@.len() >= 1,
    ensures
        r == Err::<Vec<u8>, SssError>(SssError::TooManyShares) <==> shares@.len() > 255,
        r == Err::<Vec<u8>, SssError>(SssError::InconsistentShareLength) <==> (shares@.len() <= 255
            && !uniform_len(models(shares@))),
        r == Err::<Vec<u8>, SssError>(SssError::DuplicateShare) <==> (shares@.len() <= 255
            && uniform_len(models(shares@)) && !distinct_xs(models(shares@))),
        (shares@.len() <= 255 && uniform_len(models(shares@)) && distinct_xs(models(shares@)))
            ==> (r matches Ok(v) && v@ == spec_recover(
            points_of(models(shares@)),
            shares@[0].ys@.len(),
        )),
{
    let ghost ms = models(shares@);
    let m: usize = shares.len();
    if m > 255 {
        return Err(SssError::TooManyShares);
    }
    let width: usize = shares[0].ys.len();
    let mut j: usize = 1;
    while j < m
        invariant
            1 <= j <= m,
            m == shares@.len() <= 255,
            ms == models(shares@),
            width == shares@[0].ys@.len(),
            forall|jj: int| 0 <= jj < j ==> shares@[jj].ys@.len() == width,
        decreases m - j,
    {
        if shares[j].ys.len() != width {
            proof {
                assert(ms[j as int].ys == shares@[j as int].ys@);
                assert(ms[0].ys == shares@[0].ys@);
                assert(!uniform_len(ms));
            }
            return Err(SssError::InconsistentShareLength);
        }
        j = j + 1;
    }
    assert(uniform_len(ms));

    // Register each share's position under its x-coordinate; a second share
    // at the same coordinate is a duplicate.
    let mut pos: Vec<usize> = Vec::new();
    let mut t: usize = 0;
    while t < 256
        invariant
            t <= 256,
            pos@.len() == t,
            forall|x: int| 0 <= x < t ==> pos@[x] == m,
        decreases 256 - t,
    {
        pos.push(m);
        t = t + 1;
    }
    let mut j: usize = 0;
    while j < m
        invariant
            j <= m,
            m == shares@.len() <= 255,
            ms == models(shares@),
            uniform_len(ms),
            pos@.len() == 256,
            forall|x: int| 0 <= x < 256 ==> pos@[x] <= m,
            forall|x: int| 0 <= x < 256 && pos@[x] < m ==> shares@[pos@[x] as int].x == x && pos@[x] < j,
            forall|jj: int| 0 <= jj < j ==> pos@[shares@[jj].x as int] == jj,
        decreases m - j,
    {
        let x: usize = shares[j].x as usize;
        if pos[x] < m {
            proof {
                let i = pos@[x as int] as int;
                assert(ms[i].x == shares@[i].x);
                assert(ms[j as int].x == shares@[j as int].x);
                assert(ms[i].x == ms[j as int].x && i < j);
                assert(!distinct_xs(ms));
            }
            return Err(SssError::DuplicateShare);
        }
        pos.set(x, j);
        j = j + 1;
    }
    assert(distinct_xs(ms)) by {
        assert forall|i: int, jj: int| 0 <= i < jj < ms.len() implies ms[i].x != ms[jj].x by {
            assert(pos@[shares@[i].x as int] == i);
            assert(pos@[shares@[jj].x as int] == jj);
        }
    }
    let ghost pm = points_of(ms);
    proof {
        assert forall|x: int| 0 <= x < 256 implies ((pos@[x] < m) <==> pm.contains_key(
            x as u8,
        )) by {
            if pos@[x] < m {
                lemma_points_at(ms, pos@[x] as int);
                assert(ms[pos@[x] as int].x == x as u8);
            }
            if pm.contains_key(x as u8) {
                let i = choose|i: int| 0 <= i < ms.len() && ms[i].x == x as u8;
                assert(pos@[shares@[i].x as int] == i);
            }
        }
        assert forall|x: int| 0 <= x < 256 && pos@[x] < m implies pm[x as u8] == shares@[pos@[
            x
        ] as int].ys@ by {
            lemma_points_at(ms, pos@[x] as int);
        }
    }

    // The Lagrange coefficient of each present x-coordinate.
    let mut coefs: Vec<u8> = Vec::new();
    let mut x: usize = 0;
    while x < 256
        invariant
            x <= 256,
            m == shares@.len() <= 255,
            ms == models(shares@),
            pm == points_of(ms),
            pos@.len() == 256,
            forall|xx: int| 0 <= xx < 256 ==> pos@[xx] <= m,
            forall|xx: int| 0 <= xx < 256 ==> ((pos@[xx] < m) <==> pm.contains_key(xx as u8)),
            coefs@.len() == x,
            forall|xx: int|
                0 <= xx < x && pos@[xx] < m ==> coefs@[xx] == spec_coef(pm, xx as u8),
        decreases 256 - x,
    {
        if pos[x] < m {
            let mut num: u8 = 1;
            let mut den: u8 = 1;
            let mut x2: usize = 0;
            while x2 < 256
                invariant
                    x2 <= 256,
                    x < 256,
                    m == shares@.len() <= 255,
                    pm == points_of(ms),
                    pos@.len() == 256,
                    forall|xx: int| 0 <= xx < 256 ==> ((pos@[xx] < m) <==> pm.contains_key(
                        xx as u8,
                    )),
                    num == spec_num_prod(pm, x as u8, x2 as int),
                    den == spec_den_prod(pm, x as u8, x2 as int),
                decreases 256 - x2,
            {
                if pos[x2] < m && x2 != x {
                    num = gf_mul(num, x2 as u8);
                    den = gf_mul(den, (x as u8) ^ (x2 as u8));
                }
                x2 = x2 + 1;
            }
            coefs.push(gf_div_total(num, den));
        } else {
            coefs.push(0);
        }
        x = x + 1;
    }

    // Interpolate each byte position at x = 0.
    let mut out: Vec<u8> = Vec::new();
    let mut i: usize = 0;
    while i < width
        invariant
            i <= width,
            m == shares@.len() <= 255,
            ms == models(shares@),
            pm == points_of(ms),
            width == shares@[0].ys@.len(),
            uniform_len(ms),
            pos@.len() == 256,
            coefs@.len() == 256,
            forall|xx: int| 0 <= xx < 256 ==> pos@[xx] <= m,
            forall|xx: int| 0 <= xx < 256 ==> ((pos@[xx] < m) <==> pm.contains_key(xx as u8)),
            forall|xx: int|
                0 <= xx < 256 && pos@[xx] < m ==> pm[xx as u8] == shares@[pos@[xx] as int].ys@,
            forall|xx: int|
                0 <= xx < 256 && pos@[xx] < m ==> coefs@[xx] == spec_coef(pm, xx as u8),
            out@.len() == i,
            forall|ii: int| 0 <= ii < i ==> out@[ii] == spec_byte_sum(pm, ii, 256),
        decreases width - i,
    {
        let mut acc: u8 = 0;
        let mut x: usize = 0;
        while x < 256
            invariant
                x <= 256,
                i < width,
                m == shares@.len() <= 255,
                ms == models(shares@),
                pm == points_of(ms),
                width == shares@[0].ys@.len(),
                uniform_len(ms),
                pos@.len() == 256,
                coefs@.len() == 256,
                forall|xx: int| 0 <= xx < 256 ==> pos@[xx] <= m,
                forall|xx: int| 0 <= xx < 256 ==> ((pos@[xx] < m) <==> pm.contains_key(xx as u8)),
                forall|xx: int|
                    0 <= xx < 256 && pos@[xx] < m ==> pm[xx as u8] == shares@[pos@[xx] as int].ys@,
                forall|xx: int|
                    0 <= xx < 256 && pos@[xx] < m ==> coefs@[xx] == spec_coef(pm, xx as u8),
                acc == spec_byte_sum(pm, i as int, x as int),
            decreases 256 - x,
        {
            let p: usize = pos[x];
            if p < m {
                assert(shares@[p as int].ys@.len() == width);
                acc = acc ^ gf_mul(shares[p].ys[i], coefs[x]);
            }
            x = x + 1;
        }
        out.push(acc);
        i = i + 1;
    }
    proof {
        assert(out@ =~= spec_recover(pm, width as nat));
    }
    Ok(out)
}

} // verus!
