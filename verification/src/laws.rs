use vstd::prelude::*;
use crate::dealer::{spec_eval_poly, spec_poly_for, spec_split_shares};
use crate::field::{
    lemma_mul_one_right, lemma_mul_zero_left, lemma_pow_one, lemma_xor_zero, spec_gf_add,
    spec_gf_mul,
};
use crate::recover::{
    distinct_xs, lemma_points_at, points_of, spec_byte_sum, spec_coef, spec_den_prod,
    spec_num_prod, spec_recover, uniform_len,
};
use crate::share::ShareModel;

verus! {

// The laws the library states of itself: recovery reads only the set of
// shares, never their order, and a dealer with threshold one is inverted
// exactly by recovery from any single share.

/// Two share sequences with the same shares and distinct x-coordinates
/// carry the same point map.
pub proof fn lemma_points_permutation(s1: Seq<ShareModel>, s2: Seq<ShareModel>)
    requires
        s1.to_multiset() == s2.to_multiset(),
        distinct_xs(s1),
        distinct_xs(s2),
    ensures
        s1.len() == s2.len(),
        points_of(s1) == points_of(s2),
{
    s1.to_multiset_ensures();
    s2.to_multiset_ensures();
    assert forall|x: u8| #[trigger] points_of(s1).contains_key(x) implies points_of(
        s2,
    ).contains_key(x) && points_of(s2)[x] == points_of(s1)[x] by {
        lemma_points_transfer(s1, s2, x);
    }
    assert forall|x: u8| #[trigger] points_of(s2).contains_key(x) implies points_of(
        s1,
    ).contains_key(x) && points_of(s1)[x] == points_of(s2)[x] by {
        lemma_points_transfer(s2, s1, x);
    }
    assert(points_of(s1) =~= points_of(s2));
}

proof fn lemma_points_transfer(s1: Seq<ShareModel>, s2: Seq<ShareModel>, x: u8)
    requires
        s1.to_multiset() == s2.to_multiset(),
        distinct_xs(s1),
        distinct_xs(s2),
        points_of(s1).contains_key(x),
    ensures
        points_of(s2).contains_key(x),
        points_of(s2)[x] == points_of(s1)[x],
{
    s1.to_multiset_ensures();
    s2.to_multiset_ensures();
    let i1 = choose|i: int| 0 <= i < s1.len() && s1[i].x == x;
    let sh = s1[i1];
    assert(s1.contains(sh));
    assert(s1.to_multiset().count(sh) > 0);
    assert(s2.to_multiset().count(sh) > 0);
    assert(s2.contains(sh));
    let i2 = choose|i: int| 0 <= i < s2.len() && s2[i] == sh;
    assert(s2[i2].x == x);
    lemma_points_at(s1, i1);
    lemma_points_at(s2, i2);
}

/// Order-independence of recovery: permuting a valid recovery subset (all
/// y-vectors one length, all x-coordinates distinct) yields the identical
/// recovered secret.
pub proof fn lemma_combine_order_independent(s1: Seq<ShareModel>, s2: Seq<ShareModel>)
    requires
        s1.len() >= 1,
        s1.to_multiset() == s2.to_multiset(),
        uniform_len(s1),
        distinct_xs(s1),
        distinct_xs(s2),
    ensures
        s2.len() == s1.len(),
        uniform_len(s2),
        s2[0].ys.len() == s1[0].ys.len(),
        spec_recover(points_of(s2), s2[0].ys.len()) == spec_recover(
            points_of(s1),
            s1[0].ys.len(),
        ),
{
    lemma_points_permutation(s1, s2);
    s1.to_multiset_ensures();
    s2.to_multiset_ensures();
    assert forall|i: int| 0 <= i < s2.len() implies (#[trigger] s2[i].ys).len()
        == s1[0].ys.len() by {
        let sh = s2[i];
        assert(s2.contains(sh));
        assert(s2.to_multiset().count(sh) > 0);
        assert(s1.to_multiset().count(sh) > 0);
        assert(s1.contains(sh));
        let i1 = choose|ii: int| 0 <= ii < s1.len() && s1[ii] == sh;
        assert(s1[i1].ys.len() == s1[0].ys.len());
    }
    assert(s2[0].ys.len() == s1[0].ys.len());
}

/// Every split is a valid recovery input: the dealer issues exactly `count`
/// shares, at pairwise distinct nonzero x-coordinates, each with one y per
/// secret byte.
pub proof fn lemma_split_shares_wellformed(
    secret: Seq<u8>,
    coeffs: Seq<u8>,
    threshold: nat,
    count: nat,
)
    requires
        count <= 255,
    ensures
        spec_split_shares(secret, coeffs, threshold, count).len() == count,
        distinct_xs(spec_split_shares(secret, coeffs, threshold, count)),
        uniform_len(spec_split_shares(secret, coeffs, threshold, count)),
        forall|j: int|
            0 <= j < count ==> (#[trigger] spec_split_shares(secret, coeffs, threshold, count)[j]).x
                != 0,
        forall|j: int|
            0 <= j < count ==> (#[trigger] spec_split_shares(secret, coeffs, threshold, count)[j]).ys.len()
                == secret.len(),
{
}

proof fn lemma_singleton_prods(pm: Map<u8, Seq<u8>>, x: u8, k: int)
    requires
        forall|x2: u8| pm.contains_key(x2) ==> x2 == x,
    ensures
        spec_num_prod(pm, x, k) == 1,
        spec_den_prod(pm, x, k) == 1,
    decreases k,
{
    if k > 0 {
        lemma_singleton_prods(pm, x, k - 1);
    }
}

proof fn lemma_singleton_sum(pm: Map<u8, Seq<u8>>, x: u8, i: int, k: int)
    requires
        forall|x2: u8| pm.contains_key(x2) ==> x2 == x,
        pm.contains_key(x),
        k <= 256,
    ensures
        spec_byte_sum(pm, i, k) == if (x as int) < k {
            spec_gf_mul(pm[x][i], spec_coef(pm, x))
        } else {
            0
        },
    decreases k,
{
    if k > 0 {
        lemma_singleton_sum(pm, x, i, k - 1);
        if x as int == k - 1 {
            lemma_xor_zero(spec_gf_mul(pm[x][i], spec_coef(pm, x)));
        }
    }
}

/// Round-trip for a threshold of one: recovery from any single share the
/// dealer issues returns the exact secret, the empty secret included. (The
/// round trip for a general threshold rests on polynomial interpolation
/// over GF(2^8), which is not proved here; the scenario tests exercise it.)
pub proof fn lemma_single_share_round_trip(secret: Seq<u8>, coeffs: Seq<u8>, count: nat, j: int)
    requires
        coeffs.len() == 0,
        0 <= j < count,
        count <= 255,
    ensures
        spec_split_shares(secret, coeffs, 1, count)[j].ys == secret,
        spec_recover(
            points_of(seq![spec_split_shares(secret, coeffs, 1, count)[j]]),
            secret.len(),
        ) == secret,
{
    let sh = spec_split_shares(secret, coeffs, 1, count)[j];
    let x = sh.x;
    assert forall|i: int| 0 <= i < secret.len() implies sh.ys[i] == secret[i] by {
        let poly = spec_poly_for(secret, coeffs, 1, i);
        assert(poly =~= seq![secret[i]]);
        lemma_eval_singleton(secret[i], x);
    }
    assert(sh.ys =~= secret);
    let s = seq![sh];
    let pm = points_of(s);
    assert(distinct_xs(s));
    lemma_points_at(s, 0);
    assert forall|x2: u8| pm.contains_key(x2) implies x2 == x by {
        let i = choose|i: int| 0 <= i < s.len() && s[i].x == x2;
    }
    lemma_singleton_prods(pm, x, 256);
    lemma_pow_one(254);
    lemma_mul_one_right(1);
    assert(spec_coef(pm, x) == 1);
    assert forall|i: int| 0 <= i < secret.len() implies spec_byte_sum(pm, i, 256)
        == secret[i] by {
        lemma_singleton_sum(pm, x, i, 256);
        lemma_mul_one_right(pm[x][i]);
    }
    assert(spec_recover(pm, secret.len()) =~= secret);
}

/// The evaluation of the constant polynomial [c] at any point is c.
proof fn lemma_eval_singleton(c: u8, x: u8)
    ensures
        spec_eval_poly(seq![c], x) == c,
{
    let p: Seq<u8> = seq![c];
    assert(p.drop_last() =~= Seq::<u8>::empty());
    assert(spec_eval_poly(p.drop_last(), x) == 0);
    lemma_mul_zero_left(x);
    lemma_xor_zero(c);
    assert(spec_eval_poly(p, x) == spec_gf_add(
        spec_gf_mul(spec_eval_poly(p.drop_last(), x), x),
        p.last(),
    ));
}

} // verus!
