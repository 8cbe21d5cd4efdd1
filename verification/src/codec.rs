use vstd::prelude::*;
use vstd::string::StringSliceAdditionalSpecFns;
use base64::Engine;
use crate::dealer::{split_bytes, spec_split_shares};
use crate::error::SssError;
use crate::recover::{combine_bytes, distinct_xs, points_of, spec_recover, uniform_len};
use crate::share::{models, spec_parse_share, spec_share_bytes, Share, ShareModel};

verus! {

// The encoding boundary: shares travel as URL-safe base64 strings of their
// byte form, and the convenience API turns a recovered byte sequence back
// into text. The outside encoders stand behind trusted wrappers; everything
// around them is verified against the names given to their results.

/// What base64's URL-safe padded encoding returns for these bytes.
pub uninterp spec fn b64_of(b: Seq<u8>) -> Seq<char>;

/// What base64's URL-safe padded decoding returns for this string: the
/// bytes, or nothing when the string is not in the alphabet.
pub uninterp spec fn b64_decode_of(s: Seq<char>) -> Option<Seq<u8>>;

/// What UTF-8 decoding returns for these bytes: the text, or nothing when
/// the bytes are not valid UTF-8.
pub uninterp spec fn utf8_of(b: Seq<u8>) -> Option<Seq<char>>;

/// Relies on base64's `Engine::encode` with the URL_SAFE engine: the result
/// is a function of the input bytes alone, and decoding it with the same
/// engine gives the input back.
#[verifier::external_body]
fn b64_encode(bytes: &Vec<u8>) -> (r: String)
    ensures
        r@ == b64_of(bytes@),
        b64_decode_of(r@) == Some(bytes@),
{
    base64::engine::general_purpose::URL_SAFE.encode(bytes)
}

/// Relies on base64's `Engine::decode` with the URL_SAFE engine: it succeeds
/// exactly on strings of the padded URL-safe alphabet, and its result is a
/// function of the input string alone.
#[verifier::external_body]
fn b64_decode(s: &String) -> (r: Option<Vec<u8>>)
    ensures
        r is Some <==> b64_decode_of(s@) is Some,
        r matches Some(v) ==> Some(v@) == b64_decode_of(s@),
{
    match base64::engine::general_purpose::URL_SAFE.decode(s.as_str()) {
        Ok(v) => Some(v),
        Err(_) => None,
    }
}

/// Relies on rand's `thread_rng` and `RngCore::fill_bytes`: a
/// cryptographically secure source. Nothing is promised of the drawn values,
/// only of how many there are.
#[verifier::external_body]
fn random_bytes(n: usize) -> (r: Vec<u8>)
    ensures
        r@.len() == n,
{
    let mut v = vec![0u8; n];
    rand::RngCore::fill_bytes(&mut rand::thread_rng(), &mut v);
    v
}

/// Relies on `String::from_utf8`: it succeeds exactly on valid UTF-8, and
/// its result is a function of the input bytes alone.
#[verifier::external_body]
fn bytes_to_string(bytes: Vec<u8>) -> (r: Option<String>)
    ensures
        r is Some <==> utf8_of(bytes@) is Some,
        r matches Some(s) ==> Some(s@) == utf8_of(bytes@),
{
    match String::from_utf8(bytes) {
        Ok(s) => Some(s),
        Err(_) => None,
    }
}

/// The views of a sequence of strings.
pub open spec fn views_of(v: Seq<String>) -> Seq<Seq<char>> {
    v.map_values(|s: String| s@)
}

/// The transport strings a split produces: one per share, each the base64
/// form of that share's byte serialization, for the given coefficients.
pub open spec fn spec_encoded_shares(
    secret: Seq<u8>,
    coeffs: Seq<u8>,
    threshold: u8,
    count: u8,
    out: Seq<Seq<char>>,
) -> bool {
    &&& coeffs.len() == secret.len() * (threshold - 1)
    &&& out.len() == count
    &&& forall|j: int|
        0 <= j < out.len() ==> out[j] == b64_of(
            spec_share_bytes(
                #[trigger] spec_split_shares(secret, coeffs, threshold as nat, count as nat)[j],
            ),
        )
    &&& forall|j: int|
        0 <= j < out.len() ==> b64_decode_of(out[j]) == Some(
            spec_share_bytes(
                #[trigger] spec_split_shares(secret, coeffs, threshold as nat, count as nat)[j],
            ),
        )
}

/// Whether `out` is a possible dealer output for this secret: the exact
/// encoded share strings for some sequence of drawn coefficients.
pub open spec fn spec_is_split_output(
    secret: Seq<u8>,
    threshold: u8,
    count: u8,
    out: Seq<Seq<char>>,
) -> bool {
    exists|coeffs: Seq<u8>| spec_encoded_shares(secret, coeffs, threshold, count, out)
}

/// Split a secret string into `shares` transport-encoded shares, any
/// `threshold` of which recover it. The polynomial coefficients are drawn
/// fresh from a secure random source on every call, so the output is not
/// reproducible; what is promised is that the strings encode exactly the
/// dealer's shares for some drawn coefficients. Parameters are checked in
/// order: a zero threshold, then a zero share count, then a threshold above
/// the share count.
pub fn simple_split(secret: &str, threshold: u8, shares: u8) -> (r: Result<Vec<String>, SssError>)
    requires
        secret.spec_bytes().len() * 254 <= usize::MAX,
    ensures
        r == Err::<Vec<String>, SssError>(SssError::InvalidThreshold) <==> threshold == 0,
        r == Err::<Vec<String>, SssError>(SssError::InvalidShareCount) <==> (threshold >= 1
            && shares == 0),
        r == Err::<Vec<String>, SssError>(SssError::ThresholdExceedsShares) <==> (threshold >= 1
            && shares >= 1 && threshold > shares),
        r is Ok <==> (1 <= threshold <= shares),
        r matches Ok(v) ==> spec_is_split_output(
            secret.spec_bytes(),
            threshold,
            shares,
            views_of(v@),
        ),
        r matches Ok(v) ==> spec_decode_ok(views_of(v@)),
{
    if threshold < 1 {
        return Err(SssError::InvalidThreshold);
    }
    if shares < 1 {
        return Err(SssError::InvalidShareCount);
    }
    if threshold > shares {
        return Err(SssError::ThresholdExceedsShares);
    }
    let bytes: &[u8] = secret.as_bytes();
    let km1: usize = (threshold - 1) as usize;
    proof {
        assert(bytes@.len() * km1 <= bytes@.len() * 254 && bytes@.len() * km1 >= 0)
            by (nonlinear_arith)
            requires
                0 <= km1 <= 254,
                bytes@.len() >= 0,
        ;
    }
    let needed: usize = bytes.len() * km1;
    let coeffs = random_bytes(needed);
    let ghost target = spec_split_shares(bytes@, coeffs@, threshold as nat, shares as nat);
    match split_bytes(bytes, threshold, shares, coeffs.as_slice()) {
        Ok(dealt) => {
            let mut out: Vec<String> = Vec::new();
            let mut j: usize = 0;
            let n: usize = dealt.len();
            while j < n
                invariant
                    j <= n,
                    n == dealt@.len(),
                    models(dealt@) == target,
                    target.len() == n,
                    out@.len() == j,
                    forall|jj: int|
                        0 <= jj < j ==> out@[jj]@ == b64_of(spec_share_bytes(target[jj])),
                    forall|jj: int|
                        0 <= jj < j ==> b64_decode_of(out@[jj]@) == Some(
                            spec_share_bytes(target[jj]),
                        ),
                decreases n - j,
            {
                let sb = dealt[j].to_bytes();
                proof {
                    assert(models(dealt@)[j as int] == dealt@[j as int]@);
                }
                let enc = b64_encode(&sb);
                out.push(enc);
                j = j + 1;
            }
            proof {
                let strs = views_of(out@);
                assert forall|jj: int| 0 <= jj < strs.len() implies strs[jj] == b64_of(
                    spec_share_bytes(target[jj]),
                ) by {
                    assert(strs[jj] == out@[jj]@);
                }
                assert(spec_encoded_shares(
                    secret.spec_bytes(),
                    coeffs@,
                    threshold,
                    shares,
                    views_of(out@),
                ));
                assert(spec_is_split_output(
                    secret.spec_bytes(),
                    threshold,
                    shares,
                    views_of(out@),
                ));
                assert forall|jj: int| 0 <= jj < strs.len() implies ((#[trigger] b64_decode_of(
                    strs[jj],
                )) matches Some(b) && b.len() >= 1) by {
                    assert(strs[jj] == out@[jj]@);
                    assert(b64_decode_of(strs[jj]) == Some(spec_share_bytes(target[jj])));
                }
                assert(spec_decode_ok(strs));
            }
            Ok(out)
        },
        Err(e) => {
            proof {
                assert(false);
            }
            Err(e)
        },
    }
}

/// Every transport string decodes to at least one byte of share data.
pub open spec fn spec_decode_ok(strs: Seq<Seq<char>>) -> bool {
    forall|j: int|
        0 <= j < strs.len() ==> ((#[trigger] b64_decode_of(strs[j])) matches Some(b) && b.len()
            >= 1)
}

/// The shares carried by a sequence of transport strings.
pub open spec fn spec_decoded_shares(strs: Seq<Seq<char>>) -> Seq<ShareModel> {
    Seq::new(strs.len(), |j: int| spec_parse_share(b64_decode_of(strs[j])->Some_0))
}

/// Recover the secret text from at least one transport-encoded share.
/// Checked in order: at most 255 shares (else TooManyShares), every string
/// decodes to a share (else DecodeError), all shares one length (else
/// InconsistentShareLength), all x-coordinates distinct (else
/// DuplicateShare), and the interpolated bytes are valid UTF-8 (else
/// TextDecodeError). Fewer shares than the dealer's threshold is not
/// detectable and recovers an unrelated value.
pub fn simple_combine(shares: Vec<String>) -> (r: Result<String, SssError>)
    requires
        shares@.len() >= 1,
    ensures
        r == Err::<String, SssError>(SssError::TooManyShares) <==> shares@.len() > 255,
        r == Err::<String, SssError>(SssError::DecodeError) <==> (shares@.len() <= 255
            && !spec_decode_ok(views_of(shares@))),
        r == Err::<String, SssError>(SssError::InconsistentShareLength) <==> (shares@.len() <= 255
            && spec_decode_ok(views_of(shares@)) && !uniform_len(
            spec_decoded_shares(views_of(shares@)),
        )),
        r == Err::<String, SssError>(SssError::DuplicateShare) <==> (shares@.len() <= 255
            && spec_decode_ok(views_of(shares@)) && uniform_len(
            spec_decoded_shares(views_of(shares@)),
        ) && !distinct_xs(spec_decoded_shares(views_of(shares@)))),
        (shares@.len() <= 255 && spec_decode_ok(views_of(shares@)) && uniform_len(
            spec_decoded_shares(views_of(shares@)),
        ) && distinct_xs(spec_decoded_shares(views_of(shares@)))) ==> {
            let recovered = spec_recover(
                points_of(spec_decoded_shares(views_of(shares@))),
                spec_decoded_shares(views_of(shares@))[0].ys.len(),
            );
            &&& (r == Err::<String, SssError>(SssError::TextDecodeError) <==> utf8_of(recovered)
                is None)
            &&& (r matches Ok(s) ==> Some(s@) == utf8_of(recovered))
            &&& (utf8_of(recovered) is Some ==> r is Ok)
        },
{
    let ghost strs = views_of(shares@);
    let ghost dm = spec_decoded_shares(strs);
    let m: usize = shares.len();
    if m > 255 {
        return Err(SssError::TooManyShares);
    }
    let mut decoded: Vec<Share> = Vec::new();
    let mut j: usize = 0;
    while j < m
        invariant
            j <= m,
            m == shares@.len() <= 255,
            strs == views_of(shares@),
            dm == spec_decoded_shares(strs),
            decoded@.len() == j,
            forall|jj: int|
                0 <= jj < j ==> ((#[trigger] b64_decode_of(strs[jj])) matches Some(b) && b.len()
                    >= 1),
            forall|jj: int| 0 <= jj < j ==> decoded@[jj]@ == dm[jj],
        decreases m - j,
    {
        proof {
            assert(strs[j as int] == shares@[j as int]@);
        }
        let bytes = match b64_decode(&shares[j]) {
            Some(b) => b,
            None => {
                proof {
                    assert(!spec_decode_ok(strs));
                }
                return Err(SssError::DecodeError);
            },
        };
        let share = match Share::from_bytes(bytes.as_slice()) {
            Ok(s) => s,
            Err(_) => {
                proof {
                    assert(b64_decode_of(strs[j as int])->Some_0.len() == 0);
                    assert(!spec_decode_ok(strs));
                }
                return Err(SssError::DecodeError);
            },
        };
        decoded.push(share);
        j = j + 1;
    }
    assert(spec_decode_ok(strs));
    proof {
        assert(models(decoded@) =~= dm);
    }
    let recovered = match combine_bytes(&decoded) {
        Ok(v) => v,
        Err(e) => {
            return Err(e);
        },
    };
    match bytes_to_string(recovered) {
        Some(text) => Ok(text),
        None => Err(SssError::TextDecodeError),
    }
}

} // verus!
