use vstd::prelude::*;
use crate::error::SssError;

verus! {

/// The mathematical content of a share: an x-coordinate and the y-vector,
/// one y per secret byte.
pub struct ShareModel {
    pub x: u8,
    pub ys: Seq<u8>,
}

/// One shareholder's share. The dealer only ever issues nonzero
/// x-coordinates; the y-vector holds each byte's polynomial evaluated at x.
#[derive(Debug)]
pub struct Share {
    pub x: u8,
    pub ys: Vec<u8>,
}

impl View for Share {
    type V = ShareModel;

    open spec fn view(&self) -> ShareModel {
        ShareModel { x: self.x, ys: self.ys@ }
    }
}

/// The mathematical content of a sequence of shares.
pub open spec fn models(s: Seq<Share>) -> Seq<ShareModel> {
    s.map_values(|sh: Share| sh@)
}

/// The serialized form of a share: the x-coordinate byte followed by the
/// y-vector. A share of an empty secret serializes to a single byte.
pub open spec fn spec_share_bytes(m: ShareModel) -> Seq<u8> {
    seq![m.x] + m.ys
}

/// Reading a serialized share back: the first byte is x, the rest are ys.
pub open spec fn spec_parse_share(b: Seq<u8>) -> ShareModel
    recommends
        b.len() >= 1,
{
    ShareModel { x: b[0], ys: b.subrange(1, b.len() as int) }
}

/// Parsing inverts serialization: a share survives the byte form unchanged.
pub proof fn lemma_share_round_trip(m: ShareModel)
    ensures
        spec_parse_share(spec_share_bytes(m)) == m,
{
    assert(spec_parse_share(spec_share_bytes(m)).ys =~= m.ys);
}

/// Serialization inverts parsing: any nonempty byte string is the exact
/// serialization of the share parsed from it.
pub proof fn lemma_share_parse_inverse(b: Seq<u8>)
    requires
        b.len() >= 1,
    ensures
        spec_share_bytes(spec_parse_share(b)) == b,
{
    assert(spec_share_bytes(spec_parse_share(b)) =~= b);
}

impl Share {
    /// Serialize this share to bytes: x first, then every y in order.
    pub fn to_bytes(&self) -> (r: Vec<u8>)
        ensures
            r@ == spec_share_bytes(self@),
    {
        let mut out: Vec<u8> = Vec::new();
        out.push(self.x);
        let mut i: usize = 0;
        while i < self.ys.len()
            invariant
                i <= self.ys@.len(),
                out@ == seq![self.x] + self.ys@.take(i as int),
            decreases self.ys@.len() - i,
        {
            out.push(self.ys[i]);
            proof {
                assert(self.ys@.take(i + 1) == self.ys@.take(i as int).push(self.ys@[i as int]));
            }
            i = i + 1;
        }
        proof {
            assert(self.ys@.take(self.ys@.len() as int) == self.ys@);
        }
        out
    }

    /// Deserialize a share from bytes. Fewer than one byte is a malformed
    /// share; one byte alone is a share of the empty secret.
    pub fn from_bytes(bytes: &[u8]) -> (r: Result<Share, SssError>)
        ensures
            bytes@.len() == 0 <==> r is Err,
            r is Err ==> r == Err::<Share, SssError>(SssError::DecodeError),
            bytes@.len() >= 1 ==> (r matches Ok(s) && s@ == spec_parse_share(bytes@)),
    {
        if bytes.len() == 0 {
            return Err(SssError::DecodeError);
        }
        let x = bytes[0];
        let mut ys: Vec<u8> = Vec::new();
        let mut i: usize = 1;
        while i < bytes.len()
            invariant
                1 <= i <= bytes@.len(),
                ys@ == bytes@.subrange(1, i as int),
            decreases bytes@.len() - i,
        {
            ys.push(bytes[i]);
            proof {
                assert(bytes@.subrange(1, i + 1) == bytes@.subrange(1, i as int).push(bytes@[i as int]));
            }
            i = i + 1;
        }
        Ok(Share { x, ys })
    }
}

} // verus!
