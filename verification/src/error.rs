use vstd::prelude::*;

verus! {

/// Every failure the library reports, as one tagged type: parameter errors
/// (threshold / share-count range or ordering), transport-encoding errors,
/// consistency errors among the shares handed to recovery, division by the
/// zero field element, and recovered bytes that are not valid text.
#[derive(Clone, Copy, PartialEq, Eq, Structural, Debug)]
pub enum SssError {
    /// The threshold was zero.
    InvalidThreshold,
    /// The requested share count was zero.
    InvalidShareCount,
    /// The threshold was larger than the requested share count.
    ThresholdExceedsShares,
    /// More than 255 shares were handed to recovery.
    TooManyShares,
    /// A transport string was not valid URL-safe base64, or decoded to
    /// fewer bytes than a share needs.
    DecodeError,
    /// The shares handed to recovery do not all have the same length.
    InconsistentShareLength,
    /// Two shares handed to recovery carry the same x-coordinate.
    DuplicateShare,
    /// Division by the zero field element.
    ArithmeticError,
    /// The recovered bytes are not valid UTF-8 text.
    TextDecodeError,
}

impl SssError {
    /// A human-readable description of the error.
    pub fn message(&self) -> (r: String)
        ensures
            *self == SssError::InvalidThreshold ==> r@ == "invalid threshold: 0"@,
            *self == SssError::InvalidShareCount ==> r@ == "invalid shares: 0"@,
            *self == SssError::ThresholdExceedsShares ==> r@ == "threshold can't be bigger than shares"@,
            *self == SssError::TooManyShares ==> r@ == "too many shares"@,
            *self == SssError::DecodeError ==> r@ == "malformed share encoding"@,
            *self == SssError::InconsistentShareLength ==> r@ == "shares have inconsistent lengths"@,
            *self == SssError::DuplicateShare ==> r@ == "duplicate share"@,
            *self == SssError::ArithmeticError ==> r@ == "division by zero field element"@,
            *self == SssError::TextDecodeError ==> r@ == "recovered bytes are not valid text"@,
    {
        match self {
            SssError::InvalidThreshold => "invalid threshold: 0".to_owned(),
            SssError::InvalidShareCount => "invalid shares: 0".to_owned(),
            SssError::ThresholdExceedsShares => "threshold can't be bigger than shares".to_owned(),
            SssError::TooManyShares => "too many shares".to_owned(),
            SssError::DecodeError => "malformed share encoding".to_owned(),
            SssError::InconsistentShareLength => "shares have inconsistent lengths".to_owned(),
            SssError::DuplicateShare => "duplicate share".to_owned(),
            SssError::ArithmeticError => "division by zero field element".to_owned(),
            SssError::TextDecodeError => "recovered bytes are not valid text".to_owned(),
        }
    }
}

} // verus!
