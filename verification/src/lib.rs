//! Shamir's Secret Sharing over GF(2^8): a dealer that splits a secret into
//! N shares of which any K reconstruct it, Lagrange recovery at x = 0, and a
//! URL-safe base64 transport encoding for the shares.

pub mod codec;
pub mod dealer;
pub mod error;
pub mod field;
pub mod laws;
pub mod recover;
pub mod share;

pub use codec::{simple_combine, simple_split};
pub use error::SssError;
pub use share::Share;
