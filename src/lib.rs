//! Blind issuance of anonymous credit tokens over the Ristretto group.
//!
//! A client commits to a secret opening and proves that it knows it; the issuer
//! checks that proof and certifies the commitment together with a credited value,
//! proving in turn that the certificate was made with its secret key. Both proofs
//! are made non-interactive by a Fiat-Shamir transcript.
//!
//! Scalars are modelled by their value modulo the group order `L`, group elements
//! by their discrete logarithm with respect to the base point.
pub mod modular;

pub mod issuance;
pub mod params;
pub mod point;
pub mod scalar;
pub mod transcript;

pub use issuance::{
    CreditToken, IssuanceRequest, IssuanceResponse, PreIssuance, PreRefund, PrivateKey, PublicKey,
    Refund, SpendProof,
};
pub use params::Params;
pub use point::Point;
pub use scalar::Scalar;
pub use transcript::Transcript;
