//! Ballot validation, proof-of-work checking and row encoding for a
//! multi-method election poll.

pub mod digest;
pub mod text;
pub mod errors;
pub mod models;
pub mod nonce;
pub mod validations;
pub mod codec;
pub mod submission;
