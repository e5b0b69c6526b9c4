//! Non-interactive zero-knowledge proof of knowledge of a discrete logarithm
//! over the G1 group of BLS12-377, made non-interactive with Fiat-Shamir.
pub mod challenge;
pub mod point;
pub mod protocol;
pub mod scalar;
