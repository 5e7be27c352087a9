pub mod channel;
pub mod field;
pub mod hash;
pub mod matrix;
pub mod merkle;
pub mod prover;
