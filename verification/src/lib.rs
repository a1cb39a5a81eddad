//! Construction of atomic token-swap transactions for a contract-based
//! exchange: a swap descriptor model, its exact calldata encoding (with a
//! symmetric decoder), and the assembly of the approve + swap call pair.

pub mod calls;
pub mod codec;
pub mod felt;
pub mod swap;
