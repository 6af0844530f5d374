//! Recomputes the deterministic asset type identifier of every bridged token
//! asset: a canonical byte descriptor is derived from a token's on-chain data
//! (standard, address, token id), and the descriptor is packed into scalar
//! field elements and hashed with an Anemoi-Jive permutation hash under the
//! legacy field configuration, while the replacement configuration's element
//! packing is prepared alongside.

pub mod bytes;
pub mod codec;
pub mod engine;
pub mod scanner;
