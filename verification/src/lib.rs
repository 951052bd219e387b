//! Arbitrary-precision signed integers for cryptographic protocols:
//! modular arithmetic, extended Euclid, prime generation and testing,
//! bounded random sampling, and canonical byte/hex serialization,
//! layered over a big-integer backend.

pub mod backend;
pub mod bn;
pub mod codec;
pub mod euclid;
pub mod math;
pub mod modular;
pub mod primes;
pub mod sample;

pub use bn::Bn;
pub use codec::BnError;
pub use euclid::GcdResult;
