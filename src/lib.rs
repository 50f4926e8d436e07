//! Schema and codec generation for contract data types.
//!
//! Author type definitions (structures and tagged unions) are resolved into
//! type descriptors, given encode/decode logic against a structural value
//! representation, and serialized into a canonical schema byte string.

pub mod ident;
pub mod types;
pub mod value;
pub mod codec;
pub mod generate;
pub mod schema;
pub mod bignum;
pub mod pool;
