//! Decoding and encoding of the parameters and points that a pairing engine
//! reads from untrusted byte buffers: length-prefixed moduli and group orders,
//! prime-field and extension-field elements, curve points and scalars.

pub mod num;
pub mod error;
mod bignum;
pub mod field;
pub mod extension;
pub mod point;
