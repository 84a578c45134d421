//! Client-side construction of canonical, signable exchange instructions:
//! numeric canonicalization, client order identifiers, asset resolution,
//! order-type encoding and the assembly of wire requests and hash tuples.

pub mod errors;
pub mod text;
pub mod numeric;
pub mod cloid;
pub mod asset;
pub mod order;
pub mod cancel;
pub mod actions;
