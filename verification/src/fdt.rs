//! The wire side of the blob: block types, the fixed header, and the
//! decoding pass over the token stream.

pub mod blob;
pub mod header;
pub mod parsing;
