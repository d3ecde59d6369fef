//! The decoded side of a blob: typed property values and the arena-backed
//! node tree they hang from.

pub mod node;
pub mod prop;
pub mod tree;
