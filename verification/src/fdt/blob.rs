//! Views of the blob's sections and the token alphabet of the structure block.

use vstd::prelude::*;

verus! {

/// One reserved physical memory range: base address and size in bytes.
#[derive(Clone, Copy, PartialEq, Eq, Structural, Debug)]
pub struct FdtReserveEntry {
    pub address: u64,
    pub size: u64,
}

/// The structure block: the token-encoded span of the blob, never mutated
/// after being sliced from the input.
pub struct FdtStructBlock<'a>(pub &'a [u8]);

/// The strings block: the span holding the NUL-terminated property names,
/// referenced by byte offset.
pub struct FdtStringsBlock<'a>(pub &'a [u8]);

/// The fixed descriptor preceding a property's raw value: payload length and
/// the name's offset into the strings block.
#[derive(Clone, Copy, PartialEq, Eq, Structural, Debug)]
pub struct FdtPropDescribe {
    pub len: u32,
    pub name_off: u32,
}

/// One of the five control codes marking structural transitions in the
/// structure block.
#[derive(Clone, Copy, PartialEq, Eq, Structural, Debug)]
pub enum Token {
    TokenBeginNode,
    TokenEndNode,
    TokenProp,
    TokenNop,
    TokenEnd,
}

impl<'a> View for FdtStructBlock<'a> {
    type V = Seq<u8>;

    open spec fn view(&self) -> Seq<u8> {
        self.0@
    }
}

impl<'a> View for FdtStringsBlock<'a> {
    type V = Seq<u8>;

    open spec fn view(&self) -> Seq<u8> {
        self.0@
    }
}

} // verus!
