//! Decoder for the flattened device tree blob format.
//!
//! A blob carries a fixed header, a list of reserved memory ranges, a
//! token-encoded structure block describing the node/property tree, and a
//! strings block holding property names. Decoding validates the header,
//! reads the reservation list, slices the two blocks, and replays the token
//! stream into an arena-backed tree of typed nodes and properties.

use vstd::prelude::*;

pub mod fdt;
pub mod tree;
pub mod utils;

use crate::fdt::blob::{FdtReserveEntry, FdtStructBlock, FdtStringsBlock};
use crate::fdt::header::FdtHeader;
use crate::tree::node::{DeviceTreeNode, NodeV};

verus! {

/// Errors arising while decoding a blob or reading a decoded tree.
#[derive(Clone, Copy, PartialEq, Eq, Structural, Debug)]
pub enum DeviceTreeError {
    /// The header's magic word was not the expected value (the observed word is carried).
    BadMagic(u32),
    /// The header's version was not the supported one (the observed version is carried).
    BadVersion(u32),
    /// A token broke the structural nesting rules of the structure block.
    BadToken,
    /// A property name offset pointed outside the strings block, or at no
    /// terminated string.
    BadStringsBlockOffset,
    /// Fewer than four bytes remained where a token had to be read.
    NotAToken,
    /// The input ended before a fixed-size record or a declared payload.
    TruncatedInput,
    /// A property payload failed to decode as its name-driven type.
    BadPropValue,
    /// An accessor asked a property value for the wrong variant.
    BadPropType,
    /// A property was handed twice to a consumer that takes it once.
    PropAlreadyParsed,
    /// A processing request named an invalid number of CPUs.
    CpuNumInvalid,
}

/// A decoded device tree: an arena of nodes addressed by stable indices,
/// with the root at index zero.
#[derive(Debug, PartialEq)]
pub struct DeviceTree {
    pub nodes: Vec<DeviceTreeNode>,
}

impl View for DeviceTree {
    type V = Seq<NodeV>;

    open spec fn view(&self) -> Seq<NodeV> {
        self.nodes.deep_view()
    }
}

/// A structurally split blob: validated header, reservation list, and the
/// two byte blocks still in their wire form.
pub struct DeviceTreeBlob<'a> {
    pub header: FdtHeader,
    pub memory_reservation_block: Vec<FdtReserveEntry>,
    pub structure_block: FdtStructBlock<'a>,
    pub strings_block: FdtStringsBlock<'a>,
}

/// The mathematical content of a split blob: the header value, the reserved
/// ranges, and the two blocks as byte sequences.
pub ghost struct BlobV {
    pub header: FdtHeader,
    pub rsv: Seq<FdtReserveEntry>,
    pub structure: Seq<u8>,
    pub strings: Seq<u8>,
}

impl<'a> View for DeviceTreeBlob<'a> {
    type V = BlobV;

    open spec fn view(&self) -> BlobV {
        BlobV {
            header: self.header,
            rsv: self.memory_reservation_block@,
            structure: self.structure_block@,
            strings: self.strings_block@,
        }
    }
}

impl<'a> DeviceTreeBlob<'a> {
    /// Gets a reference to the validated header.
    pub fn header(&self) -> (r: &FdtHeader)
        ensures
            r == self.header,
    {
        &self.header
    }

    /// Gets the list of reserved memory entries, the terminating sentinel excluded.
    pub fn memory_reservation_block(&self) -> (r: &[FdtReserveEntry])
        ensures
            r@ == self.memory_reservation_block@,
    {
        self.memory_reservation_block.as_slice()
    }
}

} // verus!
