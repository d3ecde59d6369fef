//! The fixed ten-word header at the front of a blob: parsing and the magic
//! and version checks that every decode must pass.

use vstd::prelude::*;
use vstd::slice::slice_subrange;

use crate::utils::{be_u32_of, spec_be_u32};
use crate::DeviceTreeError;

verus! {

/// The magic word every blob starts with.
pub const FDT_MAGIC: u32 = 0xd00dfeed;

/// The only supported version of the data structure.
pub const VERSION_NUMBER: u32 = 17;

/// The fixed header: ten unsigned 32-bit big-endian words.
#[derive(Clone, Copy, PartialEq, Eq, Structural, Debug)]
pub struct FdtHeader {
    /// The magic value, which shall be 0xd00dfeed.
    pub magic: u32,
    /// The total size in bytes of the devicetree data structure.
    pub totalsize: u32,
    /// The offset in bytes of the structure block from the beginning of the header.
    pub off_dt_struct: u32,
    /// The offset in bytes of the strings block from the beginning of the header.
    pub off_dt_strings: u32,
    /// The offset in bytes of the memory reservation block from the beginning of the header.
    pub off_mem_rsvmap: u32,
    /// The version of the devicetree data structure.
    pub version: u32,
    /// The lowest version with which the version used is backwards compatible.
    pub last_comp_version: u32,
    /// The physical ID of the system's boot CPU.
    pub boot_cpuid_phys: u32,
    /// The length in bytes of the strings block.
    pub size_dt_strings: u32,
    /// The length in bytes of the structure block.
    pub size_dt_struct: u32,
}

/// The header value encoded by the first forty bytes of `s`.
pub open spec fn spec_header(s: Seq<u8>) -> FdtHeader
    recommends
        s.len() >= 40,
{
    FdtHeader {
        magic: spec_be_u32(s.subrange(0, 4)),
        totalsize: spec_be_u32(s.subrange(4, 8)),
        off_dt_struct: spec_be_u32(s.subrange(8, 12)),
        off_dt_strings: spec_be_u32(s.subrange(12, 16)),
        off_mem_rsvmap: spec_be_u32(s.subrange(16, 20)),
        version: spec_be_u32(s.subrange(20, 24)),
        last_comp_version: spec_be_u32(s.subrange(24, 28)),
        boot_cpuid_phys: spec_be_u32(s.subrange(28, 32)),
        size_dt_strings: spec_be_u32(s.subrange(32, 36)),
        size_dt_struct: spec_be_u32(s.subrange(36, 40)),
    }
}

/// Whether the magic word is the expected one, else the error carrying it.
pub open spec fn spec_magic_check(h: FdtHeader) -> Result<(), DeviceTreeError> {
    if h.magic == FDT_MAGIC {
        Ok(())
    } else {
        Err(DeviceTreeError::BadMagic(h.magic))
    }
}

/// Whether the version is the supported one, else the error carrying it.
pub open spec fn spec_version_check(h: FdtHeader) -> Result<(), DeviceTreeError> {
    if h.version == VERSION_NUMBER {
        Ok(())
    } else {
        Err(DeviceTreeError::BadVersion(h.version))
    }
}

/// The magic check followed by the version check.
pub open spec fn spec_header_check(h: FdtHeader) -> Result<(), DeviceTreeError> {
    if h.magic != FDT_MAGIC {
        Err(DeviceTreeError::BadMagic(h.magic))
    } else if h.version != VERSION_NUMBER {
        Err(DeviceTreeError::BadVersion(h.version))
    } else {
        Ok(())
    }
}

/// The outcome of reading and checking a header at the front of `s`: the
/// header on success, the first failing check's error otherwise, and
/// `TruncatedInput` when fewer than forty bytes remain.
pub open spec fn spec_parse_header(s: Seq<u8>) -> Result<FdtHeader, DeviceTreeError> {
    if s.len() < 40 {
        Err(DeviceTreeError::TruncatedInput)
    } else {
        match spec_header_check(spec_header(s)) {
            Ok(_) => Ok(spec_header(s)),
            Err(e) => Err(e),
        }
    }
}

impl FdtHeader {
    /// The offset in bytes of the structure block from the beginning of the header.
    pub fn off_dt_struct(&self) -> (r: u32)
        ensures
            r == self.off_dt_struct,
    {
        self.off_dt_struct
    }

    /// The offset in bytes of the strings block from the beginning of the header.
    pub fn off_dt_strings(&self) -> (r: u32)
        ensures
            r == self.off_dt_strings,
    {
        self.off_dt_strings
    }

    /// The offset in bytes of the memory reservation block from the beginning of the header.
    pub fn off_mem_rsvmap(&self) -> (r: u32)
        ensures
            r == self.off_mem_rsvmap,
    {
        self.off_mem_rsvmap
    }

    /// The lowest version with which the version used is backwards compatible.
    pub fn last_comp_version(&self) -> (r: u32)
        ensures
            r == self.last_comp_version,
    {
        self.last_comp_version
    }

    /// The physical ID of the system's boot CPU.
    pub fn boot_cpuid_phys(&self) -> (r: u32)
        ensures
            r == self.boot_cpuid_phys,
    {
        self.boot_cpuid_phys
    }

    /// Read the ten header words from the front of `bytes`, advancing past
    /// them, and run both checks.
    ///
    /// Fails with `TruncatedInput`, leaving `bytes` unread, when fewer than
    /// forty bytes remain; otherwise consumes exactly forty bytes and fails
    /// with the first failing check's error, if any.
    pub fn from_bytes(bytes: &mut &[u8]) -> (r: Result<Self, DeviceTreeError>)
        ensures
            r == spec_parse_header(old(bytes)@),
            old(bytes)@.len() >= 40 ==> final(bytes)@ == old(bytes)@.skip(40),
            old(bytes)@.len() < 40 ==> final(bytes)@ == old(bytes)@,
    {
        let b = *bytes;
        if b.len() < 40 {
            return Err(DeviceTreeError::TruncatedInput);
        }
        let header = Self {
            magic: be_u32_of(slice_subrange(b, 0, 4)),
            totalsize: be_u32_of(slice_subrange(b, 4, 8)),
            off_dt_struct: be_u32_of(slice_subrange(b, 8, 12)),
            off_dt_strings: be_u32_of(slice_subrange(b, 12, 16)),
            off_mem_rsvmap: be_u32_of(slice_subrange(b, 16, 20)),
            version: be_u32_of(slice_subrange(b, 20, 24)),
            last_comp_version: be_u32_of(slice_subrange(b, 24, 28)),
            boot_cpuid_phys: be_u32_of(slice_subrange(b, 28, 32)),
            size_dt_strings: be_u32_of(slice_subrange(b, 32, 36)),
            size_dt_struct: be_u32_of(slice_subrange(b, 36, 40)),
        };
        *bytes = slice_subrange(b, 40, b.len());
        match header.check() {
            Ok(_) => Ok(header),
            Err(error) => Err(error),
        }
    }

    /// Accept exactly the expected magic word, else `BadMagic` with the
    /// observed value.
    pub fn magic_check(&self) -> (r: Result<(), DeviceTreeError>)
        ensures
            r == spec_magic_check(*self),
    {
        if self.magic == FDT_MAGIC {
            Ok(())
        } else {
            Err(DeviceTreeError::BadMagic(self.magic))
        }
    }

    /// Accept exactly the supported version, else `BadVersion` with the
    /// observed value.
    pub fn version_check(&self) -> (r: Result<(), DeviceTreeError>)
        ensures
            r == spec_version_check(*self),
    {
        if self.version == VERSION_NUMBER {
            Ok(())
        } else {
            Err(DeviceTreeError::BadVersion(self.version))
        }
    }

    /// The magic check, then the version check; the first failure wins.
    pub fn check(&self) -> (r: Result<(), DeviceTreeError>)
        ensures
            r == spec_header_check(*self),
    {
        match self.magic_check() {
            Ok(_) => self.version_check(),
            Err(e) => Err(e),
        }
    }

    /// The declared total size of the blob in bytes.
    pub fn totalsize(&self) -> (r: usize)
        ensures
            r == self.totalsize as usize,
    {
        self.totalsize as usize
    }

    /// The declared size of the structure block in bytes.
    pub fn size_dt_struct(&self) -> (r: usize)
        ensures
            r == self.size_dt_struct as usize,
    {
        self.size_dt_struct as usize
    }

    /// The declared size of the strings block in bytes.
    pub fn size_dt_strings(&self) -> (r: usize)
        ensures
            r == self.size_dt_strings as usize,
    {
        self.size_dt_strings as usize
    }
}

/// Law: altering only the version word of a header that parses successfully
/// makes parsing fail with `BadVersion` carrying the altered word's value.
pub proof fn lemma_version_tamper(s: Seq<u8>, s2: Seq<u8>)
    requires
        spec_parse_header(s) is Ok,
        s2.len() == s.len(),
        forall|i: int| 0 <= i < s.len() && !(20 <= i < 24) ==> s2[i] == s[i],
        spec_be_u32(s2.subrange(20, 24)) != VERSION_NUMBER,
    ensures
        spec_parse_header(s2) == Err::<FdtHeader, DeviceTreeError>(
            DeviceTreeError::BadVersion(spec_be_u32(s2.subrange(20, 24))),
        ),
{
    assert(s2.subrange(0, 4) =~= s.subrange(0, 4));
    assert(spec_header(s2).magic == spec_header(s).magic);
    assert(spec_header(s2).version == spec_be_u32(s2.subrange(20, 24)));
}

/// Law: altering only the magic word of a header that parses successfully
/// makes parsing fail with `BadMagic` carrying the altered word's value.
pub proof fn lemma_magic_tamper(s: Seq<u8>, s2: Seq<u8>)
    requires
        spec_parse_header(s) is Ok,
        s2.len() == s.len(),
        forall|i: int| 0 <= i < s.len() && !(0 <= i < 4) ==> s2[i] == s[i],
        spec_be_u32(s2.subrange(0, 4)) != FDT_MAGIC,
    ensures
        spec_parse_header(s2) == Err::<FdtHeader, DeviceTreeError>(
            DeviceTreeError::BadMagic(spec_be_u32(s2.subrange(0, 4))),
        ),
{
    assert(spec_header(s2).magic == spec_be_u32(s2.subrange(0, 4)));
}

} // verus!
