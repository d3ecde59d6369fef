//! Typed property values and the name-driven coercion of raw payload bytes.
//!
//! Each node of a devicetree has properties that describe its
//! characteristics. A property's wire form is an untyped byte payload; a
//! static table keyed by the property's exact name picks the decoded shape.

use vstd::prelude::*;
use vstd::slice::slice_to_vec;
use vstd::slice::slice_subrange;
use vstd::string::{StringExecFns, StringSliceAdditionalSpecFns};
use vstd::utf8::{decode_utf8, valid_utf8};

use crate::utils::{
    be_u32_of, bytes_to_str, find_nul, hex_digit_str, hex_str, join_parts, read_first_be_u32,
    read_first_be_u64, spec_be_u32, spec_be_u64, spec_find_nul, spec_hex, spec_hex_digit,
    spec_join, spec_quoted_parts, str_eq, vec_strings_fmt,
};
use crate::DeviceTreeError;

verus! {

/// The value of a `status` property.
#[derive(Clone, Copy, PartialEq, Eq, Structural, Debug)]
pub enum StatusValue {
    Okay,
    Disabled,
    Reserved,
    Fail,
}

/// A sequence of (address-cells, size-cells) pairs: one of the shapes of a
/// prop-encoded-array, used by `reg`.
#[derive(Clone, PartialEq, Debug)]
pub struct Pairs(pub Vec<(Vec<u32>, Vec<u32>)>);

/// A sequence of (child-address, parent-address, size) cell triplets: the
/// shape used by `ranges`.
#[derive(Clone, PartialEq, Debug)]
pub struct Triplets(pub Vec<(Vec<u32>, Vec<u32>, Vec<u32>)>);

impl Pairs {
    /// An empty pair list.
    pub fn new() -> (r: Self)
        ensures
            r@.len() == 0,
    {
        Pairs(Vec::new())
    }
}

impl View for Pairs {
    type V = Seq<(Seq<u32>, Seq<u32>)>;

    open spec fn view(&self) -> Seq<(Seq<u32>, Seq<u32>)> {
        self.0.deep_view()
    }
}

impl View for Triplets {
    type V = Seq<(Seq<u32>, Seq<u32>, Seq<u32>)>;

    open spec fn view(&self) -> Seq<(Seq<u32>, Seq<u32>, Seq<u32>)> {
        self.0.deep_view()
    }
}

/// The number of 32-bit cells encoding the address and size parts of a child
/// node's `reg` property, declared by `#address-cells` and `#size-cells` on
/// the parent.
#[derive(Clone, Copy, PartialEq, Eq, Structural, Debug)]
pub struct NumCells {
    pub address_cells: u32,
    pub size_cells: u32,
}

impl NumCells {
    /// The defaults that hold where no ancestor declares the cell counts:
    /// two address cells and one size cell.
    pub fn new() -> (r: Self)
        ensures
            r == (NumCells { address_cells: 2u32, size_cells: 1u32 }),
    {
        NumCells { address_cells: 2, size_cells: 1 }
    }

    /// Set both cell counts.
    pub fn set(&mut self, address_cells: u32, size_cells: u32)
        ensures
            *final(self) == (NumCells { address_cells, size_cells }),
    {
        self.address_cells = address_cells;
        self.size_cells = size_cells;
    }

    /// Set the address-cell count alone.
    pub fn set_addr_cells(&mut self, addr_cells: u32)
        ensures
            *final(self) == (NumCells { address_cells: addr_cells, ..*old(self) }),
    {
        self.address_cells = addr_cells;
    }

    /// Set the size-cell count alone.
    pub fn set_size_cells(&mut self, size_cells: u32)
        ensures
            *final(self) == (NumCells { size_cells, ..*old(self) }),
    {
        self.size_cells = size_cells;
    }
}

/// A property's typed value.
#[derive(Clone, PartialEq, Debug)]
pub enum DeviceTreeProperty {
    /// A presence-only marker with a zero-length payload.
    Empty,
    /// A single NUL-terminated UTF-8 string.
    String(String),
    /// A sequence of NUL-separated UTF-8 strings.
    StringList(Vec<String>),
    /// A single big-endian 32-bit word.
    U32(u32),
    /// A single big-endian 64-bit word.
    U64(u64),
    /// A byte array that is meaningful as bytes.
    Bytes(Vec<u8>),
    /// An opaque, undecoded byte array.
    Raw(Vec<u8>),
    /// Address/size cell pairs, as `reg` carries.
    Pairs(Pairs),
    /// Address/address/size cell triplets, as `ranges` carries.
    Triplets(Option<Triplets>),
    /// A decoded `status` value.
    Status(StatusValue),
}

/// The mathematical content of a typed property value.
pub ghost enum PropV {
    Empty,
    Str(Seq<char>),
    StrList(Seq<Seq<char>>),
    U32(u32),
    U64(u64),
    Bytes(Seq<u8>),
    Raw(Seq<u8>),
    Pairs(Seq<(Seq<u32>, Seq<u32>)>),
    Triplets(Option<Seq<(Seq<u32>, Seq<u32>, Seq<u32>)>>),
    Status(StatusValue),
}

impl View for DeviceTreeProperty {
    type V = PropV;

    open spec fn view(&self) -> PropV {
        match self {
            DeviceTreeProperty::Empty => PropV::Empty,
            DeviceTreeProperty::String(s) => PropV::Str(s@),
            DeviceTreeProperty::StringList(l) => PropV::StrList(l.deep_view()),
            DeviceTreeProperty::U32(v) => PropV::U32(*v),
            DeviceTreeProperty::U64(v) => PropV::U64(*v),
            DeviceTreeProperty::Bytes(b) => PropV::Bytes(b@),
            DeviceTreeProperty::Raw(b) => PropV::Raw(b@),
            DeviceTreeProperty::Pairs(p) => PropV::Pairs(p@),
            DeviceTreeProperty::Triplets(t) => PropV::Triplets(
                match t {
                    Some(v) => Some(v@),
                    None => None,
                },
            ),
            DeviceTreeProperty::Status(s) => PropV::Status(*s),
        }
    }
}

/// The decode strategy a property name selects.
#[derive(Clone, Copy, PartialEq, Eq, Structural, Debug)]
pub enum DeviceTreePropertyType {
    Empty,
    StringList,
    String,
    U32,
    U64,
    Bytes,
    Raw,
}

/// The static coercion table: the decode strategy for each well-known
/// property name, and `Raw` for every other name.
pub open spec fn spec_type_of_name(name: Seq<char>) -> DeviceTreePropertyType {
    if name == "#address-cells"@ || name == "#size-cells"@ || name == "#interrupt-cells"@ || name
        == "phandle"@ || name == "virtual-reg"@ || name == "timebase-frequency"@ || name
        == "clock-frequency"@ {
        DeviceTreePropertyType::U32
    } else if name == "compatible"@ {
        DeviceTreePropertyType::StringList
    } else if name == "model"@ || name == "status"@ || name == "name"@ || name == "device_type"@ {
        DeviceTreePropertyType::String
    } else if name == "dma-coherent"@ {
        DeviceTreePropertyType::Empty
    } else if name == "local-mac-address"@ {
        DeviceTreePropertyType::Bytes
    } else {
        DeviceTreePropertyType::Raw
    }
}

impl DeviceTreePropertyType {
    /// Look `name` up in the static coercion table.
    pub fn from_name(name: &str) -> (r: Self)
        ensures
            r == spec_type_of_name(name@),
    {
        if str_eq(name, "#address-cells") || str_eq(name, "#size-cells") || str_eq(
            name,
            "#interrupt-cells",
        ) || str_eq(name, "phandle") || str_eq(name, "virtual-reg") || str_eq(
            name,
            "timebase-frequency",
        ) || str_eq(name, "clock-frequency") {
            DeviceTreePropertyType::U32
        } else if str_eq(name, "compatible") {
            DeviceTreePropertyType::StringList
        } else if str_eq(name, "model") || str_eq(name, "status") || str_eq(name, "name")
            || str_eq(name, "device_type") {
            DeviceTreePropertyType::String
        } else if str_eq(name, "dma-coherent") {
            DeviceTreePropertyType::Empty
        } else if str_eq(name, "local-mac-address") {
            DeviceTreePropertyType::Bytes
        } else {
            DeviceTreePropertyType::Raw
        }
    }
}

/// The payload bytes before the first NUL, or the whole payload if none.
pub open spec fn spec_nul_prefix(p: Seq<u8>) -> Seq<u8> {
    match spec_find_nul(p, 0) {
        Some(n) => p.take(n),
        None => p,
    }
}

/// The NUL-separated string list packed in `p`: each element must be
/// NUL-terminated valid UTF-8, and an empty payload is an empty list.
pub open spec fn spec_stringlist_from(p: Seq<u8>, pos: int) -> Result<
    Seq<Seq<char>>,
    DeviceTreeError,
>
    decreases p.len() - pos,
    via spec_stringlist_from_decreases
{
    if pos < 0 || pos >= p.len() {
        Ok(Seq::empty())
    } else {
        match spec_find_nul(p, pos) {
            None => Err(DeviceTreeError::BadPropValue),
            Some(n) => {
                let head = p.subrange(pos, n);
                if !valid_utf8(head) {
                    Err(DeviceTreeError::BadPropValue)
                } else {
                    match spec_stringlist_from(p, n + 1) {
                        Ok(rest) => Ok(seq![decode_utf8(head)] + rest),
                        Err(e) => Err(e),
                    }
                }
            },
        }
    }
}

#[via_fn]
proof fn spec_stringlist_from_decreases(p: Seq<u8>, pos: int) {
    if 0 <= pos < p.len() {
        crate::utils::lemma_find_nul_props(p, pos);
    }
}

/// The typed value that payload `p` decodes to under a property named
/// `name`, per the static coercion table; `BadPropValue` where the payload
/// does not fit the selected shape.
pub open spec fn spec_coerce(name: Seq<char>, p: Seq<u8>) -> Result<PropV, DeviceTreeError> {
    match spec_type_of_name(name) {
        DeviceTreePropertyType::U32 => if p.len() >= 4 {
            Ok(PropV::U32(spec_be_u32(p.take(4))))
        } else {
            Err(DeviceTreeError::BadPropValue)
        },
        DeviceTreePropertyType::U64 => if p.len() >= 8 {
            Ok(PropV::U64(spec_be_u64(p.take(8))))
        } else {
            Err(DeviceTreeError::BadPropValue)
        },
        DeviceTreePropertyType::StringList => match spec_stringlist_from(p, 0) {
            Ok(l) => Ok(PropV::StrList(l)),
            Err(e) => Err(e),
        },
        DeviceTreePropertyType::String => if valid_utf8(spec_nul_prefix(p)) {
            Ok(PropV::Str(decode_utf8(spec_nul_prefix(p))))
        } else {
            Err(DeviceTreeError::BadPropValue)
        },
        DeviceTreePropertyType::Empty => if p.len() == 0 {
            Ok(PropV::Empty)
        } else {
            Err(DeviceTreeError::BadPropValue)
        },
        DeviceTreePropertyType::Bytes => Ok(PropV::Bytes(p)),
        DeviceTreePropertyType::Raw => Ok(PropV::Raw(p)),
    }
}

impl DeviceTreeProperty {
    /// Decode the raw payload `bytes` of a property named `name` into its
    /// typed value, per the static coercion table.
    ///
    /// `reg`- and `ranges`-shaped values are not name-keyed: they stay
    /// `Raw` here, since their cell layout depends on counts inherited from
    /// ancestors that a single top-down pass may not have resolved yet, and
    /// are decoded on access through `Pairs::from_raw` and
    /// `Triplets::from_raw` with the owning node's effective cell counts.
    pub fn from_bytes(name: &str, bytes: &[u8]) -> (r: Result<Self, DeviceTreeError>)
        ensures
            r matches Ok(p) ==> (spec_coerce(name@, bytes@) matches Ok(v) && p@ == v),
            r matches Err(e) ==> spec_coerce(name@, bytes@) == Err::<PropV, DeviceTreeError>(e),
    {
        match DeviceTreePropertyType::from_name(name) {
            DeviceTreePropertyType::U32 => match read_first_be_u32(bytes) {
                Some(v) => Ok(DeviceTreeProperty::U32(v)),
                None => Err(DeviceTreeError::BadPropValue),
            },
            DeviceTreePropertyType::U64 => match read_first_be_u64(bytes) {
                Some(v) => Ok(DeviceTreeProperty::U64(v)),
                None => Err(DeviceTreeError::BadPropValue),
            },
            DeviceTreePropertyType::StringList => match stringlist_of_bytes(bytes) {
                Ok(l) => Ok(DeviceTreeProperty::StringList(l)),
                Err(e) => Err(e),
            },
            DeviceTreePropertyType::String => {
                let prefix = match find_nul(bytes, 0) {
                    Some(n) => slice_subrange(bytes, 0, n),
                    None => bytes,
                };
                match bytes_to_str(prefix) {
                    Some(s) => {
                        proof {
                            vstd::utf8::encode_utf8_decode_utf8(s@);
                        }
                        Ok(DeviceTreeProperty::String(s.to_owned()))
                    },
                    None => Err(DeviceTreeError::BadPropValue),
                }
            },
            DeviceTreePropertyType::Empty => {
                if bytes.len() == 0 {
                    Ok(DeviceTreeProperty::Empty)
                } else {
                    Err(DeviceTreeError::BadPropValue)
                }
            },
            DeviceTreePropertyType::Bytes => Ok(DeviceTreeProperty::Bytes(slice_to_vec(bytes))),
            DeviceTreePropertyType::Raw => Ok(DeviceTreeProperty::Raw(slice_to_vec(bytes))),
        }
    }

    /// The single 32-bit word this value holds, or `BadPropType` for any
    /// other variant.
    pub fn u32(&self) -> (r: Result<u32, DeviceTreeError>)
        ensures
            self@ matches PropV::U32(v) ==> r == Ok::<u32, DeviceTreeError>(v),
            !(self@ is U32) ==> r == Err::<u32, DeviceTreeError>(DeviceTreeError::BadPropType),
    {
        match self {
            DeviceTreeProperty::U32(v) => Ok(*v),
            _ => Err(DeviceTreeError::BadPropType),
        }
    }

    /// The single 64-bit word this value holds, or `BadPropType` for any
    /// other variant.
    pub fn u64(&self) -> (r: Result<u64, DeviceTreeError>)
        ensures
            self@ matches PropV::U64(v) ==> r == Ok::<u64, DeviceTreeError>(v),
            !(self@ is U64) ==> r == Err::<u64, DeviceTreeError>(DeviceTreeError::BadPropType),
    {
        match self {
            DeviceTreeProperty::U64(v) => Ok(*v),
            _ => Err(DeviceTreeError::BadPropType),
        }
    }

    /// The single string this value holds, or `BadPropType` for any other
    /// variant.
    pub fn string(&self) -> (r: Result<String, DeviceTreeError>)
        ensures
            self@ matches PropV::Str(c) ==> (r matches Ok(v) && v@ == c),
            !(self@ is Str) ==> r == Err::<String, DeviceTreeError>(DeviceTreeError::BadPropType),
    {
        match self {
            DeviceTreeProperty::String(s) => Ok(s.clone()),
            _ => Err(DeviceTreeError::BadPropType),
        }
    }

    /// The string list this value holds, or `BadPropType` for any other
    /// variant.
    pub fn stringlist(&self) -> (r: Result<Vec<String>, DeviceTreeError>)
        ensures
            self@ matches PropV::StrList(c) ==> (r matches Ok(v) && v.deep_view() == c),
            !(self@ is StrList) ==> r == Err::<Vec<String>, DeviceTreeError>(
                DeviceTreeError::BadPropType,
            ),
    {
        match self {
            DeviceTreeProperty::StringList(l) => {
                let out = l.clone();
                proof {
                    assert forall|i: int| 0 <= i < l@.len() implies out@[i] == l@[i] by {
                        assert(vstd::pervasive::cloned::<String>(l@[i], out@[i]));
                    }
                    assert(out@ =~= l@);
                }
                Ok(out)
            },
            _ => Err(DeviceTreeError::BadPropType),
        }
    }

    /// The byte array this value holds, or `BadPropType` for any other
    /// variant.
    pub fn bytes(&self) -> (r: Result<Vec<u8>, DeviceTreeError>)
        ensures
            self@ matches PropV::Bytes(c) ==> (r matches Ok(v) && v@ == c),
            !(self@ is Bytes) ==> r == Err::<Vec<u8>, DeviceTreeError>(DeviceTreeError::BadPropType),
    {
        match self {
            DeviceTreeProperty::Bytes(b) => Ok(slice_to_vec(b.as_slice())),
            _ => Err(DeviceTreeError::BadPropType),
        }
    }
}

/// The first `k` 32-bit cells of `s`, each read big-endian.
pub open spec fn spec_cells(s: Seq<u8>, k: int) -> Seq<u32> {
    Seq::new(k as nat, |i: int| spec_be_u32(s.subrange(4 * i, 4 * i + 4)))
}

/// The (address, size) cell groups packed in `s`, read with `a` address
/// cells and `z` size cells per group; meaningful where the length is a
/// multiple of the group size.
pub open spec fn spec_pair_groups(s: Seq<u8>, a: int, z: int) -> Seq<(Seq<u32>, Seq<u32>)>
    decreases s.len(),
{
    if a < 0 || z < 0 || a + z <= 0 || s.len() < 4 * (a + z) {
        Seq::empty()
    } else {
        seq![(spec_cells(s, a), spec_cells(s.skip(4 * a), z))] + spec_pair_groups(
            s.skip(4 * (a + z)),
            a,
            z,
        )
    }
}

/// The (child-address, parent-address, size) cell groups packed in `s`,
/// read with `a`, `b` and `z` cells per part.
pub open spec fn spec_triplet_groups(s: Seq<u8>, a: int, b: int, z: int) -> Seq<
    (Seq<u32>, Seq<u32>, Seq<u32>),
>
    decreases s.len(),
{
    if a < 0 || b < 0 || z < 0 || a + b + z <= 0 || s.len() < 4 * (a + b + z) {
        Seq::empty()
    } else {
        seq![
            (
                spec_cells(s, a),
                spec_cells(s.skip(4 * a), b),
                spec_cells(s.skip(4 * (a + b)), z),
            ),
        ] + spec_triplet_groups(s.skip(4 * (a + b + z)), a, b, z)
    }
}

/// Whether a payload of `len` bytes splits exactly into groups of `cells`
/// 32-bit cells: the group is nonempty and the length a multiple of its
/// byte size.
pub open spec fn spec_splits_exactly(len: int, cells: int) -> bool {
    cells > 0 && len % (4 * cells) == 0
}

/// The `k` cells at byte offset `off` of `s`.
fn read_cells(s: &[u8], off: usize, k: usize) -> (r: Vec<u32>)
    requires
        off + 4 * k <= s@.len(),
    ensures
        r@ == spec_cells(s@.skip(off as int), k as int),
{
    let slen = s.len();
    let mut out: Vec<u32> = Vec::new();
    let mut j: usize = 0;
    while j < k
        invariant
            slen == s@.len(),
            off + 4 * k <= slen,
            j <= k,
            out@ =~= spec_cells(s@.skip(off as int), k as int).take(j as int),
        decreases k - j,
    {
        let v = be_u32_of(slice_subrange(s, off + 4 * j, off + 4 * j + 4));
        out.push(v);
        proof {
            assert(s@.skip(off as int).subrange(4 * j as int, 4 * j as int + 4) =~= s@.subrange(
                off + 4 * j,
                off + 4 * j + 4,
            ));
            assert(out@ =~= spec_cells(s@.skip(off as int), k as int).take(j + 1));
        }
        j = j + 1;
    }
    proof {
        assert(spec_cells(s@.skip(off as int), k as int).take(k as int) =~= spec_cells(
            s@.skip(off as int),
            k as int,
        ));
    }
    out
}

impl Pairs {
    /// Decode a `reg`-shaped payload into (address, size) cell pairs, using
    /// `cells` as the effective cell counts declared by the owning node's
    /// ancestors.
    ///
    /// Fails with `BadPropValue` where the payload is not an exact sequence
    /// of such groups.
    pub fn from_raw(bytes: &[u8], cells: NumCells) -> (r: Result<Self, DeviceTreeError>)
        ensures
            spec_splits_exactly(bytes@.len() as int, cells.address_cells + cells.size_cells) ==> (
            r matches Ok(p) && p@ == spec_pair_groups(
                bytes@,
                cells.address_cells as int,
                cells.size_cells as int,
            )),
            !spec_splits_exactly(bytes@.len() as int, cells.address_cells + cells.size_cells)
                ==> r == Err::<Pairs, DeviceTreeError>(DeviceTreeError::BadPropValue),
    {
        let n = bytes.len();
        let a = cells.address_cells as usize;
        let z = cells.size_cells as usize;
        let group = match a.checked_add(z) {
            Some(g) => g,
            None => {
                proof {
                    vstd::arithmetic::div_mod::lemma_small_mod(
                        bytes@.len(),
                        (4 * (a + z)) as nat,
                    );
                }
                return if n == 0 {
                    Ok(Pairs(Vec::new()))
                } else {
                    Err(DeviceTreeError::BadPropValue)
                };
            },
        };
        let group_bytes = match group.checked_mul(4) {
            Some(g) => g,
            None => {
                proof {
                    vstd::arithmetic::div_mod::lemma_small_mod(
                        bytes@.len(),
                        (4 * (a + z)) as nat,
                    );
                }
                return if n == 0 {
                    Ok(Pairs(Vec::new()))
                } else {
                    Err(DeviceTreeError::BadPropValue)
                };
            },
        };
        if group == 0 {
            return Err(DeviceTreeError::BadPropValue);
        }
        if n % group_bytes != 0 {
            return Err(DeviceTreeError::BadPropValue);
        }
        let mut out: Vec<(Vec<u32>, Vec<u32>)> = Vec::new();
        let mut pos: usize = 0;
        proof {
            assert(bytes@.skip(0) =~= bytes@);
            assert(out.deep_view() =~= Seq::<(Seq<u32>, Seq<u32>)>::empty());
        }
        while pos < n
            invariant
                n == bytes@.len(),
                pos <= n,
                group_bytes == 4 * (a + z),
                a == cells.address_cells,
                z == cells.size_cells,
                group_bytes > 0,
                (n - pos) % (group_bytes as int) == 0,
                spec_pair_groups(bytes@, a as int, z as int) =~= out.deep_view()
                    + spec_pair_groups(bytes@.skip(pos as int), a as int, z as int),
            decreases n - pos,
        {
            proof {
                assert(n - pos >= group_bytes) by {
                    if n - pos < group_bytes {
                        vstd::arithmetic::div_mod::lemma_small_mod(
                            (n - pos) as nat,
                            group_bytes as nat,
                        );
                    }
                }
            }
            let addr = read_cells(bytes, pos, a);
            let size = read_cells(bytes, pos + 4 * a, z);
            let ghost pre = out.deep_view();
            out.push((addr, size));
            proof {
                let rest = bytes@.skip(pos as int);
                assert(rest.skip(4 * a as int) =~= bytes@.skip(pos + 4 * a));
                assert(rest.skip(4 * (a + z) as int) =~= bytes@.skip(pos + group_bytes));
                assert(out.deep_view() =~~= pre.push(
                    (spec_cells(rest, a as int), spec_cells(rest.skip(4 * a as int), z as int)),
                ));
                assert(pre.push(
                    (spec_cells(rest, a as int), spec_cells(rest.skip(4 * a as int), z as int)),
                ) + spec_pair_groups(bytes@.skip(pos + group_bytes), a as int, z as int) =~= pre
                    + spec_pair_groups(rest, a as int, z as int));
                vstd::arithmetic::div_mod::lemma_mod_sub_multiples_vanish(
                    (n - pos) as int,
                    group_bytes as int,
                );
            }
            pos = pos + group_bytes;
        }
        proof {
            assert(out.deep_view() + spec_pair_groups(
                bytes@.skip(n as int),
                a as int,
                z as int,
            ) =~= out.deep_view());
        }
        Ok(Pairs(out))
    }
}

impl Triplets {
    /// Decode a `ranges`-shaped payload into (child-address, parent-address,
    /// size) cell triplets, using the child's and parent's effective address
    /// cells and the child's size cells.
    ///
    /// Fails with `BadPropValue` where the payload is not an exact sequence
    /// of such groups.
    pub fn from_raw(
        bytes: &[u8],
        child_address_cells: u32,
        parent_address_cells: u32,
        size_cells: u32,
    ) -> (r: Result<Self, DeviceTreeError>)
        ensures
            spec_splits_exactly(
                bytes@.len() as int,
                child_address_cells + parent_address_cells + size_cells,
            ) ==> (r matches Ok(t) && t@ == spec_triplet_groups(
                bytes@,
                child_address_cells as int,
                parent_address_cells as int,
                size_cells as int,
            )),
            !spec_splits_exactly(
                bytes@.len() as int,
                child_address_cells + parent_address_cells + size_cells,
            ) ==> r == Err::<Triplets, DeviceTreeError>(DeviceTreeError::BadPropValue),
    {
        let n = bytes.len();
        let a = child_address_cells as usize;
        let b = parent_address_cells as usize;
        let z = size_cells as usize;
        let group = match a.checked_add(b) {
            Some(g) => match g.checked_add(z) {
                Some(g2) => g2,
                None => {
                    proof {
                        vstd::arithmetic::div_mod::lemma_small_mod(
                            bytes@.len(),
                            (4 * (a + b + z)) as nat,
                        );
                    }
                    return if n == 0 {
                        Ok(Triplets(Vec::new()))
                    } else {
                        Err(DeviceTreeError::BadPropValue)
                    };
                },
            },
            None => {
                proof {
                    vstd::arithmetic::div_mod::lemma_small_mod(
                        bytes@.len(),
                        (4 * (a + b + z)) as nat,
                    );
                }
                return if n == 0 {
                    Ok(Triplets(Vec::new()))
                } else {
                    Err(DeviceTreeError::BadPropValue)
                };
            },
        };
        let group_bytes = match group.checked_mul(4) {
            Some(g) => g,
            None => {
                proof {
                    vstd::arithmetic::div_mod::lemma_small_mod(
                        bytes@.len(),
                        (4 * (a + b + z)) as nat,
                    );
                }
                return if n == 0 {
                    Ok(Triplets(Vec::new()))
                } else {
                    Err(DeviceTreeError::BadPropValue)
                };
            },
        };
        if group == 0 {
            return Err(DeviceTreeError::BadPropValue);
        }
        if n % group_bytes != 0 {
            return Err(DeviceTreeError::BadPropValue);
        }
        let mut out: Vec<(Vec<u32>, Vec<u32>, Vec<u32>)> = Vec::new();
        let mut pos: usize = 0;
        proof {
            assert(bytes@.skip(0) =~= bytes@);
            assert(out.deep_view() =~= Seq::<(Seq<u32>, Seq<u32>, Seq<u32>)>::empty());
        }
        while pos < n
            invariant
                n == bytes@.len(),
                pos <= n,
                group_bytes == 4 * (a + b + z),
                a == child_address_cells,
                b == parent_address_cells,
                z == size_cells,
                group_bytes > 0,
                (n - pos) % (group_bytes as int) == 0,
                spec_triplet_groups(bytes@, a as int, b as int, z as int) =~= out.deep_view()
                    + spec_triplet_groups(bytes@.skip(pos as int), a as int, b as int, z as int),
            decreases n - pos,
        {
            proof {
                assert(n - pos >= group_bytes) by {
                    if n - pos < group_bytes {
                        vstd::arithmetic::div_mod::lemma_small_mod(
                            (n - pos) as nat,
                            group_bytes as nat,
                        );
                    }
                }
            }
            let child = read_cells(bytes, pos, a);
            let parent = read_cells(bytes, pos + 4 * a, b);
            let size = read_cells(bytes, pos + 4 * (a + b), z);
            let ghost pre = out.deep_view();
            out.push((child, parent, size));
            proof {
                let rest = bytes@.skip(pos as int);
                assert(rest.skip(4 * a as int) =~= bytes@.skip(pos + 4 * a));
                assert(rest.skip(4 * (a + b) as int) =~= bytes@.skip(pos + 4 * (a + b)));
                assert(rest.skip(4 * (a + b + z) as int) =~= bytes@.skip(pos + group_bytes));
                assert(out.deep_view() =~~= pre.push(
                    (
                        spec_cells(rest, a as int),
                        spec_cells(rest.skip(4 * a as int), b as int),
                        spec_cells(rest.skip(4 * (a + b) as int), z as int),
                    ),
                ));
                assert(pre.push(
                    (
                        spec_cells(rest, a as int),
                        spec_cells(rest.skip(4 * a as int), b as int),
                        spec_cells(rest.skip(4 * (a + b) as int), z as int),
                    ),
                ) + spec_triplet_groups(bytes@.skip(pos + group_bytes), a as int, b as int, z as int)
                    =~= pre + spec_triplet_groups(rest, a as int, b as int, z as int));
                vstd::arithmetic::div_mod::lemma_mod_sub_multiples_vanish(
                    (n - pos) as int,
                    group_bytes as int,
                );
            }
            pos = pos + group_bytes;
        }
        proof {
            assert(out.deep_view() + spec_triplet_groups(
                bytes@.skip(n as int),
                a as int,
                b as int,
                z as int,
            ) =~= out.deep_view());
        }
        Ok(Triplets(out))
    }
}

/// The rendering of a `status` value.
pub open spec fn spec_status_fmt(v: StatusValue) -> Seq<char> {
    match v {
        StatusValue::Okay => "okay"@,
        StatusValue::Disabled => "disabled"@,
        StatusValue::Reserved => "reserved"@,
        StatusValue::Fail => "fail"@,
    }
}

/// A 32-bit cell rendered as 0x-prefixed uppercase hexadecimal.
pub open spec fn spec_hex_cell(v: u32) -> Seq<char> {
    seq!['0', 'x'] + spec_hex(v as int)
}

/// The rendered cells of one u32 sequence, from position `i` on.
pub open spec fn spec_cells_parts_from(cells: Seq<u32>, i: int) -> Seq<Seq<char>>
    decreases cells.len() - i,
{
    if i < 0 || i >= cells.len() {
        Seq::empty()
    } else {
        seq![spec_hex_cell(cells[i])] + spec_cells_parts_from(cells, i + 1)
    }
}

/// The rendered cells of a pair list, pair by pair, from position `i` on.
pub open spec fn spec_pairs_parts_from(ps: Seq<(Seq<u32>, Seq<u32>)>, i: int) -> Seq<Seq<char>>
    decreases ps.len() - i,
{
    if i < 0 || i >= ps.len() {
        Seq::empty()
    } else {
        spec_cells_parts_from(ps[i].0, 0) + spec_cells_parts_from(ps[i].1, 0)
            + spec_pairs_parts_from(ps, i + 1)
    }
}

/// The rendered cells of a triplet list, triplet by triplet, from position
/// `i` on.
pub open spec fn spec_triplets_parts_from(
    ts: Seq<(Seq<u32>, Seq<u32>, Seq<u32>)>,
    i: int,
) -> Seq<Seq<char>>
    decreases ts.len() - i,
{
    if i < 0 || i >= ts.len() {
        Seq::empty()
    } else {
        spec_cells_parts_from(ts[i].0, 0) + spec_cells_parts_from(ts[i].1, 0)
            + spec_cells_parts_from(ts[i].2, 0) + spec_triplets_parts_from(ts, i + 1)
    }
}

/// The bytes of a byte array, each rendered as two uppercase hexadecimal
/// digits, from position `i` on.
pub open spec fn spec_byte_parts_from(bs: Seq<u8>, i: int) -> Seq<Seq<char>>
    decreases bs.len() - i,
{
    if i < 0 || i >= bs.len() {
        Seq::empty()
    } else {
        seq![
            seq![
                spec_hex_digit(bs[i] as int / 16),
                spec_hex_digit(bs[i] as int % 16),
            ],
        ] + spec_byte_parts_from(bs, i + 1)
    }
}

/// The rendering of a typed property value: nothing for a marker, the
/// characters of a string, quoted comma-separated strings for a list,
/// 0x-prefixed uppercase hexadecimal for words and cell arrays
/// (space-separated), two-digit hexadecimal bytes for byte arrays, and the
/// status word itself.
pub open spec fn spec_prop_fmt(p: PropV) -> Seq<char> {
    match p {
        PropV::Empty => Seq::empty(),
        PropV::Str(s) => s,
        PropV::StrList(l) => spec_join(spec_quoted_parts(l), ", "@),
        PropV::U32(v) => spec_hex_cell(v),
        PropV::U64(v) => seq!['0', 'x'] + spec_hex(v as int),
        PropV::Bytes(b) => spec_join(spec_byte_parts_from(b, 0), " "@),
        PropV::Raw(b) => spec_join(spec_byte_parts_from(b, 0), " "@),
        PropV::Pairs(ps) => spec_join(spec_pairs_parts_from(ps, 0), " "@),
        PropV::Triplets(t) => match t {
            None => Seq::empty(),
            Some(ts) => spec_join(spec_triplets_parts_from(ts, 0), " "@),
        },
        PropV::Status(v) => spec_status_fmt(v),
    }
}

/// A 32-bit cell rendered as 0x-prefixed uppercase hexadecimal.
fn hex_cell_str(v: u32) -> (r: String)
    ensures
        r@ == spec_hex_cell(v),
{
    let mut r = "0x".to_owned();
    proof {
        reveal_strlit("0x");
        assert(r@ =~= seq!['0', 'x']);
    }
    r.append(hex_str(v as u64).as_str());
    r
}

/// Append the rendered cells of `cells` to `parts`.
fn push_cells(parts: &mut Vec<String>, cells: &Vec<u32>)
    ensures
        final(parts).deep_view() == old(parts).deep_view() + spec_cells_parts_from(cells@, 0),
{
    let n = cells.len();
    let mut i: usize = 0;
    while i < n
        invariant
            n == cells@.len(),
            i <= n,
            old(parts).deep_view() + spec_cells_parts_from(cells@, 0) =~= parts.deep_view()
                + spec_cells_parts_from(cells@, i as int),
        decreases n - i,
    {
        let ghost pre = parts.deep_view();
        parts.push(hex_cell_str(cells[i]));
        proof {
            assert(parts.deep_view() =~= pre.push(spec_hex_cell(cells@[i as int])));
            assert(pre.push(spec_hex_cell(cells@[i as int])) + spec_cells_parts_from(
                cells@,
                i + 1,
            ) =~= pre + spec_cells_parts_from(cells@, i as int));
        }
        i = i + 1;
    }
    proof {
        assert(parts.deep_view() + spec_cells_parts_from(cells@, n as int) =~= parts.deep_view());
    }
}

impl StatusValue {
    /// The status word this value renders to.
    pub fn to_stringfmt(&self) -> (r: String)
        ensures
            r@ == spec_status_fmt(*self),
    {
        match self {
            StatusValue::Okay => "okay".to_owned(),
            StatusValue::Disabled => "disabled".to_owned(),
            StatusValue::Reserved => "reserved".to_owned(),
            StatusValue::Fail => "fail".to_owned(),
        }
    }
}

impl DeviceTreeProperty {
    /// Render the value for display, per its variant.
    pub fn to_stringfmt(&self) -> (r: String)
        ensures
            r@ == spec_prop_fmt(self@),
    {
        match self {
            DeviceTreeProperty::Empty => String::new(),
            DeviceTreeProperty::String(s) => s.clone(),
            DeviceTreeProperty::StringList(l) => vec_strings_fmt(l),
            DeviceTreeProperty::U32(v) => hex_cell_str(*v),
            DeviceTreeProperty::U64(v) => {
                let mut r = "0x".to_owned();
                proof {
                    reveal_strlit("0x");
                    assert(r@ =~= seq!['0', 'x']);
                }
                r.append(hex_str(*v).as_str());
                r
            },
            DeviceTreeProperty::Bytes(b) => byte_array_fmt(b),
            DeviceTreeProperty::Raw(b) => byte_array_fmt(b),
            DeviceTreeProperty::Pairs(ps) => {
                let mut parts: Vec<String> = Vec::new();
                let n = ps.0.len();
                let mut i: usize = 0;
                while i < n
                    invariant
                        n == ps.0@.len(),
                        i <= n,
                        spec_pairs_parts_from(ps@, 0) =~= parts.deep_view()
                            + spec_pairs_parts_from(ps@, i as int),
                    decreases n - i,
                {
                    let ghost pre = parts.deep_view();
                    push_cells(&mut parts, &ps.0[i].0);
                    push_cells(&mut parts, &ps.0[i].1);
                    proof {
                        assert(ps@[i as int].0 =~= ps.0@[i as int].0@);
                        assert(ps@[i as int].1 =~= ps.0@[i as int].1@);
                        assert(parts.deep_view() =~= pre + spec_cells_parts_from(ps@[i as int].0, 0)
                            + spec_cells_parts_from(ps@[i as int].1, 0));
                        assert(pre + spec_pairs_parts_from(ps@, i as int) =~= parts.deep_view()
                            + spec_pairs_parts_from(ps@, i + 1));
                    }
                    i = i + 1;
                }
                proof {
                    assert(parts.deep_view() + spec_pairs_parts_from(ps@, n as int)
                        =~= parts.deep_view());
                }
                join_parts(&parts, " ")
            },
            DeviceTreeProperty::Triplets(t) => match t {
                None => String::new(),
                Some(ts) => {
                    let mut parts: Vec<String> = Vec::new();
                    let n = ts.0.len();
                    let mut i: usize = 0;
                    while i < n
                        invariant
                            n == ts.0@.len(),
                            i <= n,
                            spec_triplets_parts_from(ts@, 0) =~= parts.deep_view()
                                + spec_triplets_parts_from(ts@, i as int),
                        decreases n - i,
                    {
                        let ghost pre = parts.deep_view();
                        push_cells(&mut parts, &ts.0[i].0);
                        push_cells(&mut parts, &ts.0[i].1);
                        push_cells(&mut parts, &ts.0[i].2);
                        proof {
                            assert(ts@[i as int].0 =~= ts.0@[i as int].0@);
                            assert(ts@[i as int].1 =~= ts.0@[i as int].1@);
                            assert(ts@[i as int].2 =~= ts.0@[i as int].2@);
                            assert(parts.deep_view() =~= pre + spec_cells_parts_from(
                                ts@[i as int].0,
                                0,
                            ) + spec_cells_parts_from(ts@[i as int].1, 0) + spec_cells_parts_from(
                                ts@[i as int].2,
                                0,
                            ));
                            assert(pre + spec_triplets_parts_from(ts@, i as int)
                                =~= parts.deep_view() + spec_triplets_parts_from(ts@, i + 1));
                        }
                        i = i + 1;
                    }
                    proof {
                        assert(parts.deep_view() + spec_triplets_parts_from(ts@, n as int)
                            =~= parts.deep_view());
                    }
                    join_parts(&parts, " ")
                },
            },
            DeviceTreeProperty::Status(v) => v.to_stringfmt(),
        }
    }
}

/// Render a byte array: each byte as two uppercase hexadecimal digits,
/// space-separated.
fn byte_array_fmt(b: &Vec<u8>) -> (r: String)
    ensures
        r@ == spec_join(spec_byte_parts_from(b@, 0), " "@),
{
    let mut parts: Vec<String> = Vec::new();
    let n = b.len();
    let mut i: usize = 0;
    while i < n
        invariant
            n == b@.len(),
            i <= n,
            spec_byte_parts_from(b@, 0) =~= parts.deep_view() + spec_byte_parts_from(b@, i as int),
        decreases n - i,
    {
        let ghost pre = parts.deep_view();
        let v = b[i];
        let mut q = hex_digit_str(v / 16).to_owned();
        q.append(hex_digit_str(v % 16));
        parts.push(q);
        proof {
            assert(parts.deep_view() =~~= pre.push(seq![
                spec_hex_digit(b@[i as int] as int / 16),
                spec_hex_digit(b@[i as int] as int % 16),
            ]));
            assert(pre.push(seq![
                spec_hex_digit(b@[i as int] as int / 16),
                spec_hex_digit(b@[i as int] as int % 16),
            ]) + spec_byte_parts_from(b@, i + 1) =~= pre + spec_byte_parts_from(b@, i as int));
        }
        i = i + 1;
    }
    proof {
        assert(parts.deep_view() + spec_byte_parts_from(b@, n as int) =~= parts.deep_view());
    }
    join_parts(&parts, " ")
}

/// Decode the NUL-separated string list packed in `p`.
fn stringlist_of_bytes(p: &[u8]) -> (r: Result<Vec<String>, DeviceTreeError>)
    ensures
        r matches Ok(l) ==> spec_stringlist_from(p@, 0) == Ok::<Seq<Seq<char>>, DeviceTreeError>(
            l.deep_view(),
        ),
        r matches Err(e) ==> spec_stringlist_from(p@, 0) == Err::<Seq<Seq<char>>, DeviceTreeError>(
            e,
        ),
{
    let n = p.len();
    let mut out: Vec<String> = Vec::new();
    let mut pos: usize = 0;
    while pos < n
        invariant
            n == p@.len(),
            pos <= n,
            match spec_stringlist_from(p@, pos as int) {
                Ok(rest) => spec_stringlist_from(p@, 0) == Ok::<Seq<Seq<char>>, DeviceTreeError>(
                    out.deep_view() + rest,
                ),
                Err(e) => spec_stringlist_from(p@, 0) == Err::<Seq<Seq<char>>, DeviceTreeError>(e),
            },
        decreases n - pos,
    {
        let nul = match find_nul(p, pos) {
            Some(i) => i,
            None => {
                return Err(DeviceTreeError::BadPropValue);
            },
        };
        let s = match bytes_to_str(slice_subrange(p, pos, nul)) {
            Some(s) => s,
            None => {
                return Err(DeviceTreeError::BadPropValue);
            },
        };
        proof {
            vstd::utf8::encode_utf8_decode_utf8(s@);
        }
        let ghost old_out = out.deep_view();
        out.push(s.to_owned());
        proof {
            assert(out.deep_view() =~= old_out.push(s@));
            assert(old_out.push(s@) + spec_stringlist_result(p@, nul + 1) =~~= old_out + (seq![s@]
                + spec_stringlist_result(p@, nul + 1)));
        }
        pos = nul + 1;
    }
    proof {
        assert(out.deep_view() + Seq::<Seq<char>>::empty() =~= out.deep_view());
    }
    Ok(out)
}

/// The list that `spec_stringlist_from` yields on success; meaningful only
/// where it does not fail.
pub open spec fn spec_stringlist_result(p: Seq<u8>, pos: int) -> Seq<Seq<char>> {
    match spec_stringlist_from(p, pos) {
        Ok(l) => l,
        Err(e) => Seq::empty(),
    }
}

} // verus!
