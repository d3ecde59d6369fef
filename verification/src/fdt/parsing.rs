//! The decoding pass over a blob: reservation-list reading, block
//! splitting, token scanning, and the state machine that replays the token
//! stream into a node arena.

use vstd::prelude::*;
use vstd::slice::slice_subrange;
use vstd::string::StringSliceAdditionalSpecFns;
use vstd::utf8::{decode_utf8, valid_utf8};

use crate::fdt::blob::{FdtPropDescribe, FdtReserveEntry, FdtStructBlock, FdtStringsBlock, Token};
use crate::fdt::header::{spec_parse_header, FdtHeader};
use crate::tree::node::{spec_fresh_node, spec_map_insert, DeviceTreeNode, NodeV};
use crate::tree::prop::{spec_coerce, DeviceTreeProperty, PropV};
use crate::tree::tree::{
    lemma_arena_add_child_wf, lemma_arena_set_props_wf, lemma_map_insert_entries,
    spec_arena_add_child, spec_arena_set_props, spec_nodes_wf,
};
use crate::utils::{
    aligned_len, be_u32_of, be_u64_of, bytes_to_str, find_nul, lemma_find_nul_props,
    spec_aligned_len, spec_be_u32, spec_be_u64, spec_find_nul, take_be_u32, take_be_u64,
};
use crate::{BlobV, DeviceTree, DeviceTreeBlob, DeviceTreeError};

verus! {

/// The wire code of a begin-node token.
pub const FDT_BEGIN_NODE: u32 = 0x00000001;

/// The wire code of an end-node token.
pub const FDT_END_NODE: u32 = 0x00000002;

/// The wire code of a property token.
pub const FDT_PROP: u32 = 0x00000003;

/// The wire code of a no-operation token.
pub const FDT_NOP: u32 = 0x00000004;

/// The wire code of the end-of-block token.
pub const FDT_END: u32 = 0x00000009;

/// The token a 32-bit word encodes, if any; any other word is payload for
/// whatever token is being interpreted, never a token itself.
pub open spec fn spec_token_of(w: u32) -> Option<Token> {
    if w == FDT_BEGIN_NODE {
        Some(Token::TokenBeginNode)
    } else if w == FDT_END_NODE {
        Some(Token::TokenEndNode)
    } else if w == FDT_PROP {
        Some(Token::TokenProp)
    } else if w == FDT_NOP {
        Some(Token::TokenNop)
    } else if w == FDT_END {
        Some(Token::TokenEnd)
    } else {
        None
    }
}

/// The reservation records read from `s` at `pos` up to and including the
/// all-zero sentinel, the sentinel excluded from the list, paired with the
/// position past the sentinel; `TruncatedInput` where the bytes end before
/// a whole record was read.
pub open spec fn spec_parse_rsv(s: Seq<u8>, pos: int) -> Result<
    (Seq<FdtReserveEntry>, int),
    DeviceTreeError,
>
    decreases s.len() - pos,
{
    if pos < 0 || pos + 16 > s.len() {
        Err(DeviceTreeError::TruncatedInput)
    } else {
        let e = FdtReserveEntry {
            address: spec_be_u64(s.subrange(pos, pos + 8)),
            size: spec_be_u64(s.subrange(pos + 8, pos + 16)),
        };
        if e.address == 0 && e.size == 0 {
            Ok((Seq::empty(), pos + 16))
        } else {
            match spec_parse_rsv(s, pos + 16) {
                Ok(p) => Ok((seq![e] + p.0, p.1)),
                Err(err) => Err(err),
            }
        }
    }
}

/// Law: the parsed reservation list holds exactly the records standing
/// before the terminating sentinel — the position consumed covers the list
/// and one sentinel record, every parsed entry is non-sentinel, and each
/// matches the bytes it was read from.
pub proof fn lemma_rsv_records(s: Seq<u8>, pos: int)
    ensures
        spec_parse_rsv(s, pos) matches Ok(p) ==> ({
            &&& p.1 == pos + 16 * (p.0.len() + 1)
            &&& pos + 16 <= p.1 <= s.len()
            &&& forall|i: int|
                0 <= i < p.0.len() ==> !((#[trigger] p.0[i]).address == 0 && p.0[i].size == 0)
            &&& forall|i: int|
                0 <= i < p.0.len() ==> #[trigger] p.0[i] == (FdtReserveEntry {
                    address: spec_be_u64(s.subrange(pos + 16 * i, pos + 16 * i + 8)),
                    size: spec_be_u64(s.subrange(pos + 16 * i + 8, pos + 16 * i + 16)),
                })
        }),
    decreases s.len() - pos,
{
    if 0 <= pos && pos + 16 <= s.len() {
        let e = FdtReserveEntry {
            address: spec_be_u64(s.subrange(pos, pos + 8)),
            size: spec_be_u64(s.subrange(pos + 8, pos + 16)),
        };
        if !(e.address == 0 && e.size == 0) {
            lemma_rsv_records(s, pos + 16);
            match spec_parse_rsv(s, pos + 16) {
                Ok(rest) => {
                    let p = (seq![e] + rest.0, rest.1);
                    assert forall|i: int| 0 <= i < p.0.len() implies #[trigger] p.0[i]
                        == (FdtReserveEntry {
                        address: spec_be_u64(s.subrange(pos + 16 * i, pos + 16 * i + 8)),
                        size: spec_be_u64(s.subrange(pos + 16 * i + 8, pos + 16 * i + 16)),
                    }) by {
                        if i > 0 {
                            assert(p.0[i] == rest.0[i - 1]);
                            assert(pos + 16 + 16 * (i - 1) == pos + 16 * i);
                        }
                    }
                },
                Err(_) => {},
            }
        }
    }
}

impl FdtReserveEntry {
    /// Read a sixteen-byte (address, size) record from the front of `bytes`,
    /// advancing past it.
    ///
    /// Returns `None` if fewer than sixteen bytes remain; the first eight
    /// are still consumed where they alone could be read.
    pub fn from_bytes(bytes: &mut &[u8]) -> (r: Option<Self>)
        ensures
            old(bytes)@.len() >= 16 ==> (r == Some(FdtReserveEntry {
                address: spec_be_u64(old(bytes)@.subrange(0, 8)),
                size: spec_be_u64(old(bytes)@.subrange(8, 16)),
            }) && final(bytes)@ == old(bytes)@.skip(16)),
            8 <= old(bytes)@.len() < 16 ==> (r is None && final(bytes)@ == old(bytes)@.skip(8)),
            old(bytes)@.len() < 8 ==> (r is None && final(bytes)@ == old(bytes)@),
    {
        let address = match take_be_u64(bytes) {
            Some(v) => v,
            None => {
                return None;
            },
        };
        let size = match take_be_u64(bytes) {
            Some(v) => v,
            None => {
                return None;
            },
        };
        proof {
            assert(old(bytes)@.skip(8).take(8) =~= old(bytes)@.subrange(8, 16));
            assert(old(bytes)@.take(8) =~= old(bytes)@.subrange(0, 8));
            assert(old(bytes)@.skip(8).skip(8) =~= old(bytes)@.skip(16));
        }
        Some(Self { address, size })
    }

    /// Whether both fields are zero: the record is the sentinel that
    /// terminates the reservation list.
    pub fn end_of_list(&self) -> (r: bool)
        ensures
            r == (self.address == 0 && self.size == 0),
    {
        self.address == 0 && self.size == 0
    }
}

impl FdtPropDescribe {
    /// Read an eight-byte (length, name offset) descriptor from the front of
    /// `bytes`, advancing past it.
    ///
    /// Returns `None` if fewer than eight bytes remain; the first four are
    /// still consumed where they alone could be read.
    pub fn from_bytes(bytes: &mut &[u8]) -> (r: Option<Self>)
        ensures
            old(bytes)@.len() >= 8 ==> (r == Some(FdtPropDescribe {
                len: spec_be_u32(old(bytes)@.subrange(0, 4)),
                name_off: spec_be_u32(old(bytes)@.subrange(4, 8)),
            }) && final(bytes)@ == old(bytes)@.skip(8)),
            4 <= old(bytes)@.len() < 8 ==> (r is None && final(bytes)@ == old(bytes)@.skip(4)),
            old(bytes)@.len() < 4 ==> (r is None && final(bytes)@ == old(bytes)@),
    {
        let len = match take_be_u32(bytes) {
            Some(v) => v,
            None => {
                return None;
            },
        };
        let name_off = match take_be_u32(bytes) {
            Some(v) => v,
            None => {
                return None;
            },
        };
        proof {
            assert(old(bytes)@.skip(4).take(4) =~= old(bytes)@.subrange(4, 8));
            assert(old(bytes)@.take(4) =~= old(bytes)@.subrange(0, 4));
            assert(old(bytes)@.skip(4).skip(4) =~= old(bytes)@.skip(8));
        }
        Some(Self { len, name_off })
    }

    /// The declared length in bytes of the property's value.
    pub fn len(&self) -> (r: usize)
        ensures
            r == self.len as usize,
    {
        self.len as usize
    }

    /// The declared offset of the property's name in the strings block.
    pub fn name_off(&self) -> (r: usize)
        ensures
            r == self.name_off as usize,
    {
        self.name_off as usize
    }
}

impl Token {
    /// Read the next four bytes as a big-endian word and classify it,
    /// advancing past them.
    ///
    /// Fails with `NotAToken` where fewer than four bytes remain (nothing is
    /// consumed) or where the word encodes no token (the word is consumed):
    /// to the scanner such a word is payload, not a token.
    pub fn from_bytes(bytes: &mut &[u8]) -> (r: Result<Self, DeviceTreeError>)
        ensures
            old(bytes)@.len() >= 4 ==> (final(bytes)@ == old(bytes)@.skip(4) && r == (
            match spec_token_of(spec_be_u32(old(bytes)@.take(4))) {
                Some(t) => Ok::<Token, DeviceTreeError>(t),
                None => Err(DeviceTreeError::NotAToken),
            })),
            old(bytes)@.len() < 4 ==> (r == Err::<Token, DeviceTreeError>(
                DeviceTreeError::NotAToken,
            ) && final(bytes)@ == old(bytes)@),
    {
        let w = match take_be_u32(bytes) {
            Some(v) => v,
            None => {
                return Err(DeviceTreeError::NotAToken);
            },
        };
        if w == FDT_BEGIN_NODE {
            Ok(Self::TokenBeginNode)
        } else if w == FDT_END_NODE {
            Ok(Self::TokenEndNode)
        } else if w == FDT_PROP {
            Ok(Self::TokenProp)
        } else if w == FDT_NOP {
            Ok(Self::TokenNop)
        } else if w == FDT_END {
            Ok(Self::TokenEnd)
        } else {
            Err(DeviceTreeError::NotAToken)
        }
    }

    /// Whether this is the begin-node token.
    pub fn is_begin_node(self) -> (r: bool)
        ensures
            r == (self is TokenBeginNode),
    {
        self == Self::TokenBeginNode
    }

    /// Whether this is the end-node token.
    pub fn is_end_node(self) -> (r: bool)
        ensures
            r == (self is TokenEndNode),
    {
        self == Self::TokenEndNode
    }

    /// Whether this is the property token.
    pub fn is_prop(self) -> (r: bool)
        ensures
            r == (self is TokenProp),
    {
        self == Self::TokenProp
    }

    /// Whether this is the no-operation token.
    pub fn is_nop(self) -> (r: bool)
        ensures
            r == (self is TokenNop),
    {
        self == Self::TokenNop
    }

    /// Whether this is the end-of-block token.
    pub fn is_end(self) -> (r: bool)
        ensures
            r == (self is TokenEnd),
    {
        self == Self::TokenEnd
    }
}

impl<'a> FdtStructBlock<'a> {
    /// Wrap a byte span as a structure block.
    pub fn from_bytes(bytes: &'a [u8]) -> (r: Self)
        ensures
            r@ == bytes@,
    {
        Self(bytes)
    }

    /// The block's bytes.
    pub fn bytes(&self) -> (r: &[u8])
        ensures
            r@ == self@,
    {
        self.0
    }

    /// Replay the block's token stream into a tree, resolving property
    /// names in `strings_block`: one linear pass, each step consuming at
    /// least one word, with the nesting tracked by parent indices rather
    /// than call-stack recursion.
    ///
    /// Succeeds when the root closes — by its end-node token or by the end
    /// token at nesting depth zero — and fails with the first error the
    /// stream forces, leaving no partial tree behind.
    pub fn parsing(&mut self, strings_block: &FdtStringsBlock) -> (r: Result<
        DeviceTree,
        DeviceTreeError,
    >)
        ensures
            final(self)@ == old(self)@,
            r matches Ok(t) ==> (spec_parse(old(self)@, strings_block@) matches Ok(ns) && t@ == ns
                && spec_nodes_wf(t@)),
            r matches Err(e) ==> spec_parse(old(self)@, strings_block@) == Err::<
                Seq<NodeV>,
                DeviceTreeError,
            >(e),
    {
        let s = self.0;
        let n = s.len();
        let mut nodes: Vec<DeviceTreeNode> = Vec::new();
        let mut root = DeviceTreeNode::new();
        root.set_name("/");
        nodes.push(root);
        let mut cur: usize = 0;
        let mut pos: usize = 0;
        proof {
            assert(nodes.deep_view() =~= spec_init_state().nodes);
            assert(spec_nodes_wf(nodes.deep_view()));
        }
        loop
            invariant
                n == s@.len(),
                s@ == old(self)@,
                (*self)@ == old(self)@,
                pos <= n,
                spec_nodes_wf(nodes.deep_view()),
                (cur as int) < nodes.deep_view().len(),
                spec_parse(old(self)@, strings_block@) == spec_parse_from(
                    s@,
                    strings_block@,
                    pos as int,
                    ParseState { nodes: nodes.deep_view(), cur: cur },
                ),
            decreases n - pos,
        {
            let ghost st_old = ParseState { nodes: nodes.deep_view(), cur: cur };
            if n - pos < 4 {
                return Err(DeviceTreeError::NotAToken);
            }
            let w = be_u32_of(slice_subrange(s, pos, pos + 4));
            if w == FDT_BEGIN_NODE {
                let name_start = pos + 4;
                let nul = match find_nul(s, name_start) {
                    Some(v) => v,
                    None => {
                        return Err(DeviceTreeError::TruncatedInput);
                    },
                };
                let adv = match aligned_len(nul - name_start + 1, 4) {
                    Some(a) => a,
                    None => {
                        return Err(DeviceTreeError::TruncatedInput);
                    },
                };
                if adv > n - name_start {
                    return Err(DeviceTreeError::TruncatedInput);
                }
                let nm = match bytes_to_str(slice_subrange(s, name_start, nul)) {
                    Some(v) => v,
                    None => {
                        return Err(DeviceTreeError::BadPropValue);
                    },
                };
                proof {
                    vstd::utf8::encode_utf8_decode_utf8(nm@);
                }
                if nm.is_empty() {
                    proof {
                        assert(spec_parse_from(s@, strings_block@, pos as int, st_old)
                            == spec_parse_from(
                            s@,
                            strings_block@,
                            name_start + adv,
                            st_old,
                        ));
                    }
                    pos = name_start + adv;
                } else {
                    let idx = nodes.len();
                    let mut child = DeviceTreeNode::new();
                    child.set_name(nm);
                    child.set_parent(cur);
                    let ghost cv = child@;
                    nodes.push(child);
                    let pn = &mut nodes[cur];
                    pn.add_child_entry(nm, idx);
                    proof {
                        assert(cv == spec_fresh_node(nm@, Some(cur)));
                        assert(nodes.deep_view() =~= spec_state_add_child(st_old, nm@).nodes);
                        lemma_arena_add_child_wf(st_old.nodes, cur, nm@, cv);
                        assert(spec_parse_from(s@, strings_block@, pos as int, st_old)
                            == spec_parse_from(
                            s@,
                            strings_block@,
                            name_start + adv,
                            spec_state_add_child(st_old, nm@),
                        ));
                    }
                    cur = idx;
                    pos = name_start + adv;
                }
            } else if w == FDT_END_NODE {
                let parent = nodes[cur].parent;
                proof {
                    assert(nodes.deep_view()[cur as int].parent == parent);
                }
                match parent {
                    None => {
                        proof {
                            assert(spec_parse_from(s@, strings_block@, pos as int, st_old)
                                == Ok::<Seq<NodeV>, DeviceTreeError>(st_old.nodes));
                        }
                        return Ok(DeviceTree { nodes });
                    },
                    Some(p) => {
                        proof {
                            assert(spec_parse_from(s@, strings_block@, pos as int, st_old)
                                == spec_parse_from(
                                s@,
                                strings_block@,
                                pos + 4,
                                ParseState { nodes: st_old.nodes, cur: p },
                            ));
                        }
                        cur = p;
                        pos = pos + 4;
                    },
                }
            } else if w == FDT_PROP {
                if n - pos < 12 {
                    return Err(DeviceTreeError::TruncatedInput);
                }
                let plen32 = be_u32_of(slice_subrange(s, pos + 4, pos + 8));
                let noff = be_u32_of(slice_subrange(s, pos + 8, pos + 12));
                let nm = match strings_block.find(noff as usize) {
                    Ok(v) => v,
                    Err(e) => {
                        return Err(e);
                    },
                };
                let plen = plen32 as usize;
                let adv = match aligned_len(plen, 4) {
                    Some(a) => a,
                    None => {
                        return Err(DeviceTreeError::TruncatedInput);
                    },
                };
                if adv > n - (pos + 12) {
                    return Err(DeviceTreeError::TruncatedInput);
                }
                let payload = slice_subrange(s, pos + 12, pos + 12 + plen);
                let prop = match DeviceTreeProperty::from_bytes(nm, payload) {
                    Ok(v) => v,
                    Err(e) => {
                        return Err(e);
                    },
                };
                let ghost pv = prop@;
                let cn = &mut nodes[cur];
                cn.add_prop(nm, prop);
                proof {
                    assert(nodes.deep_view() =~= spec_state_add_prop(st_old, nm@, pv).nodes);
                    lemma_map_insert_entries(st_old.nodes[cur as int].props, nm@, pv);
                    lemma_arena_set_props_wf(
                        st_old.nodes,
                        cur as int,
                        spec_map_insert(st_old.nodes[cur as int].props, nm@, pv),
                    );
                    assert(spec_parse_from(s@, strings_block@, pos as int, st_old)
                        == spec_parse_from(
                        s@,
                        strings_block@,
                        pos + 12 + adv,
                        spec_state_add_prop(st_old, nm@, pv),
                    ));
                }
                pos = pos + 12 + adv;
            } else if w == FDT_NOP {
                proof {
                    assert(spec_parse_from(s@, strings_block@, pos as int, st_old)
                        == spec_parse_from(s@, strings_block@, pos + 4, st_old));
                }
                pos = pos + 4;
            } else if w == FDT_END {
                let parent = nodes[cur].parent;
                proof {
                    assert(nodes.deep_view()[cur as int].parent == parent);
                }
                match parent {
                    None => {
                        proof {
                            assert(spec_parse_from(s@, strings_block@, pos as int, st_old)
                                == Ok::<Seq<NodeV>, DeviceTreeError>(st_old.nodes));
                        }
                        return Ok(DeviceTree { nodes });
                    },
                    Some(_) => {
                        return Err(DeviceTreeError::BadToken);
                    },
                }
            } else {
                return Err(DeviceTreeError::BadToken);
            }
        }
    }
}

/// The name standing at `off` in a strings block `s`: the bytes from `off`
/// to the first NUL, decoded as UTF-8.
///
/// Fails with `BadStringsBlockOffset` where `off` reaches or exceeds the
/// block's length or no NUL follows it, and with `BadPropValue` where the
/// bytes are not valid UTF-8. An in-bounds offset that lands inside a
/// longer string yields that string's tail; no boundary check is made.
pub open spec fn spec_strings_find(s: Seq<u8>, off: int) -> Result<Seq<char>, DeviceTreeError> {
    if !(0 <= off < s.len()) {
        Err(DeviceTreeError::BadStringsBlockOffset)
    } else {
        match spec_find_nul(s, off) {
            None => Err(DeviceTreeError::BadStringsBlockOffset),
            Some(n) => if valid_utf8(s.subrange(off, n)) {
                Ok(decode_utf8(s.subrange(off, n)))
            } else {
                Err(DeviceTreeError::BadPropValue)
            },
        }
    }
}

/// Law: a lookup at offset zero yields the block's first NUL-terminated
/// string, and a lookup at or past the block's end fails with
/// `BadStringsBlockOffset`.
pub proof fn lemma_strings_lookup(s: Seq<u8>, off: int)
    ensures
        off >= s.len() ==> spec_strings_find(s, off) == Err::<Seq<char>, DeviceTreeError>(
            DeviceTreeError::BadStringsBlockOffset,
        ),
        spec_find_nul(s, 0) matches Some(n) ==> (valid_utf8(s.take(n)) ==> spec_strings_find(s, 0)
            == Ok::<Seq<char>, DeviceTreeError>(decode_utf8(s.take(n)))),
{
    match spec_find_nul(s, 0) {
        Some(n) => {
            assert(s.take(n) =~= s.subrange(0, n));
        },
        None => {},
    }
}

impl<'a> FdtStringsBlock<'a> {
    /// Wrap a byte span as a strings block.
    pub fn from_bytes(bytes: &'a [u8]) -> (r: Self)
        ensures
            r@ == bytes@,
    {
        Self(bytes)
    }

    /// The NUL-terminated UTF-8 string starting at `offset` in the block.
    ///
    /// Fails with `BadStringsBlockOffset` where `offset` reaches or exceeds
    /// the block's length or no NUL follows it, and with `BadPropValue`
    /// where the bytes are not valid UTF-8.
    pub fn find(&self, offset: usize) -> (r: Result<&str, DeviceTreeError>)
        ensures
            r matches Ok(s) ==> (spec_strings_find(self@, offset as int) matches Ok(c) && s@ == c),
            r matches Err(e) ==> spec_strings_find(self@, offset as int) == Err::<
                Seq<char>,
                DeviceTreeError,
            >(e),
    {
        let blen = self.0.len();
        if offset >= blen {
            return Err(DeviceTreeError::BadStringsBlockOffset);
        }
        let n = match find_nul(self.0, offset) {
            Some(n) => n,
            None => {
                return Err(DeviceTreeError::BadStringsBlockOffset);
            },
        };
        match bytes_to_str(slice_subrange(self.0, offset, n)) {
            Some(s) => {
                proof {
                    vstd::utf8::encode_utf8_decode_utf8(s@);
                }
                Ok(s)
            },
            None => Err(DeviceTreeError::BadPropValue),
        }
    }
}

/// The structural split of a whole blob: the validated header, the
/// reservation list, and the two blocks, paired with the number of bytes
/// the split consumed. The blocks are carved by sequential consumption —
/// header, reservation records, then exactly the two declared sizes — and
/// `TruncatedInput` arises where either block would exceed the input.
pub open spec fn spec_split_blob(bytes: Seq<u8>) -> Result<(BlobV, int), DeviceTreeError> {
    match spec_parse_header(bytes) {
        Err(e) => Err(e),
        Ok(h) => match spec_parse_rsv(bytes, 40) {
            Err(e) => Err(e),
            Ok(p) => {
                let send = p.1 + h.size_dt_struct as int;
                let strend = send + h.size_dt_strings as int;
                if strend > bytes.len() {
                    Err(DeviceTreeError::TruncatedInput)
                } else {
                    Ok(
                        (
                            BlobV {
                                header: h,
                                rsv: p.0,
                                structure: bytes.subrange(p.1, send),
                                strings: bytes.subrange(send, strend),
                            },
                            strend,
                        ),
                    )
                }
            },
        },
    }
}

/// Read the reservation records standing at the front of `b` up to and
/// including the sentinel, advancing past them on success and leaving `b`
/// unread on failure.
fn read_reservations(b: &mut &[u8]) -> (r: Result<Vec<FdtReserveEntry>, DeviceTreeError>)
    ensures
        r matches Ok(v) ==> (spec_parse_rsv(old(b)@, 0) matches Ok(p) && v@ == p.0 && final(b)@
            == old(b)@.skip(p.1)),
        r matches Err(e) ==> (spec_parse_rsv(old(b)@, 0) matches Err(e2) && e == e2 && final(b)@
            == old(b)@),
{
    let s = *b;
    let n = s.len();
    let mut acc: Vec<FdtReserveEntry> = Vec::new();
    let mut pos: usize = 0;
    loop
        invariant
            n == s@.len(),
            pos <= n,
            s@ == old(b)@,
            (*b)@ == s@,
            match spec_parse_rsv(s@, pos as int) {
                Ok(p) => spec_parse_rsv(s@, 0) == Ok::<(Seq<FdtReserveEntry>, int), DeviceTreeError>(
                    (acc@ + p.0, p.1),
                ),
                Err(e) => spec_parse_rsv(s@, 0) == Err::<
                    (Seq<FdtReserveEntry>, int),
                    DeviceTreeError,
                >(e),
            },
        decreases n - pos,
    {
        if n - pos < 16 {
            return Err(DeviceTreeError::TruncatedInput);
        }
        let address = be_u64_of(slice_subrange(s, pos, pos + 8));
        let size = be_u64_of(slice_subrange(s, pos + 8, pos + 16));
        if address == 0 && size == 0 {
            *b = slice_subrange(s, pos + 16, n);
            proof {
                assert(acc@ + Seq::<FdtReserveEntry>::empty() =~= acc@);
            }
            return Ok(acc);
        }
        let ghost e = FdtReserveEntry { address, size };
        let ghost acc_old = acc@;
        acc.push(FdtReserveEntry { address, size });
        proof {
            assert(acc@ == acc_old.push(e));
            assert(spec_parse_rsv(s@, pos as int) == (match spec_parse_rsv(s@, pos + 16) {
                Ok(p) => Ok::<(Seq<FdtReserveEntry>, int), DeviceTreeError>((seq![e] + p.0, p.1)),
                Err(e2) => Err::<(Seq<FdtReserveEntry>, int), DeviceTreeError>(e2),
            }));
            match spec_parse_rsv(s@, pos + 16) {
                Ok(p) => {
                    assert(acc_old + (seq![e] + p.0) =~= acc@ + p.0);
                },
                Err(_) => {},
            }
        }
        pos = pos + 16;
    }
}

impl<'a> DeviceTreeBlob<'a> {
    /// Split `bytes` into a validated blob: parse and check the header, read
    /// the reservation list, and carve the structure and strings blocks per
    /// the header-declared sizes, advancing past everything consumed.
    ///
    /// On failure nothing is consumed and the first error encountered is
    /// returned.
    pub fn from_bytes(bytes: &mut &'a [u8]) -> (r: Result<Self, DeviceTreeError>)
        ensures
            r matches Ok(blob) ==> (spec_split_blob(old(bytes)@) matches Ok(p) && blob@ == p.0
                && final(bytes)@ == old(bytes)@.skip(p.1)),
            r matches Err(e) ==> (spec_split_blob(old(bytes)@) matches Err(e2) && e == e2
                && final(bytes)@ == old(bytes)@),
    {
        let mut b: &[u8] = *bytes;
        let header = match FdtHeader::from_bytes(&mut b) {
            Ok(h) => h,
            Err(e) => {
                return Err(e);
            },
        };
        let memory_reservation_vec = match read_reservations(&mut b) {
            Ok(v) => v,
            Err(e) => {
                proof {
                    lemma_rsv_shift(old(bytes)@, 0);
                }
                return Err(e);
            },
        };
        proof {
            lemma_rsv_shift(old(bytes)@, 0);
            lemma_rsv_records(old(bytes)@, 40);
            match spec_parse_rsv(old(bytes)@, 40) {
                Ok(p) => {
                    assert(old(bytes)@.skip(40).skip(p.1 - 40) =~= old(bytes)@.skip(p.1));
                },
                Err(_) => {},
            }
        }
        let structure_block_size = header.size_dt_struct();
        let string_block_size = header.size_dt_strings();
        let blen = b.len();
        if structure_block_size > blen || string_block_size > blen - structure_block_size {
            return Err(DeviceTreeError::TruncatedInput);
        }
        let struct_buf = slice_subrange(b, 0, structure_block_size);
        let string_buf = slice_subrange(
            b,
            structure_block_size,
            structure_block_size + string_block_size,
        );
        proof {
            match spec_parse_rsv(old(bytes)@, 40) {
                Ok(p) => {
                    let ss = header.size_dt_struct as int;
                    let ts = header.size_dt_strings as int;
                    assert(struct_buf@ =~= old(bytes)@.subrange(p.1, p.1 + ss));
                    assert(string_buf@ =~= old(bytes)@.subrange(p.1 + ss, p.1 + ss + ts));
                    assert(b@.skip(ss + ts) =~= old(bytes)@.skip(p.1 + ss + ts));
                },
                Err(_) => {},
            }
        }
        b = slice_subrange(b, structure_block_size + string_block_size, blen);
        *bytes = b;
        Ok(
            Self {
                header: header,
                memory_reservation_block: memory_reservation_vec,
                structure_block: FdtStructBlock::from_bytes(struct_buf),
                strings_block: FdtStringsBlock::from_bytes(string_buf),
            },
        )
    }
}

/// The state of the tree builder between two tokens: the arena grown so
/// far and the index of the node being filled.
pub ghost struct ParseState {
    pub nodes: Seq<NodeV>,
    pub cur: usize,
}

/// The builder state before the first token: an arena holding one fresh
/// root named "/", which is also the current node.
pub open spec fn spec_init_state() -> ParseState {
    ParseState { nodes: seq![spec_fresh_node("/"@, None)], cur: 0 }
}

/// The builder state after a begin-node token naming `name`: a fresh child
/// is hung under the current node and becomes current.
pub open spec fn spec_state_add_child(st: ParseState, name: Seq<char>) -> ParseState {
    ParseState {
        nodes: spec_arena_add_child(st.nodes, st.cur, name, spec_fresh_node(name, Some(st.cur))),
        cur: st.nodes.len() as usize,
    }
}

/// The builder state after a property token: the coerced value is bound
/// under the property's name on the current node.
pub open spec fn spec_state_add_prop(st: ParseState, name: Seq<char>, v: PropV) -> ParseState {
    ParseState {
        nodes: spec_arena_set_props(
            st.nodes,
            st.cur as int,
            spec_map_insert(st.nodes[st.cur as int].props, name, v),
        ),
        cur: st.cur,
    }
}

/// The tree builder's loop over the structure block `s`, from position
/// `pos` in state `st`, with `strs` the strings block.
///
/// Each step reads one big-endian word. A begin-node token is followed by a
/// NUL-terminated UTF-8 name padded to four bytes; an empty name denotes
/// the root itself and creates nothing. A property token is followed by an
/// eight-byte descriptor and the padded payload; the name is resolved in
/// the strings block and the payload coerced by name. An end-node token
/// ascends, and closing the root succeeds. The end token succeeds exactly
/// at the root; anywhere deeper, like any unrecognized word where a token
/// is required, it is a structural error. A payload running past the block
/// is `TruncatedInput`; a missing token word is `NotAToken`.
pub open spec fn spec_parse_from(s: Seq<u8>, strs: Seq<u8>, pos: int, st: ParseState) -> Result<
    Seq<NodeV>,
    DeviceTreeError,
>
    decreases s.len() - pos,
    via spec_parse_from_decreases
{
    if pos < 0 || pos + 4 > s.len() {
        Err(DeviceTreeError::NotAToken)
    } else {
        let w = spec_be_u32(s.subrange(pos, pos + 4));
        if w == FDT_BEGIN_NODE {
            match spec_find_nul(s, pos + 4) {
                None => Err(DeviceTreeError::TruncatedInput),
                Some(n) => {
                    let adv = spec_aligned_len(n - (pos + 4) + 1, 4);
                    let name_bytes = s.subrange(pos + 4, n);
                    if pos + 4 + adv > s.len() {
                        Err(DeviceTreeError::TruncatedInput)
                    } else if !valid_utf8(name_bytes) {
                        Err(DeviceTreeError::BadPropValue)
                    } else {
                        let name = decode_utf8(name_bytes);
                        if name.len() == 0 {
                            spec_parse_from(s, strs, pos + 4 + adv, st)
                        } else {
                            spec_parse_from(s, strs, pos + 4 + adv, spec_state_add_child(st, name))
                        }
                    }
                },
            }
        } else if w == FDT_END_NODE {
            match st.nodes[st.cur as int].parent {
                None => Ok(st.nodes),
                Some(p) => spec_parse_from(
                    s,
                    strs,
                    pos + 4,
                    ParseState { nodes: st.nodes, cur: p },
                ),
            }
        } else if w == FDT_PROP {
            if pos + 12 > s.len() {
                Err(DeviceTreeError::TruncatedInput)
            } else {
                let plen = spec_be_u32(s.subrange(pos + 4, pos + 8)) as int;
                let noff = spec_be_u32(s.subrange(pos + 8, pos + 12)) as int;
                match spec_strings_find(strs, noff) {
                    Err(e) => Err(e),
                    Ok(name) => {
                        let adv = spec_aligned_len(plen, 4);
                        if pos + 12 + adv > s.len() {
                            Err(DeviceTreeError::TruncatedInput)
                        } else {
                            match spec_coerce(name, s.subrange(pos + 12, pos + 12 + plen)) {
                                Err(e) => Err(e),
                                Ok(v) => spec_parse_from(
                                    s,
                                    strs,
                                    pos + 12 + adv,
                                    spec_state_add_prop(st, name, v),
                                ),
                            }
                        }
                    },
                }
            }
        } else if w == FDT_NOP {
            spec_parse_from(s, strs, pos + 4, st)
        } else if w == FDT_END {
            if st.nodes[st.cur as int].parent is None {
                Ok(st.nodes)
            } else {
                Err(DeviceTreeError::BadToken)
            }
        } else {
            Err(DeviceTreeError::BadToken)
        }
    }
}

#[via_fn]
proof fn spec_parse_from_decreases(s: Seq<u8>, strs: Seq<u8>, pos: int, st: ParseState) {
    if 0 <= pos && pos + 4 <= s.len() {
        lemma_find_nul_props(s, pos + 4);
    }
}

/// The whole decode of a structure block against a strings block: the
/// builder run from the start in the initial state.
pub open spec fn spec_parse(s: Seq<u8>, strs: Seq<u8>) -> Result<Seq<NodeV>, DeviceTreeError> {
    spec_parse_from(s, strs, 0, spec_init_state())
}

/// The whole decode of a blob: split it, then replay its structure block.
pub open spec fn spec_decode(bytes: Seq<u8>) -> Result<Seq<NodeV>, DeviceTreeError> {
    match spec_split_blob(bytes) {
        Err(e) => Err(e),
        Ok(p) => spec_parse(p.0.structure, p.0.strings),
    }
}

/// Law: decoding is a function of the buffer alone — two trees decoded
/// from the same bytes are structurally equal, node for node, in names,
/// properties and children alike.
pub proof fn lemma_decode_deterministic(bytes: Seq<u8>, t1: Seq<NodeV>, t2: Seq<NodeV>)
    requires
        spec_decode(bytes) == Ok::<Seq<NodeV>, DeviceTreeError>(t1),
        spec_decode(bytes) == Ok::<Seq<NodeV>, DeviceTreeError>(t2),
    ensures
        t1 == t2,
{
}

impl DeviceTree {
    /// Decode a whole blob from the front of `bytes` into a tree: split it,
    /// then replay its structure block, advancing past everything the split
    /// consumed.
    pub fn from_bytes(bytes: &mut &[u8]) -> (r: Result<Self, DeviceTreeError>)
        ensures
            r matches Ok(t) ==> (spec_decode(old(bytes)@) matches Ok(ns) && t@ == ns
                && spec_nodes_wf(t@)),
            r matches Err(e) ==> spec_decode(old(bytes)@) == Err::<Seq<NodeV>, DeviceTreeError>(e),
            spec_split_blob(old(bytes)@) matches Ok(p) ==> final(bytes)@ == old(bytes)@.skip(p.1),
            spec_split_blob(old(bytes)@) is Err ==> final(bytes)@ == old(bytes)@,
    {
        let mut dtb = match DeviceTreeBlob::from_bytes(bytes) {
            Ok(b) => b,
            Err(e) => {
                return Err(e);
            },
        };
        dtb.to_tree()
    }
}

impl<'a> DeviceTreeBlob<'a> {
    /// Replay the blob's structure block into a tree, resolving property
    /// names in its strings block.
    pub fn to_tree(&mut self) -> (r: Result<DeviceTree, DeviceTreeError>)
        ensures
            final(self)@ == old(self)@,
            r matches Ok(t) ==> (spec_parse(old(self)@.structure, old(self)@.strings) matches Ok(ns)
                && t@ == ns && spec_nodes_wf(t@)),
            r matches Err(e) ==> spec_parse(old(self)@.structure, old(self)@.strings) == Err::<
                Seq<NodeV>,
                DeviceTreeError,
            >(e),
    {
        self.structure_block.parsing(&self.strings_block)
    }

    /// Gets a reference to the structure block.
    pub fn structure_block(&self) -> (r: &FdtStructBlock<'a>)
        ensures
            r@ == self@.structure,
    {
        &self.structure_block
    }

    /// Gets a reference to the strings block.
    pub fn strings_block(&self) -> (r: &FdtStringsBlock<'a>)
        ensures
            r@ == self@.strings,
    {
        &self.strings_block
    }
}

/// Law: a structure block of no-operation tokens alone, closed by the end
/// token, decodes successfully to a tree holding only the root.
pub proof fn lemma_nops_then_end(s: Seq<u8>, strs: Seq<u8>, k: int)
    requires
        s.len() == 4 * k + 4,
        0 <= k,
        forall|i: int|
            0 <= i < k ==> spec_be_u32(#[trigger] s.subrange(4 * i, 4 * i + 4)) == FDT_NOP,
        spec_be_u32(s.subrange(4 * k, 4 * k + 4)) == FDT_END,
    ensures
        spec_parse(s, strs) == Ok::<Seq<NodeV>, DeviceTreeError>(
            seq![spec_fresh_node("/"@, None)],
        ),
{
    lemma_nops_end_from(s, strs, k, 0, spec_init_state());
}

/// The inductive step behind `lemma_nops_then_end`: from any position on a
/// token boundary, with the current node parentless, the remaining
/// no-operation tokens and the final end token leave the arena unchanged.
proof fn lemma_nops_end_from(s: Seq<u8>, strs: Seq<u8>, k: int, j: int, st: ParseState)
    requires
        s.len() == 4 * k + 4,
        0 <= j <= k,
        forall|i: int|
            0 <= i < k ==> spec_be_u32(#[trigger] s.subrange(4 * i, 4 * i + 4)) == FDT_NOP,
        spec_be_u32(s.subrange(4 * k, 4 * k + 4)) == FDT_END,
        st.nodes[st.cur as int].parent is None,
    ensures
        spec_parse_from(s, strs, 4 * j, st) == Ok::<Seq<NodeV>, DeviceTreeError>(st.nodes),
    decreases k - j,
{
    if j < k {
        assert(spec_be_u32(s.subrange(4 * j, 4 * j + 4)) == FDT_NOP);
        lemma_nops_end_from(s, strs, k, j + 1, st);
        assert(spec_parse_from(s, strs, 4 * j, st) == spec_parse_from(s, strs, 4 * j + 4, st));
        assert(4 * j + 4 == 4 * (j + 1));
    }
}

/// Law: a structure block that opens a named node and reaches the end token
/// without a matching end-node token — whatever run of no-operation tokens
/// stands between — fails with a structural error rather than succeeding
/// with an incomplete tree.
pub proof fn lemma_dangling_begin_fails(s: Seq<u8>, strs: Seq<u8>, nul: int, k: int)
    requires
        spec_be_u32(s.subrange(0, 4)) == FDT_BEGIN_NODE,
        spec_find_nul(s, 4) == Some(nul),
        valid_utf8(s.subrange(4, nul)),
        decode_utf8(s.subrange(4, nul)).len() > 0,
        0 <= k,
        s.len() == 4 + spec_aligned_len(nul - 4 + 1, 4) + 4 * k + 4,
        forall|t: int|
            0 <= t < k ==> spec_be_u32(
                #[trigger] s.subrange(
                    4 + spec_aligned_len(nul - 4 + 1, 4) + 4 * t,
                    4 + spec_aligned_len(nul - 4 + 1, 4) + 4 * t + 4,
                ),
            ) == FDT_NOP,
        spec_be_u32(s.subrange(s.len() - 4, s.len() as int)) == FDT_END,
    ensures
        spec_parse(s, strs) == Err::<Seq<NodeV>, DeviceTreeError>(DeviceTreeError::BadToken),
{
    let st0 = spec_init_state();
    let adv = spec_aligned_len(nul - 4 + 1, 4);
    lemma_find_nul_props(s, 4);
    let name = decode_utf8(s.subrange(4, nul));
    let st1 = spec_state_add_child(st0, name);
    assert(spec_parse_from(s, strs, 0, st0) == spec_parse_from(s, strs, 4 + adv, st1));
    assert(st1.nodes[st1.cur as int].parent == Some(0usize));
    lemma_nops_end_at_depth_fails(s, strs, 4 + adv, k, 0, st1);
}

/// The inductive step behind `lemma_dangling_begin_fails`: with the current
/// node below the root, the remaining no-operation tokens lead to the end
/// token, which is a structural error at that depth.
proof fn lemma_nops_end_at_depth_fails(
    s: Seq<u8>,
    strs: Seq<u8>,
    base: int,
    k: int,
    j: int,
    st: ParseState,
)
    requires
        0 <= base,
        0 <= j <= k,
        s.len() == base + 4 * k + 4,
        forall|t: int|
            0 <= t < k ==> spec_be_u32(
                #[trigger] s.subrange(base + 4 * t, base + 4 * t + 4),
            ) == FDT_NOP,
        spec_be_u32(s.subrange(s.len() - 4, s.len() as int)) == FDT_END,
        st.nodes[st.cur as int].parent is Some,
    ensures
        spec_parse_from(s, strs, base + 4 * j, st) == Err::<Seq<NodeV>, DeviceTreeError>(
            DeviceTreeError::BadToken,
        ),
    decreases k - j,
{
    if j < k {
        assert(spec_be_u32(s.subrange(base + 4 * j, base + 4 * j + 4)) == FDT_NOP);
        lemma_nops_end_at_depth_fails(s, strs, base, k, j + 1, st);
        assert(base + 4 * j + 4 == base + 4 * (j + 1));
    } else {
        assert(base + 4 * k == s.len() - 4);
    }
}

/// Parsing reservation records in a tail matches parsing them in the whole
/// sequence at the shifted position.
proof fn lemma_rsv_shift(bytes: Seq<u8>, pos: int)
    requires
        0 <= pos,
        bytes.len() >= 40,
    ensures
        spec_parse_rsv(bytes.skip(40), pos) == (match spec_parse_rsv(bytes, pos + 40) {
            Ok(p) => Ok::<(Seq<FdtReserveEntry>, int), DeviceTreeError>((p.0, p.1 - 40)),
            Err(e) => Err::<(Seq<FdtReserveEntry>, int), DeviceTreeError>(e),
        }),
    decreases bytes.len() - pos,
{
    let t = bytes.skip(40);
    if pos + 16 <= t.len() {
        assert(t.subrange(pos, pos + 8) =~= bytes.subrange(pos + 40, pos + 48));
        assert(t.subrange(pos + 8, pos + 16) =~= bytes.subrange(pos + 48, pos + 56));
        lemma_rsv_shift(bytes, pos + 16);
    }
}

} // verus!
