//! Bounds-checked byte-cursor primitives: big-endian integer extraction,
//! length-delimited and NUL-terminated slices, and alignment padding.

use vstd::prelude::*;
use vstd::slice::{slice_index_get, slice_subrange};
use vstd::string::{StringExecFns, StringSliceAdditionalSpecFns};
use vstd::utf8::{decode_utf8, encode_utf8, encode_utf8_decode_utf8, valid_utf8};

use crate::tree::prop::{DeviceTreeProperty, PropV};

verus! {

/// The value of four bytes read as one big-endian 32-bit word.
pub open spec fn spec_be_u32(s: Seq<u8>) -> u32
    recommends
        s.len() == 4,
{
    (s[0] as int * 0x100_0000 + s[1] as int * 0x1_0000 + s[2] as int * 0x100 + s[3] as int) as u32
}

/// The value of eight bytes read as one big-endian 64-bit word.
pub open spec fn spec_be_u64(s: Seq<u8>) -> u64
    recommends
        s.len() == 8,
{
    (s[0] as int * 0x100_0000_0000_0000 + s[1] as int * 0x1_0000_0000_0000 + s[2] as int
        * 0x100_0000_0000 + s[3] as int * 0x1_0000_0000 + s[4] as int * 0x100_0000 + s[5] as int
        * 0x1_0000 + s[6] as int * 0x100 + s[7] as int) as u64
}

/// `len` rounded up to the next multiple of `align`; `align == 0` leaves it as it is.
pub open spec fn spec_aligned_len(len: int, align: int) -> int {
    if align == 0 {
        len
    } else {
        len + (align - len % align) % align
    }
}

/// The index of the first NUL byte at or after `from`, if any.
pub open spec fn spec_find_nul(s: Seq<u8>, from: int) -> Option<int>
    decreases s.len() - from,
{
    if from < 0 || from >= s.len() {
        None
    } else if s[from] == 0 {
        Some(from)
    } else {
        spec_find_nul(s, from + 1)
    }
}

/// Pop the first `len` bytes from `input` and return them.
///
/// Returns `None` and does not modify the slice if fewer than `len` bytes remain.
pub fn pop_slice<'a>(input: &mut &'a [u8], len: usize) -> (r: Option<&'a [u8]>)
    ensures
        len <= old(input)@.len() ==> (r matches Some(s) && s@ == old(input)@.take(len as int)
            && final(input)@ == old(input)@.skip(len as int)),
        len > old(input)@.len() ==> (r is None && final(input)@ == old(input)@),
{
    let n = input.len();
    if len <= n {
        let out = slice_subrange(*input, 0, len);
        *input = slice_subrange(*input, len, n);
        Some(out)
    } else {
        None
    }
}

/// Read four bytes from the front of `input` as a big-endian u32, advancing past them.
pub fn take_be_u32(input: &mut &[u8]) -> (r: Option<u32>)
    ensures
        old(input)@.len() >= 4 ==> (r == Some(spec_be_u32(old(input)@.take(4))) && final(input)@
            == old(input)@.skip(4)),
        old(input)@.len() < 4 ==> (r is None && final(input)@ == old(input)@),
{
    match pop_slice(input, 4) {
        Some(b) => Some(be_u32_of(b)),
        None => None,
    }
}

/// Read eight bytes from the front of `input` as a big-endian u64, advancing past them.
pub fn take_be_u64(input: &mut &[u8]) -> (r: Option<u64>)
    ensures
        old(input)@.len() >= 8 ==> (r == Some(spec_be_u64(old(input)@.take(8))) && final(input)@
            == old(input)@.skip(8)),
        old(input)@.len() < 8 ==> (r is None && final(input)@ == old(input)@),
{
    match pop_slice(input, 8) {
        Some(b) => Some(be_u64_of(b)),
        None => None,
    }
}

/// Read the first four bytes of `input` as a big-endian u32 without advancing.
pub fn read_first_be_u32(input: &[u8]) -> (r: Option<u32>)
    ensures
        input@.len() >= 4 ==> r == Some(spec_be_u32(input@.take(4))),
        input@.len() < 4 ==> r is None,
{
    if input.len() >= 4 {
        let b = slice_subrange(input, 0, 4);
        Some(be_u32_of(b))
    } else {
        None
    }
}

/// Read the first eight bytes of `input` as a big-endian u64 without advancing.
pub fn read_first_be_u64(input: &[u8]) -> (r: Option<u64>)
    ensures
        input@.len() >= 8 ==> r == Some(spec_be_u64(input@.take(8))),
        input@.len() < 8 ==> r is None,
{
    if input.len() >= 8 {
        let b = slice_subrange(input, 0, 8);
        Some(be_u64_of(b))
    } else {
        None
    }
}

/// Combine exactly four bytes into a big-endian u32.
pub(crate) fn be_u32_of(b: &[u8]) -> (r: u32)
    requires
        b@.len() == 4,
    ensures
        r == spec_be_u32(b@),
{
    let b0 = *slice_index_get(b, 0);
    let b1 = *slice_index_get(b, 1);
    let b2 = *slice_index_get(b, 2);
    let b3 = *slice_index_get(b, 3);
    (b0 as u32) * 0x100_0000 + (b1 as u32) * 0x1_0000 + (b2 as u32) * 0x100 + (b3 as u32)
}

/// Combine exactly eight bytes into a big-endian u64.
pub(crate) fn be_u64_of(b: &[u8]) -> (r: u64)
    requires
        b@.len() == 8,
    ensures
        r == spec_be_u64(b@),
{
    let b0 = *slice_index_get(b, 0);
    let b1 = *slice_index_get(b, 1);
    let b2 = *slice_index_get(b, 2);
    let b3 = *slice_index_get(b, 3);
    let b4 = *slice_index_get(b, 4);
    let b5 = *slice_index_get(b, 5);
    let b6 = *slice_index_get(b, 6);
    let b7 = *slice_index_get(b, 7);
    (b0 as u64) * 0x100_0000_0000_0000 + (b1 as u64) * 0x1_0000_0000_0000 + (b2 as u64)
        * 0x100_0000_0000 + (b3 as u64) * 0x1_0000_0000 + (b4 as u64) * 0x100_0000 + (b5 as u64)
        * 0x1_0000 + (b6 as u64) * 0x100 + (b7 as u64)
}

/// The index of the first NUL byte of `input` at or after `from`, if any.
pub fn find_nul(input: &[u8], from: usize) -> (r: Option<usize>)
    ensures
        r matches Some(i) ==> (from <= i < input@.len() && spec_find_nul(input@, from as int)
            == Some(i as int)),
        r is None ==> spec_find_nul(input@, from as int) is None,
{
    let n = input.len();
    let mut i = from;
    while i < n
        invariant
            n == input@.len(),
            from <= i,
            spec_find_nul(input@, from as int) == spec_find_nul(input@, i as int),
        decreases n - i,
    {
        if *slice_index_get(input, i) == 0 {
            return Some(i);
        }
        i = i + 1;
    }
    None
}

/// What `spec_find_nul` finds: an in-range index of a NUL byte with none
/// before it, or the guarantee that no NUL follows.
pub proof fn lemma_find_nul_props(s: Seq<u8>, from: int)
    requires
        0 <= from,
    ensures
        spec_find_nul(s, from) matches Some(n) ==> (from <= n < s.len() && s[n] == 0 && forall|
            j: int,
        | from <= j < n ==> s[j] != 0),
        spec_find_nul(s, from) is None ==> forall|j: int| from <= j < s.len() ==> s[j] != 0,
    decreases s.len() - from,
{
    if from < s.len() && s[from] != 0 {
        lemma_find_nul_props(s, from + 1);
    }
}

/// Relies on core::str::from_utf8: it succeeds exactly on valid UTF-8 input
/// and reinterprets the bytes unchanged.
#[verifier::external_body]
pub(crate) fn bytes_to_str(v: &[u8]) -> (r: Option<&str>)
    ensures
        r matches Some(s) ==> s.spec_bytes() == v@,
        r is Some <==> valid_utf8(v@),
{
    core::str::from_utf8(v).ok()
}

/// Equal byte sequences encode equal character sequences: UTF-8 encoding
/// is injective.
pub proof fn lemma_utf8_encoding_injective(a: Seq<char>, b: Seq<char>)
    requires
        encode_utf8(a) == encode_utf8(b),
    ensures
        a == b,
{
    encode_utf8_decode_utf8(a);
    encode_utf8_decode_utf8(b);
}

/// Whether two byte slices hold the same bytes.
pub fn slice_eq(a: &[u8], b: &[u8]) -> (r: bool)
    ensures
        r == (a@ == b@),
{
    if a.len() != b.len() {
        return false;
    }
    let n = a.len();
    let mut i: usize = 0;
    while i < n
        invariant
            n == a@.len(),
            n == b@.len(),
            i <= n,
            forall|j: int| 0 <= j < i ==> a@[j] == b@[j],
        decreases n - i,
    {
        if *slice_index_get(a, i) != *slice_index_get(b, i) {
            return false;
        }
        i = i + 1;
    }
    proof {
        assert(a@ =~= b@);
    }
    true
}

/// Whether two string slices hold the same characters.
pub fn str_eq(a: &str, b: &str) -> (r: bool)
    ensures
        r == (a@ == b@),
{
    let r = slice_eq(a.as_bytes(), b.as_bytes());
    proof {
        if a.spec_bytes() == b.spec_bytes() {
            lemma_utf8_encoding_injective(a@, b@);
        }
    }
    r
}

/// `len` rounded up to the next multiple of `align`, or `None` past
/// `usize::MAX`; `align == 0` leaves `len` as it is.
pub(crate) fn aligned_len(len: usize, align: usize) -> (r: Option<usize>)
    ensures
        r matches Some(a) ==> a == spec_aligned_len(len as int, align as int),
        r is None ==> spec_aligned_len(len as int, align as int) > usize::MAX,
{
    if align == 0 {
        return Some(len);
    }
    let rem = len % align;
    if rem == 0 {
        proof {
            vstd::arithmetic::div_mod::lemma_mod_self_0(align as int);
        }
        Some(len)
    } else {
        proof {
            vstd::arithmetic::div_mod::lemma_small_mod((align - rem) as nat, align as nat);
        }
        len.checked_add(align - rem)
    }
}

/// Take the first `len` bytes from `input`, advancing past them and past the
/// padding that rounds the consumed span up to a multiple of `align`.
///
/// Returns `None` and does not modify the slice if the padded span exceeds
/// the remaining bytes.
pub fn take_aligned<'a>(input: &mut &'a [u8], len: usize, align: usize) -> (r: Option<&'a [u8]>)
    requires
        align >= 1,
    ensures
        spec_aligned_len(len as int, align as int) <= old(input)@.len() ==> (r matches Some(s)
            && s@ == old(input)@.take(len as int) && final(input)@ == old(input)@.skip(
            spec_aligned_len(len as int, align as int),
        )),
        spec_aligned_len(len as int, align as int) > old(input)@.len() ==> (r is None && final(input)@ == old(input)@),
{
    let b = *input;
    let blen = b.len();
    let padded = match aligned_len(len, align) {
        Some(a) => a,
        None => {
            return None;
        },
    };
    match pop_slice(input, padded) {
        Some(s) => Some(slice_subrange(s, 0, len)),
        None => None,
    }
}

/// Whether two property values carry the same variant, whatever they hold.
pub open spec fn spec_same_variant(a: PropV, b: PropV) -> bool {
    match (a, b) {
        (PropV::Empty, PropV::Empty) => true,
        (PropV::Str(_), PropV::Str(_)) => true,
        (PropV::StrList(_), PropV::StrList(_)) => true,
        (PropV::U32(_), PropV::U32(_)) => true,
        (PropV::U64(_), PropV::U64(_)) => true,
        (PropV::Bytes(_), PropV::Bytes(_)) => true,
        (PropV::Raw(_), PropV::Raw(_)) => true,
        (PropV::Pairs(_), PropV::Pairs(_)) => true,
        (PropV::Triplets(_), PropV::Triplets(_)) => true,
        (PropV::Status(_), PropV::Status(_)) => true,
        _ => false,
    }
}

/// A function that compares two property values by their variant.
///
/// Returns true if both values are the same variant.
pub fn variant_eq(a: &DeviceTreeProperty, b: &DeviceTreeProperty) -> (r: bool)
    ensures
        r == spec_same_variant(a@, b@),
{
    match (a, b) {
        (DeviceTreeProperty::Empty, DeviceTreeProperty::Empty) => true,
        (DeviceTreeProperty::String(_), DeviceTreeProperty::String(_)) => true,
        (DeviceTreeProperty::StringList(_), DeviceTreeProperty::StringList(_)) => true,
        (DeviceTreeProperty::U32(_), DeviceTreeProperty::U32(_)) => true,
        (DeviceTreeProperty::U64(_), DeviceTreeProperty::U64(_)) => true,
        (DeviceTreeProperty::Bytes(_), DeviceTreeProperty::Bytes(_)) => true,
        (DeviceTreeProperty::Raw(_), DeviceTreeProperty::Raw(_)) => true,
        (DeviceTreeProperty::Pairs(_), DeviceTreeProperty::Pairs(_)) => true,
        (DeviceTreeProperty::Triplets(_), DeviceTreeProperty::Triplets(_)) => true,
        (DeviceTreeProperty::Status(_), DeviceTreeProperty::Status(_)) => true,
        _ => false,
    }
}

/// Take the NUL-terminated UTF-8 string at the front of `input`, advancing
/// past the string, its NUL, and the padding that rounds the consumed span up
/// to a multiple of `align` (an `align` of zero pads nothing).
///
/// Returns `None` and does not modify the slice if no NUL byte follows, the
/// bytes before it are not valid UTF-8, or the padded span exceeds the
/// remaining bytes.
pub fn take_utf8_until_nul_aligned<'a>(input: &mut &'a [u8], align: usize) -> (r: Option<&'a str>)
    ensures
        spec_find_nul(old(input)@, 0) is None ==> (r is None && final(input)@ == old(input)@),
        spec_find_nul(old(input)@, 0) matches Some(n) ==> ({
            let name = old(input)@.take(n);
            let span = spec_aligned_len(n + 1, align as int);
            if valid_utf8(name) && span <= old(input)@.len() {
                r matches Some(s) && s.spec_bytes() == name && s@ == decode_utf8(name) && final(input)@ == old(input)@.skip(span)
            } else {
                r is None && final(input)@ == old(input)@
            }
        }),
{
    let b = *input;
    let blen = b.len();
    let n = match find_nul(b, 0) {
        Some(n) => n,
        None => {
            return None;
        },
    };
    let s = match bytes_to_str(slice_subrange(b, 0, n)) {
        Some(s) => s,
        None => {
            return None;
        },
    };
    let span = match aligned_len(n + 1, align) {
        Some(a) => a,
        None => {
            return None;
        },
    };
    if span > blen {
        return None;
    }
    *input = slice_subrange(b, span, blen);
    proof {
        encode_utf8_decode_utf8(s@);
    }
    Some(s)
}

/// The uppercase hexadecimal digit for a value below sixteen.
pub open spec fn spec_hex_digit(d: int) -> char {
    if d == 0 {
        '0'
    } else if d == 1 {
        '1'
    } else if d == 2 {
        '2'
    } else if d == 3 {
        '3'
    } else if d == 4 {
        '4'
    } else if d == 5 {
        '5'
    } else if d == 6 {
        '6'
    } else if d == 7 {
        '7'
    } else if d == 8 {
        '8'
    } else if d == 9 {
        '9'
    } else if d == 10 {
        'A'
    } else if d == 11 {
        'B'
    } else if d == 12 {
        'C'
    } else if d == 13 {
        'D'
    } else if d == 14 {
        'E'
    } else {
        'F'
    }
}

/// The decimal digit for a value below ten.
pub open spec fn spec_dec_digit(d: int) -> char {
    if d == 0 {
        '0'
    } else if d == 1 {
        '1'
    } else if d == 2 {
        '2'
    } else if d == 3 {
        '3'
    } else if d == 4 {
        '4'
    } else if d == 5 {
        '5'
    } else if d == 6 {
        '6'
    } else if d == 7 {
        '7'
    } else if d == 8 {
        '8'
    } else {
        '9'
    }
}

/// `v` written in uppercase hexadecimal, most significant digit first, with
/// no leading zeroes.
pub open spec fn spec_hex(v: int) -> Seq<char>
    decreases v,
{
    if v < 16 {
        seq![spec_hex_digit(v)]
    } else {
        spec_hex(v / 16).push(spec_hex_digit(v % 16))
    }
}

/// `v` written in decimal, most significant digit first, with no leading
/// zeroes.
pub open spec fn spec_dec(v: int) -> Seq<char>
    decreases v,
{
    if v < 10 {
        seq![spec_dec_digit(v)]
    } else {
        spec_dec(v / 10).push(spec_dec_digit(v % 10))
    }
}

/// The tail of a joined sequence: separator and part, for each part from
/// position `i` on.
pub open spec fn spec_join_from(parts: Seq<Seq<char>>, sep: Seq<char>, i: int) -> Seq<char>
    decreases parts.len() - i,
{
    if i < 0 || i >= parts.len() {
        Seq::empty()
    } else {
        sep + parts[i] + spec_join_from(parts, sep, i + 1)
    }
}

/// The parts joined by the separator: empty for no parts, else the first
/// part followed by separator-part tails.
pub open spec fn spec_join(parts: Seq<Seq<char>>, sep: Seq<char>) -> Seq<char> {
    if parts.len() == 0 {
        Seq::empty()
    } else {
        parts[0] + spec_join_from(parts, sep, 1)
    }
}

/// The uppercase hexadecimal digit of a value below sixteen, as a string.
pub(crate) fn hex_digit_str(d: u8) -> (r: &'static str)
    requires
        d < 16,
    ensures
        r@ == seq![spec_hex_digit(d as int)],
{
    let r: &'static str = if d == 0 {
        "0"
    } else if d == 1 {
        "1"
    } else if d == 2 {
        "2"
    } else if d == 3 {
        "3"
    } else if d == 4 {
        "4"
    } else if d == 5 {
        "5"
    } else if d == 6 {
        "6"
    } else if d == 7 {
        "7"
    } else if d == 8 {
        "8"
    } else if d == 9 {
        "9"
    } else if d == 10 {
        "A"
    } else if d == 11 {
        "B"
    } else if d == 12 {
        "C"
    } else if d == 13 {
        "D"
    } else if d == 14 {
        "E"
    } else {
        "F"
    };
    proof {
        reveal_strlit("0");
        reveal_strlit("1");
        reveal_strlit("2");
        reveal_strlit("3");
        reveal_strlit("4");
        reveal_strlit("5");
        reveal_strlit("6");
        reveal_strlit("7");
        reveal_strlit("8");
        reveal_strlit("9");
        reveal_strlit("A");
        reveal_strlit("B");
        reveal_strlit("C");
        reveal_strlit("D");
        reveal_strlit("E");
        reveal_strlit("F");
        assert(r@ =~= seq![spec_hex_digit(d as int)]);
    }
    r
}

/// The decimal digit of a value below ten, as a string.
fn dec_digit_str(d: u8) -> (r: &'static str)
    requires
        d < 10,
    ensures
        r@ == seq![spec_dec_digit(d as int)],
{
    let r: &'static str = if d == 0 {
        "0"
    } else if d == 1 {
        "1"
    } else if d == 2 {
        "2"
    } else if d == 3 {
        "3"
    } else if d == 4 {
        "4"
    } else if d == 5 {
        "5"
    } else if d == 6 {
        "6"
    } else if d == 7 {
        "7"
    } else if d == 8 {
        "8"
    } else {
        "9"
    };
    proof {
        reveal_strlit("0");
        reveal_strlit("1");
        reveal_strlit("2");
        reveal_strlit("3");
        reveal_strlit("4");
        reveal_strlit("5");
        reveal_strlit("6");
        reveal_strlit("7");
        reveal_strlit("8");
        reveal_strlit("9");
        assert(r@ =~= seq![spec_dec_digit(d as int)]);
    }
    r
}

/// `v` written in uppercase hexadecimal.
pub fn hex_str(v: u64) -> (r: String)
    ensures
        r@ == spec_hex(v as int),
    decreases v,
{
    if v < 16 {
        let r = hex_digit_str(v as u8).to_owned();
        r
    } else {
        let mut r = hex_str(v / 16);
        r.append(hex_digit_str((v % 16) as u8));
        r
    }
}

/// `v` written in decimal.
pub fn dec_str(v: u64) -> (r: String)
    ensures
        r@ == spec_dec(v as int),
    decreases v,
{
    if v < 10 {
        let r = dec_digit_str(v as u8).to_owned();
        r
    } else {
        let mut r = dec_str(v / 10);
        r.append(dec_digit_str((v % 10) as u8));
        r
    }
}

/// Join the parts with the separator.
pub fn join_parts(parts: &Vec<String>, sep: &str) -> (r: String)
    ensures
        r@ == spec_join(parts.deep_view(), sep@),
{
    let n = parts.len();
    if n == 0 {
        return String::new();
    }
    let mut r = parts[0].clone();
    let mut i: usize = 1;
    while i < n
        invariant
            n == parts@.len(),
            1 <= i <= n,
            spec_join(parts.deep_view(), sep@) == r@ + spec_join_from(parts.deep_view(), sep@, i as int),
        decreases n - i,
    {
        let ghost pre = r@;
        r.append(sep);
        r.append(parts[i].as_str());
        proof {
            assert(r@ =~= pre + (sep@ + parts.deep_view()[i as int]));
            assert(pre + (sep@ + parts.deep_view()[i as int] + spec_join_from(
                parts.deep_view(),
                sep@,
                i + 1,
            )) =~= r@ + spec_join_from(parts.deep_view(), sep@, i + 1));
        }
        i = i + 1;
    }
    proof {
        assert(r@ + spec_join_from(parts.deep_view(), sep@, n as int) =~= r@);
    }
    r
}

/// Each string wrapped in single quotes.
pub open spec fn spec_quoted_parts(v: Seq<Seq<char>>) -> Seq<Seq<char>> {
    Seq::new(v.len(), |i: int| seq!['\''] + v[i] + seq!['\''])
}

/// Format a vector of strings in the form 'first', 'second'.
pub fn vec_strings_fmt(v: &Vec<String>) -> (r: String)
    ensures
        r@ == spec_join(spec_quoted_parts(v.deep_view()), ", "@),
{
    let mut parts: Vec<String> = Vec::new();
    let n = v.len();
    let mut i: usize = 0;
    while i < n
        invariant
            n == v@.len(),
            i <= n,
            parts.deep_view() =~= spec_quoted_parts(v.deep_view()).take(i as int),
        decreases n - i,
    {
        let ghost pre = parts.deep_view();
        let mut q = String::new();
        q.append("'");
        q.append(v[i].as_str());
        q.append("'");
        proof {
            reveal_strlit("'");
            assert(q@ =~= seq!['\''] + v.deep_view()[i as int] + seq!['\'']);
        }
        parts.push(q);
        proof {
            assert(parts.deep_view() =~= pre.push(seq!['\''] + v.deep_view()[i as int] + seq![
                '\'',
            ]));
            assert(parts.deep_view() =~= spec_quoted_parts(v.deep_view()).take(i + 1));
        }
        i = i + 1;
    }
    proof {
        assert(spec_quoted_parts(v.deep_view()).take(n as int) =~= spec_quoted_parts(v.deep_view()));
    }
    join_parts(&parts, ", ")
}

/// Take the NUL-terminated UTF-8 string at the front of `input`, advancing
/// past the string and its NUL.
///
/// Returns `None` and does not modify the slice if no NUL byte follows or the
/// bytes before it are not valid UTF-8.
pub fn take_utf8_until_nul<'a>(input: &mut &'a [u8]) -> (r: Option<&'a str>)
    ensures
        spec_find_nul(old(input)@, 0) is None ==> (r is None && final(input)@ == old(input)@),
        spec_find_nul(old(input)@, 0) matches Some(n) ==> ({
            let name = old(input)@.take(n);
            if valid_utf8(name) {
                r matches Some(s) && s.spec_bytes() == name && s@ == decode_utf8(name) && final(input)@ == old(input)@.skip(n + 1)
            } else {
                r is None && final(input)@ == old(input)@
            }
        }),
{
    let b = *input;
    let blen = b.len();
    let n = match find_nul(b, 0) {
        Some(n) => n,
        None => {
            return None;
        },
    };
    let s = match bytes_to_str(slice_subrange(b, 0, n)) {
        Some(s) => s,
        None => {
            return None;
        },
    };
    *input = slice_subrange(b, n + 1, blen);
    proof {
        encode_utf8_decode_utf8(s@);
    }
    Some(s)
}

} // verus!
