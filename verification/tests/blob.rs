//! Whole-blob decoding: header checks, reservation list, block splitting,
//! and the token-stream replay into a tree.

use device_tree::fdt::blob::{FdtPropDescribe, FdtReserveEntry, FdtStringsBlock, FdtStructBlock, Token};
use device_tree::tree::prop::{DeviceTreeProperty, Pairs};
use device_tree::{DeviceTree, DeviceTreeBlob, DeviceTreeError};

const FDT_BEGIN_NODE: u32 = 0x00000001;
const FDT_END_NODE: u32 = 0x00000002;
const FDT_PROP: u32 = 0x00000003;
const FDT_NOP: u32 = 0x00000004;
const FDT_END: u32 = 0x00000009;

fn push_u32(v: &mut Vec<u8>, x: u32) {
    v.extend_from_slice(&x.to_be_bytes());
}

fn push_u64(v: &mut Vec<u8>, x: u64) {
    v.extend_from_slice(&x.to_be_bytes());
}

/// Append a NUL-terminated name padded to a multiple of four bytes.
fn push_name(v: &mut Vec<u8>, name: &str) {
    v.extend_from_slice(name.as_bytes());
    v.push(0);
    while v.len() % 4 != 0 {
        v.push(0);
    }
}

fn push_begin(v: &mut Vec<u8>, name: &str) {
    push_u32(v, FDT_BEGIN_NODE);
    push_name(v, name);
}

fn push_prop(v: &mut Vec<u8>, name_off: u32, payload: &[u8]) {
    push_u32(v, FDT_PROP);
    push_u32(v, payload.len() as u32);
    push_u32(v, name_off);
    v.extend_from_slice(payload);
    while v.len() % 4 != 0 {
        v.push(0);
    }
}

/// The strings block of the sample blob: "#address-cells" at offset 0,
/// "#size-cells" at 15, "compatible" at 27, "device_type" at 38.
fn sample_strings() -> Vec<u8> {
    b"#address-cells\0#size-cells\0compatible\0device_type\0".to_vec()
}

/// The structure block of the sample blob: a root holding cell-count
/// properties, a "cpus" node with four cpu@N children, and a "memory" node.
fn sample_structure() -> Vec<u8> {
    let mut v = Vec::new();
    push_begin(&mut v, "");
    push_prop(&mut v, 0, &2u32.to_be_bytes());
    push_prop(&mut v, 15, &1u32.to_be_bytes());
    push_prop(&mut v, 27, b"sample,board\0");
    push_begin(&mut v, "cpus");
    for i in 0..4u32 {
        push_begin(&mut v, &format!("cpu@{}", i));
        push_prop(&mut v, 38, b"cpu\0");
        push_u32(&mut v, FDT_END_NODE);
    }
    push_u32(&mut v, FDT_END_NODE);
    push_begin(&mut v, "memory");
    push_prop(&mut v, 38, b"memory\0");
    push_u32(&mut v, FDT_END_NODE);
    push_u32(&mut v, FDT_END_NODE);
    push_u32(&mut v, FDT_END);
    v
}

/// A whole well-formed sample blob with one reserved memory range.
fn sample_blob() -> Vec<u8> {
    let structure = sample_structure();
    let strings = sample_strings();
    let mut v = Vec::new();
    let rsv_len = 32;
    let total = 40 + rsv_len + structure.len() + strings.len();
    push_u32(&mut v, 0xd00dfeed);
    push_u32(&mut v, total as u32);
    push_u32(&mut v, (40 + rsv_len) as u32);
    push_u32(&mut v, (40 + rsv_len + structure.len()) as u32);
    push_u32(&mut v, 40);
    push_u32(&mut v, 17);
    push_u32(&mut v, 16);
    push_u32(&mut v, 0);
    push_u32(&mut v, strings.len() as u32);
    push_u32(&mut v, structure.len() as u32);
    push_u64(&mut v, 0x4000_0000);
    push_u64(&mut v, 0x1000);
    push_u64(&mut v, 0);
    push_u64(&mut v, 0);
    v.extend_from_slice(&structure);
    v.extend_from_slice(&strings);
    v
}

#[test]
fn devicetreeblob() {
    let bytes = sample_blob();
    let mut dtb: &[u8] = &bytes;
    let blob = DeviceTreeBlob::from_bytes(&mut dtb);
    assert!(blob.is_ok());
}

#[test]
fn dtb() {
    let bytes = sample_blob();
    let mut dtb: &[u8] = &bytes;
    let blob = DeviceTreeBlob::from_bytes(&mut dtb);
    assert!(blob.is_ok());
}

#[test]
fn tests_parsing() {
    let bytes = sample_blob();
    let mut dtb: &[u8] = &bytes;
    let blob = DeviceTreeBlob::from_bytes(&mut dtb).unwrap();
    let structure_block = blob.structure_block();
    let mut block_bytes = structure_block.bytes();
    let cursor = Token::from_bytes(&mut block_bytes).unwrap();
    assert_eq!(cursor, Token::TokenBeginNode);
}

#[test]
fn blob_parsing() {
    let bytes = sample_blob();
    let mut dtb: &[u8] = &bytes;
    let blob = DeviceTreeBlob::from_bytes(&mut dtb).unwrap();
    let structure_block = blob.structure_block();
    let mut block_bytes = structure_block.bytes();
    let cursor = Token::from_bytes(&mut block_bytes).unwrap();
    assert_eq!(cursor, Token::TokenBeginNode);
}

#[test]
fn tests_strings_block() {
    let bytes = sample_blob();
    let mut dtb: &[u8] = &bytes;
    let blob = DeviceTreeBlob::from_bytes(&mut dtb).unwrap();
    let strings_block = blob.strings_block();
    assert_eq!(strings_block.find(0), Ok("#address-cells"));
    assert_eq!(strings_block.find(15), Ok("#size-cells"));
    assert_eq!(strings_block.find(27), Ok("compatible"));
}

#[test]
fn blob_strings_block() {
    let bytes = sample_blob();
    let mut dtb: &[u8] = &bytes;
    let blob = DeviceTreeBlob::from_bytes(&mut dtb).unwrap();
    let strings_block = blob.strings_block();
    assert_eq!(strings_block.find(0), Ok("#address-cells"));
    assert_eq!(strings_block.find(15), Ok("#size-cells"));
    assert_eq!(strings_block.find(27), Ok("compatible"));
}

#[test]
fn tests_blob_to_tree() {
    let bytes = sample_blob();
    let mut dtb: &[u8] = &bytes;
    let mut blob = DeviceTreeBlob::from_bytes(&mut dtb).unwrap();
    let tree = blob.to_tree().unwrap();
    assert_eq!(tree.num_cpus(), 4);
}

#[test]
fn blob_blob_to_tree() {
    let bytes = sample_blob();
    let mut dtb: &[u8] = &bytes;
    let mut blob = DeviceTreeBlob::from_bytes(&mut dtb).unwrap();
    let tree = blob.to_tree().unwrap();
    assert_eq!(tree.num_cpus(), 4);
}

#[test]
fn from_bytes() {
    let bytes = sample_blob();
    let mut dtb: &[u8] = &bytes;
    let tree = DeviceTree::from_bytes(&mut dtb).unwrap();
    assert_eq!(tree.num_cpus(), 4);
}

#[test]
fn decode_known_good() {
    let bytes = sample_blob();
    let mut dtb: &[u8] = &bytes;
    let tree = DeviceTree::from_bytes(&mut dtb).unwrap();
    let root = tree.node(tree.root());
    assert_eq!(root.name(), "/");
    assert!(root.child_exists("cpus"));
    assert!(root.child_exists("memory"));
    assert!(!root.child_exists("chosen"));
    let addr = root.prop_value("#address-cells").unwrap();
    assert_eq!(*addr, DeviceTreeProperty::U32(2));
    let size = root.prop_value("#size-cells").unwrap();
    assert_eq!(*size, DeviceTreeProperty::U32(1));
    let compat = root.prop_value("compatible").unwrap();
    assert_eq!(
        *compat,
        DeviceTreeProperty::StringList(vec!["sample,board".to_string()])
    );
    let cpus = root.find_child("cpus").unwrap();
    assert_eq!(tree.node(cpus).num_children(), 4);
    let cpu0 = tree.node(cpus).find_child("cpu@0").unwrap();
    assert_eq!(
        *tree.node(cpu0).prop_value("device_type").unwrap(),
        DeviceTreeProperty::String("cpu".to_string())
    );
    assert_eq!(tree.node(cpu0).parent(), Some(cpus));
}

#[test]
fn decode_twice_equal() {
    let bytes = sample_blob();
    let mut a: &[u8] = &bytes;
    let mut b: &[u8] = &bytes;
    let t1 = DeviceTree::from_bytes(&mut a).unwrap();
    let t2 = DeviceTree::from_bytes(&mut b).unwrap();
    assert_eq!(t1, t2);
}

#[test]
fn reservation_list() {
    let bytes = sample_blob();
    let mut dtb: &[u8] = &bytes;
    let blob = DeviceTreeBlob::from_bytes(&mut dtb).unwrap();
    let rsv = blob.memory_reservation_block();
    assert_eq!(rsv.len(), 1);
    assert_eq!(rsv[0].address, 0x4000_0000);
    assert_eq!(rsv[0].size, 0x1000);
    assert!(!rsv.iter().any(|e| e.address == 0 && e.size == 0));
    assert!(!rsv[0].end_of_list());
}

#[test]
fn bad_version_detected() {
    let mut bytes = sample_blob();
    bytes[20..24].copy_from_slice(&16u32.to_be_bytes());
    let mut dtb: &[u8] = &bytes;
    let r = DeviceTreeBlob::from_bytes(&mut dtb);
    assert_eq!(r.err(), Some(DeviceTreeError::BadVersion(16)));
}

#[test]
fn bad_magic_detected() {
    let mut bytes = sample_blob();
    bytes[0..4].copy_from_slice(&0xdeadbeefu32.to_be_bytes());
    let mut dtb: &[u8] = &bytes;
    let r = DeviceTreeBlob::from_bytes(&mut dtb);
    assert_eq!(r.err(), Some(DeviceTreeError::BadMagic(0xdeadbeef)));
}

#[test]
fn truncated_header() {
    let bytes = sample_blob();
    let mut dtb: &[u8] = &bytes[..39];
    let r = DeviceTreeBlob::from_bytes(&mut dtb);
    assert_eq!(r.err(), Some(DeviceTreeError::TruncatedInput));
}

#[test]
fn truncated_blocks() {
    let bytes = sample_blob();
    let mut dtb: &[u8] = &bytes[..bytes.len() - 8];
    let r = DeviceTreeBlob::from_bytes(&mut dtb);
    assert_eq!(r.err(), Some(DeviceTreeError::TruncatedInput));
}

/// A blob whose structure and strings blocks are handed in directly, with an
/// empty reservation list.
fn blob_around(structure: &[u8], strings: &[u8]) -> Vec<u8> {
    let mut v = Vec::new();
    let total = 40 + 16 + structure.len() + strings.len();
    push_u32(&mut v, 0xd00dfeed);
    push_u32(&mut v, total as u32);
    push_u32(&mut v, 56);
    push_u32(&mut v, (56 + structure.len()) as u32);
    push_u32(&mut v, 40);
    push_u32(&mut v, 17);
    push_u32(&mut v, 16);
    push_u32(&mut v, 0);
    push_u32(&mut v, strings.len() as u32);
    push_u32(&mut v, structure.len() as u32);
    push_u64(&mut v, 0);
    push_u64(&mut v, 0);
    v.extend_from_slice(structure);
    v.extend_from_slice(strings);
    v
}

#[test]
fn nops_then_end_only_root() {
    let mut structure = Vec::new();
    push_u32(&mut structure, FDT_NOP);
    push_u32(&mut structure, FDT_NOP);
    push_u32(&mut structure, FDT_NOP);
    push_u32(&mut structure, FDT_END);
    let bytes = blob_around(&structure, b"");
    let mut dtb: &[u8] = &bytes;
    let tree = DeviceTree::from_bytes(&mut dtb).unwrap();
    assert_eq!(tree.num_nodes(), 1);
    assert_eq!(tree.node(tree.root()).num_children(), 0);
}

#[test]
fn dangling_begin_fails() {
    let mut structure = Vec::new();
    push_begin(&mut structure, "node");
    push_u32(&mut structure, FDT_END);
    let bytes = blob_around(&structure, b"");
    let mut dtb: &[u8] = &bytes;
    let r = DeviceTree::from_bytes(&mut dtb);
    assert_eq!(r.err(), Some(DeviceTreeError::BadToken));
}

#[test]
fn dangling_begin_with_nops_fails() {
    let mut structure = Vec::new();
    push_begin(&mut structure, "node");
    push_u32(&mut structure, FDT_NOP);
    push_u32(&mut structure, FDT_NOP);
    push_u32(&mut structure, FDT_END);
    let bytes = blob_around(&structure, b"");
    let mut dtb: &[u8] = &bytes;
    let r = DeviceTree::from_bytes(&mut dtb);
    assert_eq!(r.err(), Some(DeviceTreeError::BadToken));
}

#[test]
fn unknown_word_is_bad_token() {
    let mut structure = Vec::new();
    push_u32(&mut structure, 0x00000007);
    let bytes = blob_around(&structure, b"");
    let mut dtb: &[u8] = &bytes;
    let r = DeviceTree::from_bytes(&mut dtb);
    assert_eq!(r.err(), Some(DeviceTreeError::BadToken));
}

#[test]
fn missing_token_word_is_not_a_token() {
    let mut structure = Vec::new();
    push_u32(&mut structure, FDT_NOP);
    structure.push(0);
    structure.push(0);
    let bytes = blob_around(&structure, b"");
    let mut dtb: &[u8] = &bytes;
    let r = DeviceTree::from_bytes(&mut dtb);
    assert_eq!(r.err(), Some(DeviceTreeError::NotAToken));
}

#[test]
fn prop_name_offset_out_of_bounds() {
    let mut structure = Vec::new();
    push_begin(&mut structure, "");
    push_prop(&mut structure, 99, b"");
    push_u32(&mut structure, FDT_END_NODE);
    let bytes = blob_around(&structure, b"model\0");
    let mut dtb: &[u8] = &bytes;
    let r = DeviceTree::from_bytes(&mut dtb);
    assert_eq!(r.err(), Some(DeviceTreeError::BadStringsBlockOffset));
}

#[test]
fn prop_name_invalid_utf8() {
    let mut structure = Vec::new();
    push_begin(&mut structure, "");
    push_prop(&mut structure, 0, b"");
    push_u32(&mut structure, FDT_END_NODE);
    let bytes = blob_around(&structure, b"\xff\xfe\0");
    let mut dtb: &[u8] = &bytes;
    let r = DeviceTree::from_bytes(&mut dtb);
    assert_eq!(r.err(), Some(DeviceTreeError::BadPropValue));
}

#[test]
fn prop_payload_truncated() {
    let mut structure = Vec::new();
    push_begin(&mut structure, "");
    push_u32(&mut structure, FDT_PROP);
    push_u32(&mut structure, 64);
    push_u32(&mut structure, 0);
    let bytes = blob_around(&structure, b"model\0");
    let mut dtb: &[u8] = &bytes;
    let r = DeviceTree::from_bytes(&mut dtb);
    assert_eq!(r.err(), Some(DeviceTreeError::TruncatedInput));
}

#[test]
fn last_property_write_wins() {
    let mut structure = Vec::new();
    push_begin(&mut structure, "");
    push_prop(&mut structure, 0, b"first\0");
    push_prop(&mut structure, 0, b"second\0");
    push_u32(&mut structure, FDT_END_NODE);
    let bytes = blob_around(&structure, b"model\0");
    let mut dtb: &[u8] = &bytes;
    let tree = DeviceTree::from_bytes(&mut dtb).unwrap();
    let root = tree.node(tree.root());
    assert_eq!(
        *root.prop_value("model").unwrap(),
        DeviceTreeProperty::String("second".to_string())
    );
}

#[test]
fn strings_lookup_bounds() {
    let bytes = sample_blob();
    let mut dtb: &[u8] = &bytes;
    let blob = DeviceTreeBlob::from_bytes(&mut dtb).unwrap();
    let strings_block = blob.strings_block();
    let len = sample_strings().len();
    assert_eq!(
        strings_block.find(len),
        Err(DeviceTreeError::BadStringsBlockOffset)
    );
    assert_eq!(
        strings_block.find(len + 40),
        Err(DeviceTreeError::BadStringsBlockOffset)
    );
    assert_eq!(strings_block.find(1), Ok("address-cells"));
}

#[test]
fn header_getters() {
    let bytes = sample_blob();
    let mut dtb: &[u8] = &bytes;
    let blob = DeviceTreeBlob::from_bytes(&mut dtb).unwrap();
    let header = blob.header();
    assert_eq!(header.off_mem_rsvmap(), 40);
    assert_eq!(header.last_comp_version(), 16);
    assert_eq!(header.boot_cpuid_phys(), 0);
    assert_eq!(header.totalsize(), bytes.len());
    assert_eq!(header.size_dt_strings(), sample_strings().len());
    assert_eq!(header.size_dt_struct(), sample_structure().len());
    assert!(header.check().is_ok());
    assert!(header.magic_check().is_ok());
    assert!(header.version_check().is_ok());
    assert_eq!(header.off_dt_struct(), 72);
    assert_eq!(header.off_dt_strings(), (72 + sample_structure().len()) as u32);
}

#[test]
fn token_classification() {
    let mut words = Vec::new();
    push_u32(&mut words, FDT_BEGIN_NODE);
    push_u32(&mut words, FDT_END_NODE);
    push_u32(&mut words, FDT_PROP);
    push_u32(&mut words, FDT_NOP);
    push_u32(&mut words, FDT_END);
    push_u32(&mut words, 0x00000042);
    let mut bytes: &[u8] = &words;
    let begin = Token::from_bytes(&mut bytes).unwrap();
    assert!(begin.is_begin_node());
    assert!(!begin.is_end());
    let end_node = Token::from_bytes(&mut bytes).unwrap();
    assert!(end_node.is_end_node());
    let prop = Token::from_bytes(&mut bytes).unwrap();
    assert!(prop.is_prop());
    let nop = Token::from_bytes(&mut bytes).unwrap();
    assert!(nop.is_nop());
    let end = Token::from_bytes(&mut bytes).unwrap();
    assert!(end.is_end());
    assert_eq!(
        Token::from_bytes(&mut bytes),
        Err(DeviceTreeError::NotAToken)
    );
    let mut short: &[u8] = &[0, 0];
    assert_eq!(Token::from_bytes(&mut short), Err(DeviceTreeError::NotAToken));
}

#[test]
fn wire_records() {
    let mut rec = Vec::new();
    push_u64(&mut rec, 0x8000_0000);
    push_u64(&mut rec, 0x2000);
    let mut bytes: &[u8] = &rec;
    let entry = FdtReserveEntry::from_bytes(&mut bytes).unwrap();
    assert_eq!(entry.address, 0x8000_0000);
    assert_eq!(entry.size, 0x2000);
    assert!(!entry.end_of_list());
    assert!(bytes.is_empty());

    let mut sentinel_rec = Vec::new();
    push_u64(&mut sentinel_rec, 0);
    push_u64(&mut sentinel_rec, 0);
    let mut bytes: &[u8] = &sentinel_rec;
    let sentinel = FdtReserveEntry::from_bytes(&mut bytes).unwrap();
    assert!(sentinel.end_of_list());

    let mut desc = Vec::new();
    push_u32(&mut desc, 12);
    push_u32(&mut desc, 27);
    let mut bytes: &[u8] = &desc;
    let describe = FdtPropDescribe::from_bytes(&mut bytes).unwrap();
    assert_eq!(describe.len(), 12);
    assert_eq!(describe.name_off(), 27);
    let mut short: &[u8] = &[0, 0, 0];
    assert_eq!(FdtPropDescribe::from_bytes(&mut short), None);
}

#[test]
fn blocks_from_bytes() {
    let block = FdtStructBlock::from_bytes(b"abcd");
    assert_eq!(block.bytes(), b"abcd");
    let strings = FdtStringsBlock::from_bytes(b"one\0two\0");
    assert_eq!(strings.find(4), Ok("two"));
    assert_eq!(strings.find(8), Err(DeviceTreeError::BadStringsBlockOffset));
}

#[test]
fn effective_cells_inherited() {
    let bytes = sample_blob();
    let mut dtb: &[u8] = &bytes;
    let tree = DeviceTree::from_bytes(&mut dtb).unwrap();
    let root = tree.root();
    let cpus = tree.node(root).find_child("cpus").unwrap();
    let cpu0 = tree.node(cpus).find_child("cpu@0").unwrap();
    let cells = tree.effective_num_cells(cpus);
    assert_eq!((cells.address_cells, cells.size_cells), (2, 1));
    let deep = tree.effective_num_cells(cpu0);
    assert_eq!((deep.address_cells, deep.size_cells), (2, 1));
    let at_root = tree.effective_num_cells(root);
    assert_eq!((at_root.address_cells, at_root.size_cells), (2, 1));
}

#[test]
fn reg_decoded_with_effective_cells() {
    let mut structure = Vec::new();
    push_begin(&mut structure, "");
    push_prop(&mut structure, 0, &1u32.to_be_bytes());
    push_prop(&mut structure, 15, &1u32.to_be_bytes());
    push_begin(&mut structure, "serial");
    let mut reg = Vec::new();
    push_u32(&mut reg, 0x1000_0000);
    push_u32(&mut reg, 0x100);
    push_prop(&mut structure, 27, &reg);
    push_u32(&mut structure, FDT_END_NODE);
    push_u32(&mut structure, FDT_END_NODE);
    let strings = b"#address-cells\0#size-cells\0reg\0";
    let bytes = blob_around(&structure, strings);
    let mut dtb: &[u8] = &bytes;
    let tree = DeviceTree::from_bytes(&mut dtb).unwrap();
    let serial = tree.node(tree.root()).find_child("serial").unwrap();
    let cells = tree.effective_num_cells(serial);
    assert_eq!((cells.address_cells, cells.size_cells), (1, 1));
    let raw = match tree.node(serial).prop_value("reg").unwrap() {
        DeviceTreeProperty::Raw(b) => b.clone(),
        other => panic!("reg coerced unexpectedly: {:?}", other),
    };
    let pairs = Pairs::from_raw(&raw, cells).unwrap();
    assert_eq!(pairs.0, vec![(vec![0x1000_0000u32], vec![0x100u32])]);
}
