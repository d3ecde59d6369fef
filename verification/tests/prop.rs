//! Property values: the name-driven coercion table, accessors, and the
//! display rendering of each variant.

use device_tree::tree::prop::{
    DeviceTreeProperty, DeviceTreePropertyType, NumCells, Pairs, StatusValue, Triplets,
};
use device_tree::utils::variant_eq;
use device_tree::DeviceTreeError;

#[test]
fn tests_prop_value() {
    let string_list = vec![String::from("string1"), String::from("string2")];
    let comp = DeviceTreeProperty::StringList(string_list);
    assert_eq!(comp.to_stringfmt(), String::from("'string1', 'string2'"));

    let string = DeviceTreeProperty::String(String::from("string"));
    assert_eq!(string.to_stringfmt(), String::from("string"));

    let word = DeviceTreeProperty::U32(16_u32);
    assert_eq!(word.to_stringfmt(), String::from("0x10"));

    let status = DeviceTreeProperty::Status(StatusValue::Okay);
    assert_eq!(status.to_stringfmt(), String::from("okay"));

    let reg_value = Pairs(vec![
        (vec![222_u32, 1_u32], vec![16_u32, 204_u32]),
        (vec![256_u32], vec![172_u32]),
    ]);
    let reg = DeviceTreeProperty::Pairs(reg_value);
    assert_eq!(reg.to_stringfmt(), String::from("0xDE 0x1 0x10 0xCC 0x100 0xAC"));

    let ranges_value = Some(Triplets(vec![(
        vec![0xDE_u32],
        vec![0xAC_u32, 0x10_u32],
        vec![0x100_u32],
    )]));
    let ranges = DeviceTreeProperty::Triplets(ranges_value);
    assert_eq!(ranges.to_stringfmt(), String::from("0xDE 0xAC 0x10 0x100"));

    let empty = DeviceTreeProperty::Empty;
    assert_eq!(empty.to_stringfmt().is_empty(), true);
}

#[test]
fn coerce_address_cells_u32() {
    let p = DeviceTreeProperty::from_bytes("#address-cells", &16u32.to_be_bytes()).unwrap();
    assert_eq!(p, DeviceTreeProperty::U32(16));
}

#[test]
fn coerce_device_type_string() {
    let p = DeviceTreeProperty::from_bytes("device_type", b"cpu\0").unwrap();
    assert_eq!(p, DeviceTreeProperty::String("cpu".to_string()));
}

#[test]
fn coerce_dma_coherent_empty() {
    let p = DeviceTreeProperty::from_bytes("dma-coherent", b"").unwrap();
    assert_eq!(p, DeviceTreeProperty::Empty);
}

#[test]
fn coerce_compatible_stringlist() {
    let p = DeviceTreeProperty::from_bytes("compatible", b"string1\0string2\0").unwrap();
    assert_eq!(
        p,
        DeviceTreeProperty::StringList(vec!["string1".to_string(), "string2".to_string()])
    );
}

#[test]
fn coerce_mac_address_bytes() {
    let p = DeviceTreeProperty::from_bytes("local-mac-address", &[1, 2, 3, 4, 5, 6]).unwrap();
    assert_eq!(p, DeviceTreeProperty::Bytes(vec![1, 2, 3, 4, 5, 6]));
}

#[test]
fn coerce_unknown_name_raw() {
    let p = DeviceTreeProperty::from_bytes("interrupts", &[0, 0, 0, 9]).unwrap();
    assert_eq!(p, DeviceTreeProperty::Raw(vec![0, 0, 0, 9]));
}

#[test]
fn coerce_short_u32_fails() {
    let r = DeviceTreeProperty::from_bytes("phandle", &[0, 1]);
    assert_eq!(r, Err(DeviceTreeError::BadPropValue));
}

#[test]
fn coerce_nonempty_marker_fails() {
    let r = DeviceTreeProperty::from_bytes("dma-coherent", &[1]);
    assert_eq!(r, Err(DeviceTreeError::BadPropValue));
}

#[test]
fn coerce_unterminated_stringlist_fails() {
    let r = DeviceTreeProperty::from_bytes("compatible", b"string1\0string2");
    assert_eq!(r, Err(DeviceTreeError::BadPropValue));
}

#[test]
fn coerce_invalid_utf8_string_fails() {
    let r = DeviceTreeProperty::from_bytes("model", &[0xff, 0xfe, 0]);
    assert_eq!(r, Err(DeviceTreeError::BadPropValue));
}

#[test]
fn type_table() {
    assert_eq!(
        DeviceTreePropertyType::from_name("#interrupt-cells"),
        DeviceTreePropertyType::U32
    );
    assert_eq!(
        DeviceTreePropertyType::from_name("timebase-frequency"),
        DeviceTreePropertyType::U32
    );
    assert_eq!(
        DeviceTreePropertyType::from_name("clock-frequency"),
        DeviceTreePropertyType::U32
    );
    assert_eq!(
        DeviceTreePropertyType::from_name("virtual-reg"),
        DeviceTreePropertyType::U32
    );
    assert_eq!(
        DeviceTreePropertyType::from_name("compatible"),
        DeviceTreePropertyType::StringList
    );
    assert_eq!(DeviceTreePropertyType::from_name("status"), DeviceTreePropertyType::String);
    assert_eq!(DeviceTreePropertyType::from_name("name"), DeviceTreePropertyType::String);
    assert_eq!(DeviceTreePropertyType::from_name("model"), DeviceTreePropertyType::String);
    assert_eq!(
        DeviceTreePropertyType::from_name("dma-coherent"),
        DeviceTreePropertyType::Empty
    );
    assert_eq!(
        DeviceTreePropertyType::from_name("local-mac-address"),
        DeviceTreePropertyType::Bytes
    );
    assert_eq!(DeviceTreePropertyType::from_name("reg"), DeviceTreePropertyType::Raw);
}

#[test]
fn accessors() {
    let word = DeviceTreeProperty::U32(7);
    assert_eq!(word.u32(), Ok(7));
    assert_eq!(word.u64(), Err(DeviceTreeError::BadPropType));
    assert_eq!(word.string(), Err(DeviceTreeError::BadPropType));
    assert_eq!(word.stringlist(), Err(DeviceTreeError::BadPropType));
    assert_eq!(word.bytes(), Err(DeviceTreeError::BadPropType));

    let wide = DeviceTreeProperty::U64(0x1_0000_0000);
    assert_eq!(wide.u64(), Ok(0x1_0000_0000));
    assert_eq!(wide.u32(), Err(DeviceTreeError::BadPropType));

    let s = DeviceTreeProperty::String("okay".to_string());
    assert_eq!(s.string(), Ok("okay".to_string()));

    let l = DeviceTreeProperty::StringList(vec!["a".to_string(), "b".to_string()]);
    assert_eq!(l.stringlist(), Ok(vec!["a".to_string(), "b".to_string()]));

    let b = DeviceTreeProperty::Bytes(vec![0xab, 0xcd]);
    assert_eq!(b.bytes(), Ok(vec![0xab, 0xcd]));
}

#[test]
fn variants_compared() {
    let a = DeviceTreeProperty::U32(1);
    let b = DeviceTreeProperty::U32(99);
    let c = DeviceTreeProperty::String("1".to_string());
    assert!(variant_eq(&a, &b));
    assert!(!variant_eq(&a, &c));
    assert!(variant_eq(&DeviceTreeProperty::Empty, &DeviceTreeProperty::Empty));
    assert!(variant_eq(
        &DeviceTreeProperty::Pairs(Pairs::new()),
        &DeviceTreeProperty::Pairs(Pairs(vec![(vec![1], vec![2])]))
    ));
    assert!(!variant_eq(
        &DeviceTreeProperty::Status(StatusValue::Okay),
        &DeviceTreeProperty::Empty
    ));
}

#[test]
fn status_words() {
    assert_eq!(StatusValue::Okay.to_stringfmt(), "okay".to_string());
    assert_eq!(StatusValue::Disabled.to_stringfmt(), "disabled".to_string());
    assert_eq!(StatusValue::Reserved.to_stringfmt(), "reserved".to_string());
    assert_eq!(StatusValue::Fail.to_stringfmt(), "fail".to_string());
}

#[test]
fn byte_rendering() {
    let b = DeviceTreeProperty::Bytes(vec![0x00, 0x1a, 0xff]);
    assert_eq!(b.to_stringfmt(), "00 1A FF".to_string());
    let r = DeviceTreeProperty::Raw(vec![0xde]);
    assert_eq!(r.to_stringfmt(), "DE".to_string());
    let none = DeviceTreeProperty::Triplets(None);
    assert_eq!(none.to_stringfmt(), "".to_string());
    let wide = DeviceTreeProperty::U64(0x1_0000_0000);
    assert_eq!(wide.to_stringfmt(), "0x100000000".to_string());
}

#[test]
fn cell_counts() {
    let mut cells = NumCells::new();
    assert_eq!(cells.address_cells, 2);
    assert_eq!(cells.size_cells, 1);
    cells.set(3, 2);
    assert_eq!((cells.address_cells, cells.size_cells), (3, 2));
    cells.set_addr_cells(1);
    cells.set_size_cells(0);
    assert_eq!((cells.address_cells, cells.size_cells), (1, 0));
    let empty_pairs = Pairs::new();
    assert!(empty_pairs.0.is_empty());
}

#[test]
fn pairs_from_raw_groups() {
    let cells = NumCells { address_cells: 2, size_cells: 1 };
    let mut raw = Vec::new();
    for w in [0u32, 0x8000_0000, 0x1000, 0, 0x9000_0000, 0x2000] {
        raw.extend_from_slice(&w.to_be_bytes());
    }
    let pairs = Pairs::from_raw(&raw, cells).unwrap();
    assert_eq!(
        pairs.0,
        vec![
            (vec![0, 0x8000_0000], vec![0x1000]),
            (vec![0, 0x9000_0000], vec![0x2000]),
        ]
    );
    let empty = Pairs::from_raw(&[], cells).unwrap();
    assert!(empty.0.is_empty());
    assert_eq!(
        Pairs::from_raw(&raw[..20], cells),
        Err(DeviceTreeError::BadPropValue)
    );
    assert_eq!(
        Pairs::from_raw(&[], NumCells { address_cells: 0, size_cells: 0 }),
        Err(DeviceTreeError::BadPropValue)
    );
}

#[test]
fn triplets_from_raw_groups() {
    let mut raw = Vec::new();
    for w in [0xDEu32, 0xAC, 0x10, 0x100] {
        raw.extend_from_slice(&w.to_be_bytes());
    }
    let trips = Triplets::from_raw(&raw, 1, 2, 1).unwrap();
    assert_eq!(trips.0, vec![(vec![0xDE], vec![0xAC, 0x10], vec![0x100])]);
    assert_eq!(
        Triplets::from_raw(&raw[..12], 1, 2, 1),
        Err(DeviceTreeError::BadPropValue)
    );
}
