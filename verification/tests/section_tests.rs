use dex_parser::annotations::{
    parse_annotation_set_item, parse_annotation_set_ref_list, parse_annotations_directories,
};
use dex_parser::cursor::Endian;
use dex_parser::encoded_value::EncodedValue;
use dex_parser::err::DexErrorKind;
use dex_parser::header::{DexHeader, MapItem};
use dex_parser::sections::{parse_debug_info, parse_hiddenapi_class_data, parse_type_lists};
use dex_parser::tables::{
    parse_call_side_ids, parse_class_defs, parse_field_ids, parse_method_handles,
    parse_method_ids, parse_proto_ids, parse_string_data, parse_string_ids, parse_type_ids,
};

fn header_with(f: impl FnOnce(&mut DexHeader)) -> DexHeader {
    let mut h = DexHeader {
        magic: [0x64, 0x65, 0x78, 0x0a, 0x30, 0x33, 0x35, 0x00],
        checksum: 0,
        signature: [0; 20],
        file_size: 0,
        header_size: 0x70,
        endian_tag: 0x12345678,
        link_size: 0,
        link_off: 0,
        map_off: 0,
        string_ids_size: 0,
        string_ids_off: 0,
        type_ids_size: 0,
        type_ids_off: 0,
        proto_ids_size: 0,
        proto_ids_off: 0,
        field_ids_size: 0,
        field_ids_off: 0,
        method_ids_size: 0,
        method_ids_off: 0,
        class_defs_size: 0,
        class_defs_off: 0,
        data_size: 0,
        data_off: 0,
    };
    f(&mut h);
    h
}

#[test]
fn proto_ids_read_and_bounds() {
    let mut data = Vec::new();
    data.extend_from_slice(&7u32.to_le_bytes());
    data.extend_from_slice(&3u32.to_le_bytes());
    data.extend_from_slice(&0u32.to_le_bytes());
    let h = header_with(|h| {
        h.proto_ids_size = 1;
        h.proto_ids_off = 0;
    });
    let v = parse_proto_ids(&h, &data, Endian::Little).unwrap();
    assert_eq!(v.len(), 1);
    assert_eq!(v[0].shorty_idx, 7);
    assert_eq!(v[0].return_type_idx, 3);
    assert_eq!(v[0].parameters_off, 0);
    // Two records would run past the end of the image.
    let h2 = header_with(|h| {
        h.proto_ids_size = 2;
        h.proto_ids_off = 0;
    });
    let e = parse_proto_ids(&h2, &data, Endian::Little).unwrap_err();
    assert_eq!(e.kind, DexErrorKind::SectionOverflow);
    // An offset past the image is refused outright.
    let h3 = header_with(|h| {
        h.proto_ids_size = 1;
        h.proto_ids_off = 100;
    });
    let e2 = parse_proto_ids(&h3, &data, Endian::Little).unwrap_err();
    assert_eq!(e2.kind, DexErrorKind::OffsetOutOfRange);
    // An empty table never touches the image.
    let h4 = header_with(|h| {
        h.proto_ids_size = 0;
        h.proto_ids_off = 0xdead;
    });
    assert!(parse_proto_ids(&h4, &data, Endian::Little).unwrap().is_empty());
    // A parameter list offset outside the image is refused at its field.
    let mut data2 = data.clone();
    data2[8..12].copy_from_slice(&0x4000u32.to_le_bytes());
    let e3 = parse_proto_ids(&h, &data2, Endian::Little).unwrap_err();
    assert_eq!(e3.kind, DexErrorKind::OffsetOutOfRange);
    assert_eq!(e3.at, 8);
}

#[test]
fn field_and_method_ids_read() {
    let mut data = Vec::new();
    data.extend_from_slice(&1u16.to_le_bytes());
    data.extend_from_slice(&2u16.to_le_bytes());
    data.extend_from_slice(&3u32.to_le_bytes());
    let hf = header_with(|h| {
        h.field_ids_size = 1;
    });
    let f = parse_field_ids(&hf, &data, Endian::Little).unwrap();
    assert_eq!((f[0].class_idx, f[0].type_idx, f[0].name_idx), (1, 2, 3));
    let hm = header_with(|h| {
        h.method_ids_size = 1;
    });
    let m = parse_method_ids(&hm, &data, Endian::Little).unwrap();
    assert_eq!((m[0].class_idx, m[0].proto_idx, m[0].name_idx), (1, 2, 3));
}

#[test]
fn class_defs_read() {
    let mut data = Vec::new();
    for x in 1u32..=8 {
        data.extend_from_slice(&x.to_le_bytes());
    }
    let h = header_with(|h| {
        h.class_defs_size = 1;
        h.type_ids_size = 10;
        h.string_ids_size = 10;
    });
    let v = parse_class_defs(&h, &data, Endian::Little).unwrap();
    assert_eq!(v[0].class_idx, 1);
    assert_eq!(v[0].access_flags, 2);
    assert_eq!(v[0].superclass_idx, 3);
    assert_eq!(v[0].interfaces_off, 4);
    assert_eq!(v[0].source_file_idx, 5);
    assert_eq!(v[0].annotations_off, 6);
    assert_eq!(v[0].class_data_off, 7);
    assert_eq!(v[0].static_values_off, 8);
    // A class index outside the type table is refused at its record.
    let h2 = header_with(|h| {
        h.class_defs_size = 1;
        h.type_ids_size = 1;
        h.string_ids_size = 10;
    });
    let e = parse_class_defs(&h2, &data, Endian::Little).unwrap_err();
    assert_eq!(e.kind, DexErrorKind::BadIndex);
    assert_eq!(e.at, 0);
    // An interfaces offset outside the image is refused at its field.
    let mut data2 = data.clone();
    data2[12..16].copy_from_slice(&0x1000u32.to_le_bytes());
    let h3 = header_with(|h| {
        h.class_defs_size = 1;
        h.type_ids_size = 10;
        h.string_ids_size = 10;
    });
    let e2 = parse_class_defs(&h3, &data2, Endian::Little).unwrap_err();
    assert_eq!(e2.kind, DexErrorKind::OffsetOutOfRange);
    assert_eq!(e2.at, 12);
}

#[test]
fn type_ids_must_index_string_ids() {
    let data = [0x05u8, 0, 0, 0];
    let ok = header_with(|h| {
        h.type_ids_size = 1;
        h.string_ids_size = 6;
    });
    assert_eq!(parse_type_ids(&ok, &data, Endian::Little).unwrap(), vec![5]);
    let bad = header_with(|h| {
        h.type_ids_size = 1;
        h.string_ids_size = 5;
    });
    let e = parse_type_ids(&bad, &data, Endian::Little).unwrap_err();
    assert_eq!(e.kind, DexErrorKind::BadIndex);
    assert_eq!(e.at, 0);
}

#[test]
fn string_data_errors_map_to_the_taxonomy() {
    // Offset 0: count 1, then an undefined lead byte.
    let bad_lead = [0x01, 0xf8, 0x00];
    let e = parse_string_data(vec![0], &bad_lead).unwrap_err();
    assert_eq!(e.kind, DexErrorKind::BadLeadByte);
    assert_eq!(e.at, 0);
    // A lone surrogate fails the text conversion.
    let lone = [0x01, 0xed, 0xa0, 0xbd, 0x00];
    let e2 = parse_string_data(vec![0], &lone).unwrap_err();
    assert_eq!(e2.kind, DexErrorKind::Utf16Invalid);
    // Good data loads in id order.
    let good = [0x02, b'H', b'i', 0x00, 0x01, b'!', 0x00];
    let v = parse_string_data(vec![0, 4], &good).unwrap();
    assert_eq!(v, vec!["Hi".to_string(), "!".to_string()]);
}

#[test]
fn string_ids_big_endian() {
    let data = [0x00u8, 0x00, 0x00, 0x2a];
    let h = header_with(|h| {
        h.string_ids_size = 1;
    });
    let v = parse_string_ids(&h, &data, Endian::Big).unwrap();
    assert_eq!(v, vec![0x2a]);
}

#[test]
fn call_side_ids_and_method_handles() {
    let mut data = Vec::new();
    data.extend_from_slice(&0x44u32.to_le_bytes());
    data.extend_from_slice(&0x48u32.to_le_bytes());
    // A method handle record at offset 8: type, unused, id, unused.
    data.extend_from_slice(&2u16.to_le_bytes());
    data.extend_from_slice(&0xffffu16.to_le_bytes());
    data.extend_from_slice(&9u16.to_le_bytes());
    data.extend_from_slice(&0xffffu16.to_le_bytes());
    let map = vec![
        MapItem { item_type: 0x07, size: 2, offset: 0 },
        MapItem { item_type: 0x08, size: 1, offset: 8 },
    ];
    let ids = parse_call_side_ids(&map, &data, Endian::Little).unwrap();
    assert_eq!(ids, vec![0x44, 0x48]);
    let mh = parse_method_handles(&map, &data, Endian::Little).unwrap();
    assert_eq!(mh.len(), 1);
    assert_eq!(mh[0].method_handle_type, 2);
    assert_eq!(mh[0].field_or_method_id, 9);
    // Without the map entries both sections are empty.
    let empty_map: Vec<MapItem> = Vec::new();
    assert!(parse_call_side_ids(&empty_map, &data, Endian::Little).unwrap().is_empty());
    assert!(parse_method_handles(&empty_map, &data, Endian::Little).unwrap().is_empty());
}

#[test]
fn type_lists_pad_after_odd_counts() {
    let mut data = Vec::new();
    // First list: one entry, then two padding bytes.
    data.extend_from_slice(&1u32.to_le_bytes());
    data.extend_from_slice(&7u16.to_le_bytes());
    data.extend_from_slice(&[0, 0]);
    // Second list: two entries, no padding.
    data.extend_from_slice(&2u32.to_le_bytes());
    data.extend_from_slice(&8u16.to_le_bytes());
    data.extend_from_slice(&9u16.to_le_bytes());
    let map = vec![MapItem { item_type: 0x1001, size: 2, offset: 0 }];
    let v = parse_type_lists(&map, &data, 10, Endian::Little).unwrap();
    assert_eq!(v, vec![vec![7], vec![8, 9]]);
    // An entry outside the type id table is refused at its position.
    let e = parse_type_lists(&map, &data, 9, Endian::Little).unwrap_err();
    assert_eq!(e.kind, DexErrorKind::BadIndex);
    assert_eq!(e.at, 14);
}

#[test]
fn debug_info_reads_names_and_opcodes() {
    // line_start 5, two parameter names: stored 0 -> -1, stored 3 -> 2,
    // then two special opcodes and an advance with its operand.
    let data = [0x05, 0x02, 0x00, 0x03, 0x0a, 0x0b, 0x01, 0x07, 0x00];
    let map = vec![MapItem { item_type: 0x2003, size: 1, offset: 0 }];
    let v = parse_debug_info(&map, &data).unwrap();
    assert_eq!(v.len(), 1);
    assert_eq!(v[0].line_start, 5);
    assert_eq!(v[0].parameter_names, vec![-1, 2]);
    assert_eq!(v[0].state_machine_bytes, vec![0x0a, 0x0b, 0x01, 0x07]);
}

#[test]
fn debug_info_keeps_zero_operand_bytes() {
    // An advance opcode whose operand byte is zero: the zero belongs to the
    // captured stream; only the zero in opcode position terminates.
    let data = [0x05, 0x00, 0x01, 0x00, 0x00];
    let map = vec![MapItem { item_type: 0x2003, size: 1, offset: 0 }];
    let v = parse_debug_info(&map, &data).unwrap();
    assert_eq!(v.len(), 1);
    assert_eq!(v[0].line_start, 5);
    assert!(v[0].parameter_names.is_empty());
    assert_eq!(v[0].state_machine_bytes, vec![0x01, 0x00]);
}

#[test]
fn debug_info_walks_local_opcodes() {
    // A start-local opcode carries a register and two shifted name/type
    // indices; a set-file opcode carries one shifted index.
    let data = [0x01, 0x00, 0x03, 0x02, 0x00, 0x04, 0x09, 0x00, 0x00];
    let map = vec![MapItem { item_type: 0x2003, size: 1, offset: 0 }];
    let v = parse_debug_info(&map, &data).unwrap();
    assert_eq!(v[0].line_start, 1);
    assert_eq!(v[0].state_machine_bytes, vec![0x03, 0x02, 0x00, 0x04, 0x09, 0x00]);
}

#[test]
fn annotation_sets_and_ref_lists() {
    let mut data = Vec::new();
    data.extend_from_slice(&2u32.to_le_bytes());
    data.extend_from_slice(&8u32.to_le_bytes());
    data.extend_from_slice(&0u32.to_le_bytes());
    let map_set = vec![MapItem { item_type: 0x1003, size: 1, offset: 0 }];
    let v = parse_annotation_set_item(&map_set, &data, Endian::Little).unwrap();
    assert_eq!(v, vec![vec![8, 0]]);
    let map_ref = vec![MapItem { item_type: 0x1002, size: 1, offset: 0 }];
    let r = parse_annotation_set_ref_list(&map_ref, &data, Endian::Little).unwrap();
    assert_eq!(r, vec![vec![8, 0]]);
    // A stored offset outside the image is refused at its position.
    data[4..8].copy_from_slice(&0x100u32.to_le_bytes());
    let e = parse_annotation_set_item(&map_set, &data, Endian::Little).unwrap_err();
    assert_eq!(e.kind, DexErrorKind::OffsetOutOfRange);
    assert_eq!(e.at, 4);
}

#[test]
fn annotations_directory_reads_three_arrays() {
    let mut data = Vec::new();
    data.extend_from_slice(&0x1cu32.to_le_bytes()); // class_annotations_off
    data.extend_from_slice(&1u32.to_le_bytes()); // one field annotation
    data.extend_from_slice(&1u32.to_le_bytes()); // one method annotation
    data.extend_from_slice(&0u32.to_le_bytes()); // no parameter annotations
    data.extend_from_slice(&4u32.to_le_bytes());
    data.extend_from_slice(&0x14u32.to_le_bytes());
    data.extend_from_slice(&5u32.to_le_bytes());
    data.extend_from_slice(&0u32.to_le_bytes());
    data.extend_from_slice(&[0u8; 8]);
    let map = vec![MapItem { item_type: 0x2006, size: 1, offset: 0 }];
    let v = parse_annotations_directories(&map, &data, Endian::Little).unwrap();
    assert_eq!(v.len(), 1);
    assert_eq!(v[0].class_annotations_off, 0x1c);
    assert_eq!(v[0].field_annotations.len(), 1);
    assert_eq!(v[0].field_annotations[0].field_idx, 4);
    assert_eq!(v[0].field_annotations[0].annotations_off, 0x14);
    assert_eq!(v[0].method_annotations[0].method_idx, 5);
    assert_eq!(v[0].method_annotations[0].annotations_off, 0);
    assert!(v[0].parameter_annotations.is_empty());
    // An annotation set offset outside the image is refused at its field.
    data[20..24].copy_from_slice(&0x1000u32.to_le_bytes());
    let e = parse_annotations_directories(&map, &data, Endian::Little).unwrap_err();
    assert_eq!(e.kind, DexErrorKind::OffsetOutOfRange);
    assert_eq!(e.at, 20);
}

#[test]
fn hiddenapi_reads_per_class_flags() {
    // Two class definitions: the first has class data with one static field
    // (so one flag, at section-relative offset 12), the second has none.
    let mut data = Vec::new();
    data.extend_from_slice(&0x15u32.to_le_bytes()); // stored section size
    data.extend_from_slice(&12u32.to_le_bytes()); // class 0 flags at 12
    data.extend_from_slice(&0u32.to_le_bytes()); // class 1: none
    data.push(0x81); // the one flag, 0x81, on two LEB128 bytes
    data.push(0x01);
    data.push(0x00); // padding
    data.push(0x00);
    data.extend_from_slice(&[0x01, 0x00, 0x00, 0x00]); // class data at 16
    let mut c0 = blank_class_def();
    c0.class_data_off = 16;
    let c1 = blank_class_def();
    let class_defs = vec![c0, c1];
    let map = vec![MapItem { item_type: 0xf000, size: 1, offset: 0 }];
    let v = parse_hiddenapi_class_data(&map, &data, Endian::Little, &class_defs).unwrap();
    assert_eq!(v.len(), 1);
    assert_eq!(v[0].size, 0x15);
    assert_eq!(v[0].offsets, vec![12, 0]);
    assert_eq!(v[0].flags, vec![vec![0x81], vec![]]);
    // Without the section, nothing is read.
    let empty_map: Vec<MapItem> = Vec::new();
    assert!(
        parse_hiddenapi_class_data(&empty_map, &data, Endian::Little, &class_defs)
            .unwrap()
            .is_empty()
    );
}

fn blank_class_def() -> dex_parser::tables::ClassDef {
    dex_parser::tables::ClassDef {
        class_idx: 0,
        access_flags: 0,
        superclass_idx: 0xffff_ffff,
        interfaces_off: 0,
        source_file_idx: 0xffff_ffff,
        annotations_off: 0,
        class_data_off: 0,
        static_values_off: 0,
    }
}

#[test]
fn encoded_value_remaining_scalars() {
    // Short, Char, Long, MethodHandle and Enum payload widths.
    let (v, _) = EncodedValue::from_reader(&[0x22, 0x39, 0x30], 0).unwrap();
    assert!(matches!(v, EncodedValue::Short(12345)));
    let (v, _) = EncodedValue::from_reader(&[0x02, 0x85], 0).unwrap();
    assert!(matches!(v, EncodedValue::Short(-123)));
    let (v, _) = EncodedValue::from_reader(&[0x23, 0x00, 0xd8], 0).unwrap();
    assert!(matches!(v, EncodedValue::Char(0xd800)));
    let (v, _) = EncodedValue::from_reader(
        &[0xe6, 0x00, 0x00, 0x00, 0x00, 0x00, 0x00, 0x00, 0x80],
        0,
    )
    .unwrap();
    assert!(matches!(v, EncodedValue::Long(i64::MIN)));
    let (v, _) = EncodedValue::from_reader(&[0x36, 0x01, 0x02], 0).unwrap();
    assert!(matches!(v, EncodedValue::MethodHandle(0x0201)));
    let (v, _) = EncodedValue::from_reader(&[0x1b, 0x2a], 0).unwrap();
    assert!(matches!(v, EncodedValue::Enum(42)));
    // A double keeps its bit pattern.
    let (v, _) = EncodedValue::from_reader(&[0x11, 0x40], 0).unwrap();
    match v {
        EncodedValue::Double(bits) => assert_eq!(bits, 0x4000_0000_0000_0000),
        _ => panic!("not a double"),
    }
}
