use dex_parser::annotations::{parse_annotation_item, parse_call_side_item, Visibility};
use dex_parser::class_data::parse_class_data;
use dex_parser::code::parse_code_items;
use dex_parser::cursor::{read_u16, read_u32, read_u8, Endian};
use dex_parser::encoded_value::{encode_value, EncodedValue};
use dex_parser::err::DexErrorKind;
use dex_parser::header::{find_type_in_map, DexHeader, MapItem};
use dex_parser::image::parse_dex;
use dex_parser::leb128::{
    encode_sleb128, encode_uleb128, read_sleb128, read_uleb128, read_uleb128p1,
};
use dex_parser::m_utf8::{decode_mutf8, encode_mutf8, to_string, LoadMUtf8StringError};
use dex_parser::tables::{parse_string_ids, parse_type_ids};

fn le32(v: u32) -> [u8; 4] {
    v.to_le_bytes()
}

/// Builds the 112-byte header of a little-endian image.
fn build_header(
    magic_version: &[u8; 3],
    map_off: u32,
    string_ids_size: u32,
    string_ids_off: u32,
    data_size: u32,
    data_off: u32,
) -> Vec<u8> {
    let mut d = Vec::new();
    d.extend_from_slice(&[0x64, 0x65, 0x78, 0x0a]);
    d.extend_from_slice(magic_version);
    d.push(0x00);
    d.extend_from_slice(&le32(0)); // checksum
    d.extend_from_slice(&[0u8; 20]); // signature
    d.extend_from_slice(&le32(0xa0)); // file_size
    d.extend_from_slice(&le32(0x70)); // header_size
    d.extend_from_slice(&[0x78, 0x56, 0x34, 0x12]); // endian tag, little-endian
    d.extend_from_slice(&le32(0)); // link_size
    d.extend_from_slice(&le32(0)); // link_off
    d.extend_from_slice(&le32(map_off));
    d.extend_from_slice(&le32(string_ids_size));
    d.extend_from_slice(&le32(string_ids_off));
    for _ in 0..10 {
        d.extend_from_slice(&le32(0)); // type/proto/field/method/class tables
    }
    d.extend_from_slice(&le32(data_size));
    d.extend_from_slice(&le32(data_off));
    assert_eq!(d.len(), 112);
    d
}

/// Builds a whole minimal image holding one string, "Hi".
fn build_minimal_image() -> Vec<u8> {
    let mut d = build_header(b"035", 0x74, 1, 0x70, 0x14, 0x9c);
    d.extend_from_slice(&le32(0x9c)); // string_ids[0] at 0x70
    // map at 0x74: three entries, sorted by offset
    d.extend_from_slice(&le32(3));
    d.extend_from_slice(&0u16.to_le_bytes()); // the header
    d.extend_from_slice(&0u16.to_le_bytes());
    d.extend_from_slice(&le32(1));
    d.extend_from_slice(&le32(0));
    d.extend_from_slice(&1u16.to_le_bytes()); // type 0x0001 string_id
    d.extend_from_slice(&0u16.to_le_bytes());
    d.extend_from_slice(&le32(1));
    d.extend_from_slice(&le32(0x70));
    d.extend_from_slice(&0x1000u16.to_le_bytes()); // the map itself
    d.extend_from_slice(&0u16.to_le_bytes());
    d.extend_from_slice(&le32(1));
    d.extend_from_slice(&le32(0x74));
    assert_eq!(d.len(), 0x9c);
    d.extend_from_slice(&[0x02, b'H', b'i', 0x00]); // string data at 0x9c
    d.extend_from_slice(&[0u8; 16]);
    assert_eq!(d.len(), 0xb0);
    d
}

#[test]
fn cursor_reads_both_endians() {
    let d = [0x01u8, 0x02, 0x03, 0x04];
    assert_eq!(read_u8(&d, 0), Ok((0x01, 1)));
    assert_eq!(read_u16(&d, 0, Endian::Little), Ok((0x0201, 2)));
    assert_eq!(read_u16(&d, 0, Endian::Big), Ok((0x0102, 2)));
    assert_eq!(read_u32(&d, 0, Endian::Little), Ok((0x04030201, 4)));
    assert_eq!(read_u32(&d, 0, Endian::Big), Ok((0x01020304, 4)));
    let short = read_u32(&d, 1, Endian::Little).unwrap_err();
    assert_eq!(short.kind, DexErrorKind::Truncated);
    assert_eq!(short.at, 1);
}

#[test]
fn uleb128_documented_values() {
    assert_eq!(read_uleb128(&[0xe5, 0x8e, 0x26], 0), Ok((624485, 3)));
    assert_eq!(read_uleb128(&[0x00], 0), Ok((0, 1)));
    assert_eq!(read_uleb128(&[0x7f], 0), Ok((127, 1)));
    assert_eq!(read_uleb128(&[0x80, 0x01], 0), Ok((128, 2)));
}

#[test]
fn sleb128_documented_values() {
    assert_eq!(read_sleb128(&[0xc0, 0xbb, 0x78], 0), Ok((-123456, 3)));
    assert_eq!(read_sleb128(&[0x7f], 0), Ok((-1, 1)));
    assert_eq!(read_sleb128(&[0x3f], 0), Ok((63, 1)));
}

#[test]
fn uleb128p1_shifts_by_one() {
    assert_eq!(read_uleb128p1(&[0x00], 0), Ok((-1, 1)));
    assert_eq!(read_uleb128p1(&[0x01], 0), Ok((0, 1)));
    assert_eq!(read_uleb128p1(&[0x80, 0x01], 0), Ok((127, 2)));
}

#[test]
fn uleb128_overflow_detected() {
    // Ten continuation-heavy bytes whose tenth carries more than one bit.
    let bytes = [0xff, 0xff, 0xff, 0xff, 0xff, 0xff, 0xff, 0xff, 0xff, 0x7f];
    let e = read_uleb128(&bytes, 0).unwrap_err();
    assert_eq!(e.kind, DexErrorKind::LebOverflow);
}

#[test]
fn leb128_round_trip_matches_reference_crate() {
    let samples_u: [u64; 8] = [0, 1, 127, 128, 624485, 0xffff_ffff, u64::MAX - 1, u64::MAX];
    for &v in samples_u.iter() {
        let ours = encode_uleb128(v);
        let mut theirs = Vec::new();
        leb128::write::unsigned(&mut theirs, v).unwrap();
        assert_eq!(ours, theirs);
        assert_eq!(read_uleb128(&ours, 0), Ok((v, ours.len())));
        assert_eq!(leb128::read::unsigned(&mut &ours[..]).unwrap(), v);
    }
    let samples_i: [i64; 9] = [0, -1, 63, 64, -64, -65, -123456, i64::MIN, i64::MAX];
    for &v in samples_i.iter() {
        let ours = encode_sleb128(v);
        let mut theirs = Vec::new();
        leb128::write::signed(&mut theirs, v).unwrap();
        assert_eq!(ours, theirs);
        assert_eq!(read_sleb128(&ours, 0), Ok((v, ours.len())));
        assert_eq!(leb128::read::signed(&mut &ours[..]).unwrap(), v);
    }
}

#[test]
fn mutf8_decodes_ascii_with_soft_length() {
    // Declared length 3 but four units decode: the mismatch is tolerated.
    let bytes = [0x4a, 0x61, 0x76, 0x61, 0x00];
    let (s, end) = to_string(&bytes, 0).unwrap();
    assert_eq!(s, "Java");
    assert_eq!(end, 5);
}

#[test]
fn mutf8_decodes_two_byte_group() {
    let bytes = [0xc2, 0xa9, 0x00];
    let (s, _) = to_string(&bytes, 0).unwrap();
    assert_eq!(s, "\u{a9}");
}

#[test]
fn mutf8_decodes_surrogate_pair() {
    let bytes = [0xed, 0xa0, 0xbd, 0xed, 0xb8, 0x80, 0x00];
    let (units, end) = decode_mutf8(&bytes, 0).unwrap();
    assert_eq!(units, vec![0xd83d, 0xde00]);
    assert_eq!(end, 7);
    let (s, _) = to_string(&bytes, 0).unwrap();
    assert_eq!(s, "\u{1f600}");
}

#[test]
fn mutf8_rejects_bad_bytes() {
    assert_eq!(
        decode_mutf8(&[0xf8, 0x00], 0).unwrap_err(),
        LoadMUtf8StringError::DecodeError(dex_parser::m_utf8::MUtf8ParseError::BadByte)
    );
    assert_eq!(
        decode_mutf8(&[0xc2, 0x28, 0x00], 0).unwrap_err(),
        LoadMUtf8StringError::DecodeError(dex_parser::m_utf8::MUtf8ParseError::BadSecondByte)
    );
    assert_eq!(
        decode_mutf8(&[0xe1, 0x80, 0x28, 0x00], 0).unwrap_err(),
        LoadMUtf8StringError::DecodeError(dex_parser::m_utf8::MUtf8ParseError::BadSecondThirdByte)
    );
    // A lone surrogate decodes to units but not to text.
    assert_eq!(
        to_string(&[0xed, 0xa0, 0xbd, 0x00], 0).unwrap_err(),
        LoadMUtf8StringError::Utf16ToStringError
    );
}

#[test]
fn mutf8_round_trip_on_units() {
    // U+0000 encodes as C0 80; the supplementary plane as surrogate halves.
    let units: Vec<u16> = vec![0x004a, 0x0000, 0x00a9, 0x0950, 0xd83d, 0xde00, 0x007f];
    let mut encoded = encode_mutf8(&units);
    encoded.push(0x00);
    let (decoded, end) = decode_mutf8(&encoded, 0).unwrap();
    assert_eq!(decoded, units);
    assert_eq!(end, encoded.len());
    // And the byte-level direction on the canonical stream.
    let reencoded = encode_mutf8(&decoded);
    assert_eq!(&encoded[..encoded.len() - 1], &reencoded[..]);
}

#[test]
fn encoded_value_int_two_bytes() {
    let bytes = [0x24, 0x39, 0x30];
    let (v, end) = EncodedValue::from_reader(&bytes, 0).unwrap();
    assert!(matches!(v, EncodedValue::Int(12345)));
    assert_eq!(end, 3);
}

#[test]
fn encoded_value_int_min() {
    let bytes = [0x64, 0x00, 0x00, 0x00, 0x80];
    let (v, _) = EncodedValue::from_reader(&bytes, 0).unwrap();
    assert!(matches!(v, EncodedValue::Int(-2147483648)));
}

#[test]
fn encoded_value_float_right_extension() {
    // One stored byte becomes the most significant byte of the word.
    let bytes = [0x10, 0x40];
    let (v, _) = EncodedValue::from_reader(&bytes, 0).unwrap();
    match v {
        EncodedValue::Float(bits) => assert_eq!(bits, 2.0f32.to_bits()),
        _ => panic!("not a float"),
    }
    // Two stored bytes fill the top half.
    let bytes2 = [0x30, 0x00, 0x40];
    let (v2, _) = EncodedValue::from_reader(&bytes2, 0).unwrap();
    match v2 {
        EncodedValue::Float(bits) => assert_eq!(bits, 2.0f32.to_bits()),
        _ => panic!("not a float"),
    }
}

#[test]
fn encoded_value_array_of_null_and_true() {
    let bytes = [0x1c, 0x02, 0x1e, 0x3f];
    let (v, end) = EncodedValue::from_reader(&bytes, 0).unwrap();
    assert_eq!(end, 4);
    match v {
        EncodedValue::Array(items) => {
            assert_eq!(items.len(), 2);
            assert!(matches!(items[0], EncodedValue::Null));
            assert!(matches!(items[1], EncodedValue::Boolean(true)));
        }
        _ => panic!("not an array"),
    }
}

#[test]
fn encoded_value_rejects_bad_tag_and_arg() {
    let e = EncodedValue::from_reader(&[0x05, 0x00], 0).unwrap_err();
    assert_eq!(e.kind, DexErrorKind::UnknownEncodedValueTag);
    let e2 = EncodedValue::from_reader(&[0x7f], 0).unwrap_err();
    assert_eq!(
        e2.kind,
        DexErrorKind::ValueArgOutOfRange { tag: 0x1f, arg: 3 }
    );
    let e3 = EncodedValue::from_reader(&[0x20], 0).unwrap_err();
    assert_eq!(
        e3.kind,
        DexErrorKind::ValueArgOutOfRange { tag: 0x00, arg: 1 }
    );
}

#[test]
fn encoded_value_depth_cap() {
    // Thirty-three nested single-element arrays exceed the cap of 32.
    let mut bytes = Vec::new();
    for _ in 0..33 {
        bytes.push(0x1c);
        bytes.push(0x01);
    }
    bytes.push(0x1e);
    let e = EncodedValue::from_reader(&bytes, 0).unwrap_err();
    assert_eq!(e.kind, DexErrorKind::EncodedValueDepth);
    // Thirty-one levels stay under it.
    let mut ok_bytes = Vec::new();
    for _ in 0..31 {
        ok_bytes.push(0x1c);
        ok_bytes.push(0x01);
    }
    ok_bytes.push(0x1e);
    assert!(EncodedValue::from_reader(&ok_bytes, 0).is_ok());
}

#[test]
fn encoded_value_reencode_identity() {
    // Canonical encodings decode and re-encode to the same bytes, tag by tag.
    let cases: Vec<Vec<u8>> = vec![
        vec![0x00, 0x7b],                          // Byte
        vec![0x22, 0x39, 0x30],                    // Short(12345)
        vec![0x02, 0x85],                          // Short(-123)
        vec![0x23, 0x39, 0x30],                    // Char(0x3039)
        vec![0x24, 0x39, 0x30],                    // Int(12345)
        vec![0x64, 0x00, 0x00, 0x00, 0x80],        // Int(i32::MIN)
        vec![0xe6, 0x00, 0x00, 0x00, 0x00, 0x00, 0x00, 0x00, 0x80], // Long(i64::MIN)
        vec![0x06, 0x2a],                          // Long(42)
        vec![0x10, 0x40],                          // Float(2.0)
        vec![0x11, 0x40],                          // Double
        vec![0x15, 0x07],                          // MethodType
        vec![0x36, 0x01, 0x02],                    // MethodHandle
        vec![0x17, 0x2a],                          // String
        vec![0x18, 0x00],                          // Type
        vec![0x19, 0xff],                          // Field
        vec![0x3a, 0xff, 0xff],                    // Method
        vec![0x1b, 0x05],                          // Enum
        vec![0x1c, 0x02, 0x1e, 0x3f],              // Array [Null, true]
        vec![0x1d, 0x03, 0x01, 0x05, 0x17, 0x09],  // Annotation, one element
        vec![0x1e],                                // Null
        vec![0x1f],                                // Boolean(false)
        vec![0x3f],                                // Boolean(true)
    ];
    for bytes in cases.iter() {
        let (v, end) = EncodedValue::from_reader(bytes, 0).unwrap();
        assert_eq!(end, bytes.len(), "case {:02x?}", bytes);
        let out = encode_value(&v);
        assert_eq!(&out, bytes, "case {:02x?}", bytes);
    }
}

#[test]
fn class_data_deltas_resolve() {
    // Two static fields: diffs 3 and 5 resolve to absolute indices 3 and 8.
    let data = [0x02, 0x00, 0x00, 0x00, 0x03, 0x01, 0x05, 0x02];
    let map = vec![MapItem { item_type: 0x2000, size: 1, offset: 0 }];
    let mut header = blank_header();
    header.field_ids_size = 100;
    header.method_ids_size = 100;
    let v = parse_class_data(&map, &data, &header).unwrap();
    assert_eq!(v.len(), 1);
    let sf = &v[0].static_fields;
    assert_eq!(sf.len(), 2);
    assert_eq!((sf[0].field_idx_diff, sf[0].access_flags, sf[0].field_idx), (3, 1, 3));
    assert_eq!((sf[1].field_idx_diff, sf[1].access_flags, sf[1].field_idx), (5, 2, 8));
    assert!(v[0].instance_fields.is_empty());
}

#[test]
fn class_data_refuses_non_increasing_indices() {
    // The second diff of zero repeats an index.
    let data = [0x02, 0x00, 0x00, 0x00, 0x03, 0x01, 0x00, 0x02];
    let map = vec![MapItem { item_type: 0x2000, size: 1, offset: 0 }];
    let mut header = blank_header();
    header.field_ids_size = 100;
    header.method_ids_size = 100;
    let e = parse_class_data(&map, &data, &header).unwrap_err();
    assert_eq!(e.kind, DexErrorKind::BadIndex);
}

#[test]
fn class_data_refuses_out_of_table_index() {
    let data = [0x01, 0x00, 0x00, 0x00, 0x63, 0x01];
    let map = vec![MapItem { item_type: 0x2000, size: 1, offset: 0 }];
    let mut header = blank_header();
    header.field_ids_size = 99;
    header.method_ids_size = 99;
    let e = parse_class_data(&map, &data, &header).unwrap_err();
    assert_eq!(e.kind, DexErrorKind::BadIndex);
}

fn blank_header() -> DexHeader {
    DexHeader {
        magic: [0x64, 0x65, 0x78, 0x0a, 0x30, 0x33, 0x35, 0x00],
        checksum: 0,
        signature: [0; 20],
        file_size: 0,
        header_size: 0x70,
        endian_tag: 0x12345678,
        link_size: 0,
        link_off: 0,
        map_off: 0,
        string_ids_size: 0,
        string_ids_off: 0,
        type_ids_size: 0,
        type_ids_off: 0,
        proto_ids_size: 0,
        proto_ids_off: 0,
        field_ids_size: 0,
        field_ids_off: 0,
        method_ids_size: 0,
        method_ids_off: 0,
        class_defs_size: 0,
        class_defs_off: 0,
        data_size: 0,
        data_off: 0,
    }
}

#[test]
fn code_item_try_bounds_enforced() {
    // One code item, one instruction, one try covering past the stream.
    let mut data = Vec::new();
    data.extend_from_slice(&1u16.to_le_bytes()); // registers
    data.extend_from_slice(&0u16.to_le_bytes()); // ins
    data.extend_from_slice(&0u16.to_le_bytes()); // outs
    data.extend_from_slice(&1u16.to_le_bytes()); // tries
    data.extend_from_slice(&le32(0)); // debug_info_off
    data.extend_from_slice(&le32(1)); // insns_size
    data.extend_from_slice(&0u16.to_le_bytes()); // the single code unit
    data.extend_from_slice(&[0, 0]); // padding: odd insns count before tries
    data.extend_from_slice(&le32(0)); // try start_addr
    data.extend_from_slice(&2u16.to_le_bytes()); // insn_count: past the stream
    data.extend_from_slice(&0u16.to_le_bytes()); // handler_off
    data.extend_from_slice(&[0x01, 0x01, 0x00, 0x00]); // handler list
    let map = vec![MapItem { item_type: 0x2001, size: 1, offset: 0 }];
    let e = parse_code_items(&map, &data, Endian::Little).unwrap_err();
    assert_eq!(e.kind, DexErrorKind::SectionOverflow);
    // Shrinking the try to fit makes the item parse.
    data[24] = 1;
    let v = parse_code_items(&map, &data, Endian::Little).unwrap();
    assert_eq!(v.len(), 1);
    assert_eq!(v[0].insns, vec![0]);
    assert_eq!(v[0].tries.len(), 1);
    assert_eq!(v[0].handlers.len(), 1);
    assert_eq!(v[0].handlers[0].handlers.len(), 1);
    assert_eq!(v[0].handlers[0].catch_all_addr, None);
}

#[test]
fn annotation_item_visibility_checked() {
    let good = [0x01, 0x05, 0x01, 0x03, 0x1e];
    let map = vec![MapItem { item_type: 0x2004, size: 1, offset: 0 }];
    let v = parse_annotation_item(&map, &good).unwrap();
    assert_eq!(v.len(), 1);
    assert_eq!(v[0].visibility, Visibility::VisibilityRuntime);
    assert_eq!(v[0].annotation.type_idx, 5);
    assert_eq!(v[0].annotation.elements.len(), 1);
    assert_eq!(v[0].annotation.elements[0].name_idx, 3);
    let bad = [0x03, 0x05, 0x00];
    let e = parse_annotation_item(&map, &bad).unwrap_err();
    assert_eq!(e.kind, DexErrorKind::BadVisibility);
}

#[test]
fn call_site_prefix_enforced() {
    // size 3, MethodHandle(1), String(2), MethodType(3)
    let good = [0x03, 0x16, 0x01, 0x17, 0x02, 0x15, 0x03];
    let ids = vec![0u32];
    let v = parse_call_side_item(&ids, &good).unwrap();
    assert_eq!(v.len(), 1);
    assert_eq!(v[0].method_handle_idx, 1);
    assert_eq!(v[0].method_name_idx, 2);
    assert_eq!(v[0].method_type_idx, 3);
    assert!(v[0].args.is_empty());
    // A wrong first kind is refused.
    let bad = [0x03, 0x17, 0x01, 0x17, 0x02, 0x15, 0x03];
    let e = parse_call_side_item(&ids, &bad).unwrap_err();
    assert_eq!(e.kind, DexErrorKind::CallSitePrefix);
    // Fewer than three entries are refused.
    let short = [0x02, 0x16, 0x01, 0x17, 0x02];
    let e2 = parse_call_side_item(&ids, &short).unwrap_err();
    assert_eq!(e2.kind, DexErrorKind::CallSitePrefix);
}

#[test]
fn header_magic_and_version() {
    let image = build_minimal_image();
    let header = DexHeader::from_reader(&image).unwrap();
    assert_eq!(DexHeader::verify_magic(&header.magic), Ok(35));
    assert_eq!(header.endian_tag, 0x12345678);
    assert_eq!(header.header_size, 0x70);
    assert_eq!(header.map_off, 0x74);
    assert_eq!(DexHeader::get_endian(&image), Ok(Endian::Little));
}

#[test]
fn header_rejects_bad_magic_and_version() {
    let mut image = build_minimal_image();
    image[0] = b'x';
    let e = DexHeader::from_reader(&image).unwrap_err();
    assert_eq!(e.kind, DexErrorKind::BadMagic);
    let image2 = {
        let mut d = build_minimal_image();
        d[4] = b'0';
        d[5] = b'3';
        d[6] = b'6'; // version 036 was never defined
        d
    };
    let e2 = DexHeader::from_reader(&image2).unwrap_err();
    assert_eq!(e2.kind, DexErrorKind::UnsupportedVersion);
    assert_eq!(e2.at, 4);
}

#[test]
fn header_reversed_endian_switches_mode() {
    let mut image = build_minimal_image();
    // The byte-swapped tag selects big-endian reads.
    image[0x28..0x2c].copy_from_slice(&[0x12, 0x34, 0x56, 0x78]);
    assert_eq!(DexHeader::get_endian(&image), Ok(Endian::Big));
    // With every multi-byte field still little-endian, the header size check
    // now reads byte-swapped and fails.
    let e = DexHeader::from_reader(&image).unwrap_err();
    assert_eq!(e.kind, DexErrorKind::HeaderSizeMismatch);
}

#[test]
fn header_rejects_unknown_endian_tag() {
    let mut image = build_minimal_image();
    image[0x28..0x2c].copy_from_slice(&[0xde, 0xad, 0xbe, 0xef]);
    let e = DexHeader::from_reader(&image).unwrap_err();
    assert_eq!(e.kind, DexErrorKind::BadEndianTag);
    assert_eq!(e.at, 0x28);
}

#[test]
fn header_rejects_short_image() {
    let image = vec![0u8; 64];
    let e = DexHeader::from_reader(&image).unwrap_err();
    assert_eq!(e.kind, DexErrorKind::Truncated);
}

#[test]
fn map_list_and_lookup() {
    let image = build_minimal_image();
    let header = DexHeader::from_reader(&image).unwrap();
    let map = MapItem::parse_map_list(&header, &image, Endian::Little).unwrap();
    assert_eq!(map.len(), 3);
    assert_eq!(map[0], MapItem { item_type: 0, size: 1, offset: 0 });
    assert_eq!(map[1], MapItem { item_type: 1, size: 1, offset: 0x70 });
    let found = find_type_in_map(&map, 0x1000).unwrap();
    assert_eq!(found.offset, 0x74);
    assert_eq!(find_type_in_map(&map, 0x2001), None);
}

#[test]
fn string_table_reads() {
    let image = build_minimal_image();
    let header = DexHeader::from_reader(&image).unwrap();
    let ids = parse_string_ids(&header, &image, Endian::Little).unwrap();
    assert_eq!(ids, vec![0x9c]);
    let types = parse_type_ids(&header, &image, Endian::Little).unwrap();
    assert!(types.is_empty());
}

#[test]
fn parse_dex_minimal_image() {
    let image = build_minimal_image();
    let img = parse_dex(&image).unwrap();
    assert_eq!(img.endian, Endian::Little);
    assert_eq!(img.map.len(), 3);
    assert_eq!(img.string_ids, vec![0x9c]);
    assert_eq!(img.strings, vec!["Hi".to_string()]);
    assert!(img.type_ids.is_empty());
    assert!(img.class_defs.is_empty());
    assert!(img.code_items.is_empty());
}

#[test]
fn parse_dex_rejects_header_map_mismatch() {
    let mut image = build_minimal_image();
    // Claim two strings in the header while the map still says one.
    image[0x38..0x3c].copy_from_slice(&le32(2));
    let e = parse_dex(&image).unwrap_err();
    assert_eq!(e.kind, DexErrorKind::MapHeaderMismatch);
}

#[test]
fn parse_dex_rejects_unknown_map_type() {
    let mut image = build_minimal_image();
    image[0x78..0x7a].copy_from_slice(&9u16.to_le_bytes());
    let e = parse_dex(&image).unwrap_err();
    assert_eq!(e.kind, DexErrorKind::UnknownMapType);
    assert_eq!(e.at, 0x78);
}

#[test]
fn parse_dex_rejects_string_outside_data_window() {
    let mut image = build_minimal_image();
    // Point the only string id below the data section.
    image[0x70..0x74].copy_from_slice(&le32(0x20));
    let e = parse_dex(&image).unwrap_err();
    assert_eq!(e.kind, DexErrorKind::OffsetOutOfRange);
    assert_eq!(e.at, 0x70);
}


#[test]
fn parse_dex_requires_header_map_entry() {
    let mut image = build_minimal_image();
    // Retype the header entry as string data: the map no longer names the
    // header, which the header/map agreement refuses.
    image[0x78..0x7a].copy_from_slice(&0x2002u16.to_le_bytes());
    let e = parse_dex(&image).unwrap_err();
    assert_eq!(e.kind, DexErrorKind::MapHeaderMismatch);
    assert_eq!(e.at, 0x74);
}

#[test]
fn parse_dex_rejects_repeated_map_type() {
    let mut image = build_minimal_image();
    // Make the second entry repeat the first entry's type.
    image[0x84..0x86].copy_from_slice(&0u16.to_le_bytes());
    let e = parse_dex(&image).unwrap_err();
    assert_eq!(e.kind, DexErrorKind::MapHeaderMismatch);
    assert_eq!(e.at, 0x84);
}

#[test]
fn parse_dex_rejects_unsorted_map_offsets() {
    let mut image = build_minimal_image();
    // Push the first entry's offset above the second's.
    image[0x80..0x84].copy_from_slice(&le32(0x90));
    let e = parse_dex(&image).unwrap_err();
    assert_eq!(e.kind, DexErrorKind::OffsetOutOfRange);
    assert_eq!(e.at, 0x84);
}

#[test]
fn parse_dex_rejects_unaligned_map_offset() {
    let mut image = build_minimal_image();
    // The string id entry moves to an unaligned offset.
    image[0x8c..0x90].copy_from_slice(&le32(0x71));
    let e = parse_dex(&image).unwrap_err();
    assert_eq!(e.kind, DexErrorKind::AlignmentViolation);
    assert_eq!(e.at, 0x84);
}
