//! The fixed 112-byte header and the map list: the two structures every other
//! section is reached from.

use vstd::prelude::*;

use crate::cursor::{read_u16, read_u32, spec_u16_at, spec_u32_at, Endian};
use crate::err::{derr, DexError, DexErrorKind};

verus! {

/// The endian tag value of a little-endian image, as read little-endian.
pub const ENDIAN_CONSTANT: u32 = 0x12345678;

/// The endian tag value of a big-endian image, as read little-endian.
pub const REVERSE_ENDIAN_CONSTANT: u32 = 0x78563412;

/// The fixed header at the start of every DEX image.
#[derive(Clone, Copy, Debug)]
pub struct DexHeader {
    pub magic: [u8; 8],
    pub checksum: u32,
    pub signature: [u8; 20],
    pub file_size: u32,
    pub header_size: u32,
    pub endian_tag: u32,
    pub link_size: u32,
    pub link_off: u32,
    pub map_off: u32,
    pub string_ids_size: u32,
    pub string_ids_off: u32,
    pub type_ids_size: u32,
    pub type_ids_off: u32,
    pub proto_ids_size: u32,
    pub proto_ids_off: u32,
    pub field_ids_size: u32,
    pub field_ids_off: u32,
    pub method_ids_size: u32,
    pub method_ids_off: u32,
    pub class_defs_size: u32,
    pub class_defs_off: u32,
    pub data_size: u32,
    pub data_off: u32,
}

/// One entry of the map list: an item kind, how many items of it there are,
/// and where they start.
#[derive(Clone, Copy, Debug, PartialEq, Eq, Structural)]
pub struct MapItem {
    pub item_type: u16,
    pub size: u32,
    pub offset: u32,
}

/// An ASCII decimal digit.
pub open spec fn spec_is_digit(b: u8) -> bool {
    0x30 <= b <= 0x39
}

/// The eight magic bytes are `dex\n`, three ASCII digits, then `\0`.
pub open spec fn spec_magic_ok(m: Seq<u8>) -> bool {
    m.len() == 8 && m[0] == 0x64u8 && m[1] == 0x65u8 && m[2] == 0x78u8 && m[3] == 0x0au8
        && spec_is_digit(m[4]) && spec_is_digit(m[5]) && spec_is_digit(m[6]) && m[7] == 0u8
}

/// The version number the three magic digits spell.
pub open spec fn spec_magic_version(m: Seq<u8>) -> u16 {
    ((m[4] - 0x30) * 100 + (m[5] - 0x30) * 10 + (m[6] - 0x30)) as u16
}

/// The format versions this parser accepts.
pub open spec fn spec_version_supported(v: u16) -> bool {
    v == 35 || v == 37 || v == 38 || v == 39 || v == 40
}

/// The map entry record starting at `p`.
pub open spec fn spec_map_item_at(d: Seq<u8>, p: int, e: Endian) -> MapItem
    recommends
        0 <= p,
        p + 12 <= d.len(),
{
    MapItem {
        item_type: spec_u16_at(d, p, e),
        size: spec_u32_at(d, p + 4, e),
        offset: spec_u32_at(d, p + 8, e),
    }
}

/// The first map entry of the given type, if any.
pub open spec fn spec_find_type(m: Seq<MapItem>, item_type: u16) -> Option<MapItem>
    decreases m.len(),
{
    if m.len() == 0 {
        None
    } else if m[0].item_type == item_type {
        Some(m[0])
    } else {
        spec_find_type(m.skip(1), item_type)
    }
}

proof fn lemma_find_type_skip(m: Seq<MapItem>, item_type: u16, i: int)
    requires
        0 <= i <= m.len(),
        forall|j: int| 0 <= j < i ==> m[j].item_type != item_type,
    ensures
        spec_find_type(m, item_type) == spec_find_type(m.skip(i), item_type),
    decreases i,
{
    if i > 0 {
        assert(m[0].item_type != item_type);
        assert forall|j: int| 0 <= j < i - 1 implies m.skip(1)[j].item_type != item_type by {
            assert(m.skip(1)[j] == m[j + 1]);
        }
        lemma_find_type_skip(m.skip(1), item_type, i - 1);
        assert(m.skip(1).skip(i - 1) =~= m.skip(i));
    } else {
        assert(m.skip(0) =~= m);
    }
}

/// Finds the first map entry of the given type.
pub fn find_type_in_map(map_list: &Vec<MapItem>, item_type: u16) -> (r: Option<MapItem>)
    ensures
        r == spec_find_type(map_list@, item_type),
{
    let n = map_list.len();
    let mut i: usize = 0;
    while i < n
        invariant
            i <= n,
            n == map_list.len(),
            forall|j: int| 0 <= j < i ==> map_list@[j].item_type != item_type,
        decreases n - i,
    {
        if map_list[i].item_type == item_type {
            proof {
                lemma_find_type_skip(map_list@, item_type, i as int);
                assert(map_list@.skip(i as int)[0] == map_list@[i as int]);
            }
            return Some(map_list[i]);
        }
        i = i + 1;
    }
    proof {
        lemma_find_type_skip(map_list@, item_type, n as int);
        assert(map_list@.skip(n as int) =~= Seq::<MapItem>::empty());
    }
    None
}

impl DexHeader {
    /// Validates the magic bytes and returns the format version they name.
    pub fn verify_magic(buf: &[u8; 8]) -> (r: Result<u16, DexError>)
        ensures
            !spec_magic_ok(buf@) ==> r == Err::<u16, DexError>(derr(DexErrorKind::BadMagic, 0)),
            spec_magic_ok(buf@) && !spec_version_supported(spec_magic_version(buf@)) ==> r == Err::<
                u16,
                DexError,
            >(derr(DexErrorKind::UnsupportedVersion, 4)),
            spec_magic_ok(buf@) && spec_version_supported(spec_magic_version(buf@)) ==> r == Ok::<
                u16,
                DexError,
            >(spec_magic_version(buf@)),
    {
        if !(buf[0] == 0x64 && buf[1] == 0x65 && buf[2] == 0x78 && buf[3] == 0x0a && buf[7] == 0) {
            return Err(DexError::new(DexErrorKind::BadMagic, 0));
        }
        if !(0x30 <= buf[4] && buf[4] <= 0x39 && 0x30 <= buf[5] && buf[5] <= 0x39 && 0x30 <= buf[6]
            && buf[6] <= 0x39) {
            return Err(DexError::new(DexErrorKind::BadMagic, 0));
        }
        let version: u16 = (buf[4] - 0x30) as u16 * 100 + (buf[5] - 0x30) as u16 * 10 + (buf[6]
            - 0x30) as u16;
        if version == 35 || version == 37 || version == 38 || version == 39 || version == 40 {
            Ok(version)
        } else {
            Err(DexError::new(DexErrorKind::UnsupportedVersion, 4))
        }
    }

    /// Resolves the endian tag: the straight constant selects little-endian,
    /// the byte-swapped one big-endian. The tag lives at offset 0x28, which
    /// the error reports.
    pub fn verify_endian(val: u32) -> (r: Result<Endian, DexError>)
        ensures
            val == ENDIAN_CONSTANT ==> r == Ok::<Endian, DexError>(Endian::Little),
            val == REVERSE_ENDIAN_CONSTANT ==> r == Ok::<Endian, DexError>(Endian::Big),
            val != ENDIAN_CONSTANT && val != REVERSE_ENDIAN_CONSTANT ==> r == Err::<
                Endian,
                DexError,
            >(derr(DexErrorKind::BadEndianTag, 0x28)),
    {
        if val == ENDIAN_CONSTANT {
            Ok(Endian::Little)
        } else if val == REVERSE_ENDIAN_CONSTANT {
            Ok(Endian::Big)
        } else {
            Err(DexError::new(DexErrorKind::BadEndianTag, 0x28))
        }
    }

    /// Reads the endian tag at its fixed offset and resolves it.
    pub fn get_endian(data: &[u8]) -> (r: Result<Endian, DexError>)
        ensures
            data@.len() < 0x2c ==> r == Err::<Endian, DexError>(
                derr(DexErrorKind::Truncated, 0x28),
            ),
            data@.len() >= 0x2c ==> ({
                let tag = spec_u32_at(data@, 0x28, Endian::Little);
                &&& tag == ENDIAN_CONSTANT ==> r == Ok::<Endian, DexError>(Endian::Little)
                &&& tag == REVERSE_ENDIAN_CONSTANT ==> r == Ok::<Endian, DexError>(Endian::Big)
                &&& tag != ENDIAN_CONSTANT && tag != REVERSE_ENDIAN_CONSTANT ==> r == Err::<
                    Endian,
                    DexError,
                >(derr(DexErrorKind::BadEndianTag, 0x28))
            }),
    {
        match read_u32(data, 0x28, Endian::Little) {
            Ok((tag, _)) => DexHeader::verify_endian(tag),
            Err(e) => Err(e),
        }
    }
}

/// All fixed header fields read from `d` in byte order `e`, with the raw
/// magic and signature bytes copied out.
pub open spec fn spec_header_fields(d: Seq<u8>, e: Endian, h: DexHeader) -> bool {
    &&& h.magic@ == d.subrange(0, 8)
    &&& h.checksum == spec_u32_at(d, 0x08, e)
    &&& h.signature@ == d.subrange(0x0c, 0x20)
    &&& h.file_size == spec_u32_at(d, 0x20, e)
    &&& h.header_size == spec_u32_at(d, 0x24, e)
    &&& h.endian_tag == spec_u32_at(d, 0x28, Endian::Little)
    &&& h.link_size == spec_u32_at(d, 0x2c, e)
    &&& h.link_off == spec_u32_at(d, 0x30, e)
    &&& h.map_off == spec_u32_at(d, 0x34, e)
    &&& h.string_ids_size == spec_u32_at(d, 0x38, e)
    &&& h.string_ids_off == spec_u32_at(d, 0x3c, e)
    &&& h.type_ids_size == spec_u32_at(d, 0x40, e)
    &&& h.type_ids_off == spec_u32_at(d, 0x44, e)
    &&& h.proto_ids_size == spec_u32_at(d, 0x48, e)
    &&& h.proto_ids_off == spec_u32_at(d, 0x4c, e)
    &&& h.field_ids_size == spec_u32_at(d, 0x50, e)
    &&& h.field_ids_off == spec_u32_at(d, 0x54, e)
    &&& h.method_ids_size == spec_u32_at(d, 0x58, e)
    &&& h.method_ids_off == spec_u32_at(d, 0x5c, e)
    &&& h.class_defs_size == spec_u32_at(d, 0x60, e)
    &&& h.class_defs_off == spec_u32_at(d, 0x64, e)
    &&& h.data_size == spec_u32_at(d, 0x68, e)
    &&& h.data_off == spec_u32_at(d, 0x6c, e)
}

/// The byte order a valid image selects, given the tag read little-endian.
pub open spec fn spec_endian_of_tag(tag: u32) -> Endian {
    if tag == ENDIAN_CONSTANT {
        Endian::Little
    } else {
        Endian::Big
    }
}

/// What parsing the header of `d` yields: the error cases in the order they
/// are checked — the magic before the endian tag — else a header whose
/// fields `spec_header_fields` pins down.
pub open spec fn spec_parse_header_ok(d: Seq<u8>, r: Result<DexHeader, DexError>) -> bool {
    if d.len() < 112 {
        r == Err::<DexHeader, DexError>(derr(DexErrorKind::Truncated, d.len() as int))
    } else {
        let m = d.subrange(0, 8);
        if !spec_magic_ok(m) {
            r == Err::<DexHeader, DexError>(derr(DexErrorKind::BadMagic, 0))
        } else if !spec_version_supported(spec_magic_version(m)) {
            r == Err::<DexHeader, DexError>(derr(DexErrorKind::UnsupportedVersion, 4))
        } else {
            let tag = spec_u32_at(d, 0x28, Endian::Little);
            if tag != ENDIAN_CONSTANT && tag != REVERSE_ENDIAN_CONSTANT {
                r == Err::<DexHeader, DexError>(derr(DexErrorKind::BadEndianTag, 0x28))
            } else {
                let e = spec_endian_of_tag(tag);
                if spec_u32_at(d, 0x24, e) != 0x70 {
                    r == Err::<DexHeader, DexError>(derr(DexErrorKind::HeaderSizeMismatch, 0x24))
                } else {
                    r matches Ok(h) && spec_header_fields(d, e, h)
                }
            }
        }
    }
}

impl DexHeader {
    /// Parses the fixed header from the start of the image: magic, version
    /// and endian tag are validated, `header_size` must be 0x70, and every
    /// field past the endian tag is read in the resolved byte order.
    pub fn from_reader(data: &[u8]) -> (r: Result<DexHeader, DexError>)
        ensures
            spec_parse_header_ok(data@, r),
    {
        if data.len() < 112 {
            return Err(DexError::new(DexErrorKind::Truncated, data.len()));
        }
        let magic: [u8; 8] = [data[0], data[1], data[2], data[3], data[4], data[5], data[6], data[7]];
        proof {
            assert(magic@ =~= data@.subrange(0, 8));
        }
        match DexHeader::verify_magic(&magic) {
            Ok(_) => {},
            Err(err) => {
                return Err(err);
            },
        }
        let tag = match read_u32(data, 0x28, Endian::Little) {
            Ok((t, _)) => t,
            Err(e) => {
                return Err(e);
            },
        };
        let e = match DexHeader::verify_endian(tag) {
            Ok(e) => e,
            Err(err) => {
                return Err(err);
            },
        };
        let checksum = match read_u32(data, 0x08, e) {
            Ok((v, _)) => v,
            Err(err) => {
                return Err(err);
            },
        };
        let signature: [u8; 20] = [
            data[12],
            data[13],
            data[14],
            data[15],
            data[16],
            data[17],
            data[18],
            data[19],
            data[20],
            data[21],
            data[22],
            data[23],
            data[24],
            data[25],
            data[26],
            data[27],
            data[28],
            data[29],
            data[30],
            data[31],
        ];
        proof {
            assert(signature@ =~= data@.subrange(0x0c, 0x20));
        }
        let file_size = match read_u32(data, 0x20, e) {
            Ok((v, _)) => v,
            Err(err) => {
                return Err(err);
            },
        };
        let header_size = match read_u32(data, 0x24, e) {
            Ok((v, _)) => v,
            Err(err) => {
                return Err(err);
            },
        };
        if header_size != 0x70 {
            return Err(DexError::new(DexErrorKind::HeaderSizeMismatch, 0x24));
        }
        let link_size = match read_u32(data, 0x2c, e) {
            Ok((v, _)) => v,
            Err(err) => {
                return Err(err);
            },
        };
        let link_off = match read_u32(data, 0x30, e) {
            Ok((v, _)) => v,
            Err(err) => {
                return Err(err);
            },
        };
        let map_off = match read_u32(data, 0x34, e) {
            Ok((v, _)) => v,
            Err(err) => {
                return Err(err);
            },
        };
        let string_ids_size = match read_u32(data, 0x38, e) {
            Ok((v, _)) => v,
            Err(err) => {
                return Err(err);
            },
        };
        let string_ids_off = match read_u32(data, 0x3c, e) {
            Ok((v, _)) => v,
            Err(err) => {
                return Err(err);
            },
        };
        let type_ids_size = match read_u32(data, 0x40, e) {
            Ok((v, _)) => v,
            Err(err) => {
                return Err(err);
            },
        };
        let type_ids_off = match read_u32(data, 0x44, e) {
            Ok((v, _)) => v,
            Err(err) => {
                return Err(err);
            },
        };
        let proto_ids_size = match read_u32(data, 0x48, e) {
            Ok((v, _)) => v,
            Err(err) => {
                return Err(err);
            },
        };
        let proto_ids_off = match read_u32(data, 0x4c, e) {
            Ok((v, _)) => v,
            Err(err) => {
                return Err(err);
            },
        };
        let field_ids_size = match read_u32(data, 0x50, e) {
            Ok((v, _)) => v,
            Err(err) => {
                return Err(err);
            },
        };
        let field_ids_off = match read_u32(data, 0x54, e) {
            Ok((v, _)) => v,
            Err(err) => {
                return Err(err);
            },
        };
        let method_ids_size = match read_u32(data, 0x58, e) {
            Ok((v, _)) => v,
            Err(err) => {
                return Err(err);
            },
        };
        let method_ids_off = match read_u32(data, 0x5c, e) {
            Ok((v, _)) => v,
            Err(err) => {
                return Err(err);
            },
        };
        let class_defs_size = match read_u32(data, 0x60, e) {
            Ok((v, _)) => v,
            Err(err) => {
                return Err(err);
            },
        };
        let class_defs_off = match read_u32(data, 0x64, e) {
            Ok((v, _)) => v,
            Err(err) => {
                return Err(err);
            },
        };
        let data_size = match read_u32(data, 0x68, e) {
            Ok((v, _)) => v,
            Err(err) => {
                return Err(err);
            },
        };
        let data_off = match read_u32(data, 0x6c, e) {
            Ok((v, _)) => v,
            Err(err) => {
                return Err(err);
            },
        };
        Ok(
            DexHeader {
                magic,
                checksum,
                signature,
                file_size,
                header_size,
                endian_tag: tag,
                link_size,
                link_off,
                map_off,
                string_ids_size,
                string_ids_off,
                type_ids_size,
                type_ids_off,
                proto_ids_size,
                proto_ids_off,
                field_ids_size,
                field_ids_off,
                method_ids_size,
                method_ids_off,
                class_defs_size,
                class_defs_off,
                data_size,
                data_off,
            },
        )
    }
}

impl MapItem {
    /// Reads the map list the header points at: a count, then that many
    /// twelve-byte entries (the two bytes after each entry's type are
    /// unused).
    pub fn parse_map_list(dex_header: &DexHeader, data: &[u8], e: Endian) -> (r: Result<
        Vec<MapItem>,
        DexError,
    >)
        ensures
            ({
                let d = data@;
                let off = dex_header.map_off as int;
                if off + 4 > d.len() {
                    r == Err::<Vec<MapItem>, DexError>(derr(DexErrorKind::Truncated, off))
                } else {
                    let count = spec_u32_at(d, off, e) as int;
                    if off + 4 + 12 * count > d.len() {
                        r == Err::<Vec<MapItem>, DexError>(derr(DexErrorKind::SectionOverflow, off))
                    } else {
                        r matches Ok(v) && v.len() == count && (forall|i: int|
                            0 <= i < count ==> v@[i] == spec_map_item_at(d, off + 4 + 12 * i, e))
                    }
                }
            }),
    {
        let off = dex_header.map_off as usize;
        let (count, mut pos) = match read_u32(data, off, e) {
            Ok(p) => p,
            Err(err) => {
                return Err(err);
            },
        };
        if (data.len() as u64 - pos as u64) / 12 < count as u64 {
            return Err(DexError::new(DexErrorKind::SectionOverflow, off));
        }
        let mut v: Vec<MapItem> = Vec::new();
        let mut i: u32 = 0;
        while i < count
            invariant
                i <= count,
                pos == off + 4 + 12 * i,
                off + 4 + 12 * count <= data.len(),
                v.len() == i,
                forall|j: int|
                    0 <= j < i ==> v@[j] == spec_map_item_at(
                        data@,
                        off as int + 4 + 12 * j,
                        e,
                    ),
            decreases count - i,
    {
            let (item_type, p1) = match read_u16(data, pos, e) {
                Ok(p) => p,
                Err(err) => {
                    return Err(err);
                },
            };
            let (size, p3) = match read_u32(data, p1 + 2, e) {
                Ok(p) => p,
                Err(err) => {
                    return Err(err);
                },
            };
            let (offset, p4) = match read_u32(data, p3, e) {
                Ok(p) => p,
                Err(err) => {
                    return Err(err);
                },
            };
            v.push(MapItem { item_type, size, offset });
            pos = p4;
            i = i + 1;
        }
        Ok(v)
    }
}

} // verus!
