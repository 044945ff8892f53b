//! The assembly of a whole image: parse the header, the map, every table and
//! every section the map names, validating the map against the header on the
//! way.

use vstd::prelude::*;

use crate::annotations::{
    parse_annotation_item,
    parse_annotation_set_item,
    parse_annotation_set_ref_list,
    parse_annotations_directories,
    parse_call_side_item,
    spec_ann_dir_views,
    spec_ann_dirs,
    spec_annotation_item_views,
    spec_annotation_items,
    spec_call_site_at,
    spec_call_sites_err,
    spec_u32_list_views,
    spec_u32_lists,
    AnnotationItem,
    AnnotationsDirectory,
    CallSiteItem,
};
use crate::class_data::{
    parse_class_data,
    spec_class_data_list,
    spec_class_data_ok,
    spec_class_data_views,
    ClassData,
};
use crate::code::{parse_code_items, spec_code_item_views, spec_code_items, spec_tries_ok, CodeItem};
use crate::cursor::{spec_u32_at, Endian};
use crate::err::{derr, DexError, DexErrorKind};
use crate::header::{
    find_type_in_map,
    spec_endian_of_tag,
    spec_find_type,
    spec_header_fields,
    spec_magic_ok,
    spec_magic_version,
    spec_map_item_at,
    spec_version_supported,
    DexHeader,
    MapItem,
    ENDIAN_CONSTANT,
    REVERSE_ENDIAN_CONSTANT,
};
use crate::sections::{
    parse_debug_info,
    parse_hiddenapi_class_data,
    parse_type_lists,
    spec_debug_info_views,
    spec_debug_infos,
    spec_hiddenapi_section,
    spec_type_list_values_ok,
    spec_type_list_views,
    spec_type_lists,
    DebugInfoItem,
    HiddenApiClassData,
};
use crate::tables::{
    parse_call_side_ids,
    parse_class_defs,
    parse_field_ids,
    parse_method_handles,
    parse_method_ids,
    parse_proto_ids,
    parse_string_ids,
    parse_type_ids,
    spec_class_def_at,
    spec_class_def_refs_ok,
    spec_class_defs_err,
    spec_field_id_at,
    spec_method_handle_at,
    spec_method_id_at,
    spec_proto_id_at,
    spec_proto_ids_err,
    spec_string_at,
    spec_table_bounds_err,
    spec_type_ids_err,
    ClassDef,
    FieldId,
    MethodHandle,
    MethodId,
    ProtoIdItem,
};

verus! {

/// A fully decoded image.
#[derive(Debug)]
pub struct DexImage {
    pub header: DexHeader,
    pub endian: Endian,
    pub map: Vec<MapItem>,
    pub string_ids: Vec<u32>,
    pub strings: Vec<String>,
    pub type_ids: Vec<u32>,
    pub proto_ids: Vec<ProtoIdItem>,
    pub field_ids: Vec<FieldId>,
    pub method_ids: Vec<MethodId>,
    pub class_defs: Vec<ClassDef>,
    pub call_site_ids: Vec<u32>,
    pub call_sites: Vec<CallSiteItem>,
    pub method_handles: Vec<MethodHandle>,
    pub class_data: Vec<ClassData>,
    pub type_lists: Vec<Vec<u16>>,
    pub code_items: Vec<CodeItem>,
    pub debug_info: Vec<DebugInfoItem>,
    pub annotations_directories: Vec<AnnotationsDirectory>,
    pub annotation_set_ref_lists: Vec<Vec<u32>>,
    pub annotation_sets: Vec<Vec<u32>>,
    pub annotation_items: Vec<AnnotationItem>,
    pub hiddenapi: Vec<HiddenApiClassData>,
}

/// A type code the map may name.
pub open spec fn spec_known_map_type(t: u16) -> bool {
    t == 0x0000 || t == 0x0001 || t == 0x0002 || t == 0x0003 || t == 0x0004 || t == 0x0005 || t
        == 0x0006 || t == 0x0007 || t == 0x0008 || t == 0x1000 || t == 0x1001 || t == 0x1002 || t
        == 0x1003 || t == 0x2000 || t == 0x2001 || t == 0x2002 || t == 0x2003 || t == 0x2004 || t
        == 0x2005 || t == 0x2006 || t == 0xf000
}

/// The size of the map entry of the given type, zero when absent.
pub open spec fn spec_map_size(m: Seq<MapItem>, t: u16) -> int {
    match spec_find_type(m, t) {
        Some(item) => item.size as int,
        None => 0,
    }
}

/// The first map entry, from index `k` on, whose type code is undefined.
pub open spec fn spec_map_types_err(m: Seq<MapItem>, base: int, k: int) -> Option<DexError>
    decreases m.len() - k,
{
    if k < 0 || k >= m.len() {
        None
    } else if !spec_known_map_type(m[k].item_type) {
        Some(derr(DexErrorKind::UnknownMapType, base + 12 * k))
    } else {
        spec_map_types_err(m, base, k + 1)
    }
}

/// Every header count must equal the size of the matching map entry (an
/// absent entry counts as zero), the map names the header exactly once with
/// size one, and the map names itself.
pub open spec fn spec_map_header_agrees(d: Seq<u8>, e: Endian, m: Seq<MapItem>) -> bool {
    &&& spec_map_size(m, 0x0000) == 1
    &&& spec_find_type(m, 0x1000) is Some
    &&& spec_map_size(m, 0x0001) == spec_u32_at(d, 0x38, e) as int
    &&& spec_map_size(m, 0x0002) == spec_u32_at(d, 0x40, e) as int
    &&& spec_map_size(m, 0x0003) == spec_u32_at(d, 0x48, e) as int
    &&& spec_map_size(m, 0x0004) == spec_u32_at(d, 0x50, e) as int
    &&& spec_map_size(m, 0x0005) == spec_u32_at(d, 0x58, e) as int
    &&& spec_map_size(m, 0x0006) == spec_u32_at(d, 0x60, e) as int
}

/// The first map entry, from index `k` on, that breaks the map's shape: a
/// repeated type code, an offset not above its predecessor's, or an offset
/// not 4-byte aligned (string data excepted).
pub open spec fn spec_map_order_err(m: Seq<MapItem>, base: int, k: int) -> Option<DexError>
    decreases m.len() - k,
{
    if k < 0 || k >= m.len() {
        None
    } else if exists|j: int| 0 <= j < k && m[j].item_type == m[k].item_type {
        Some(derr(DexErrorKind::MapHeaderMismatch, base + 12 * k))
    } else if k > 0 && m[k].offset <= m[k - 1].offset {
        Some(derr(DexErrorKind::OffsetOutOfRange, base + 12 * k))
    } else if m[k].item_type != 0x2002 && m[k].offset % 4 != 0 {
        Some(derr(DexErrorKind::AlignmentViolation, base + 12 * k))
    } else {
        spec_map_order_err(m, base, k + 1)
    }
}

/// The first string id, from index `k` on, that leaves the data window.
pub open spec fn spec_string_window_err(
    ids: Seq<u32>,
    data_off: int,
    data_size: int,
    base: int,
    k: int,
) -> Option<DexError>
    decreases ids.len() - k,
{
    if k < 0 || k >= ids.len() {
        None
    } else if !(data_off <= ids[k] < data_off + data_size) {
        Some(derr(DexErrorKind::OffsetOutOfRange, base + 4 * k))
    } else {
        spec_string_window_err(ids, data_off, data_size, base, k + 1)
    }
}

/// The first string, from index `k` on, whose data fails to load.
pub open spec fn spec_string_data_err(d: Seq<u8>, offs: Seq<u32>, k: int) -> Option<DexError>
    decreases offs.len() - k,
{
    if k < 0 || k >= offs.len() {
        None
    } else {
        match spec_string_at(d, offs[k] as int) {
            Err(e) => Some(e),
            Ok(_) => spec_string_data_err(d, offs, k + 1),
        }
    }
}

/// The error `DexHeader::from_reader` reports on `d`, if any.
pub open spec fn spec_header_err(d: Seq<u8>) -> Option<DexError> {
    if d.len() < 112 {
        Some(derr(DexErrorKind::Truncated, d.len() as int))
    } else {
        let m = d.subrange(0, 8);
        if !spec_magic_ok(m) {
            Some(derr(DexErrorKind::BadMagic, 0))
        } else if !spec_version_supported(spec_magic_version(m)) {
            Some(derr(DexErrorKind::UnsupportedVersion, 4))
        } else {
            let tag = spec_u32_at(d, 0x28, Endian::Little);
            if tag != ENDIAN_CONSTANT && tag != REVERSE_ENDIAN_CONSTANT {
                Some(derr(DexErrorKind::BadEndianTag, 0x28))
            } else {
                let e = spec_endian_of_tag(tag);
                if spec_u32_at(d, 0x24, e) != 0x70 {
                    Some(derr(DexErrorKind::HeaderSizeMismatch, 0x24))
                } else {
                    None
                }
            }
        }
    }
}

/// The map entries of `d`, assuming the header parsed.
pub open spec fn spec_map_entries(d: Seq<u8>, e: Endian) -> Seq<MapItem> {
    let off = spec_u32_at(d, 0x34, e) as int;
    let count = spec_u32_at(d, off, e) as int;
    Seq::new(count as nat, |i: int| spec_map_item_at(d, off + 4 + 12 * i, e))
}

/// The error reading the map list reports, if any.
pub open spec fn spec_map_list_err(d: Seq<u8>, e: Endian) -> Option<DexError> {
    let off = spec_u32_at(d, 0x34, e) as int;
    if off + 4 > d.len() {
        Some(derr(DexErrorKind::Truncated, off))
    } else {
        let count = spec_u32_at(d, off, e) as int;
        if off + 4 + 12 * count > d.len() {
            Some(derr(DexErrorKind::SectionOverflow, off))
        } else {
            None
        }
    }
}

/// The error of a map-named section, if any: absent sections never fail.
pub open spec fn spec_section_err<T>(
    m: Seq<MapItem>,
    t: u16,
    r: Result<(Seq<T>, int), DexError>,
) -> Option<DexError> {
    match spec_find_type(m, t) {
        None => None,
        Some(_) => match r {
            Err(e) => Some(e),
            Ok(_) => None,
        },
    }
}

/// The first error of the leading phases: header, map, map type codes,
/// map/header agreement, the string id table with its data window, and the
/// string data itself.
pub open spec fn spec_prelude_err(d: Seq<u8>) -> Option<DexError> {
    if spec_header_err(d) is Some {
        spec_header_err(d)
    } else {
        let e = spec_endian_of_tag(spec_u32_at(d, 0x28, Endian::Little));
        if spec_map_list_err(d, e) is Some {
            spec_map_list_err(d, e)
        } else {
            let m = spec_map_entries(d, e);
            let map_off = spec_u32_at(d, 0x34, e) as int;
            if spec_map_types_err(m, map_off + 4, 0) is Some {
                spec_map_types_err(m, map_off + 4, 0)
            } else if spec_map_order_err(m, map_off + 4, 0) is Some {
                spec_map_order_err(m, map_off + 4, 0)
            } else if !spec_map_header_agrees(d, e, m) {
                Some(derr(DexErrorKind::MapHeaderMismatch, map_off))
            } else {
                let sid_off = spec_u32_at(d, 0x3c, e) as int;
                let sid_size = spec_u32_at(d, 0x38, e) as int;
                match spec_table_bounds_err(d, sid_off, sid_size, 4) {
                    Some(err) => Some(err),
                    None => {
                        let ids = Seq::new(
                            sid_size as nat,
                            |i: int| spec_u32_at(d, sid_off + 4 * i, e),
                        );
                        let data_off = spec_u32_at(d, 0x6c, e) as int;
                        let data_size = spec_u32_at(d, 0x68, e) as int;
                        if spec_string_window_err(ids, data_off, data_size, sid_off, 0) is Some {
                            spec_string_window_err(ids, data_off, data_size, sid_off, 0)
                        } else if spec_string_data_err(d, ids, 0) is Some {
                            spec_string_data_err(d, ids, 0)
                        } else {
                            None
                        }
                    },
                }
            }
        }
    }
}

/// The first error the whole parse reports on `d`, if any: the leading
/// phases, then the remaining tables and every map-named section.
pub open spec fn spec_parse_dex_err(d: Seq<u8>) -> Option<DexError> {
    if spec_prelude_err(d) is Some {
        spec_prelude_err(d)
    } else {
        let e = spec_endian_of_tag(spec_u32_at(d, 0x28, Endian::Little));
        spec_parse_dex_tail_err(d, e, spec_map_entries(d, e))
    }
}

/// The first error of the fixed id tables, the call sites and the method
/// handles, in the order the assembly reads them.
pub open spec fn spec_tables_err(d: Seq<u8>, e: Endian, m: Seq<MapItem>) -> Option<DexError> {
    let ssize = spec_u32_at(d, 0x38, e) as int;
    let tsize = spec_u32_at(d, 0x40, e) as int;
    let tid = spec_type_ids_err(d, spec_u32_at(d, 0x44, e) as int, tsize, ssize, e);
    let pid = spec_proto_ids_err(
        d,
        spec_u32_at(d, 0x4c, e) as int,
        spec_u32_at(d, 0x48, e) as int,
        e,
    );
    let fid = spec_table_bounds_err(
        d,
        spec_u32_at(d, 0x54, e) as int,
        spec_u32_at(d, 0x50, e) as int,
        8,
    );
    let mid = spec_table_bounds_err(
        d,
        spec_u32_at(d, 0x5c, e) as int,
        spec_u32_at(d, 0x58, e) as int,
        8,
    );
    let cd = spec_class_defs_err(
        d,
        spec_u32_at(d, 0x64, e) as int,
        spec_u32_at(d, 0x60, e) as int,
        tsize,
        ssize,
        e,
    );
    if tid is Some {
        tid
    } else if pid is Some {
        pid
    } else if fid is Some {
        fid
    } else if mid is Some {
        mid
    } else if cd is Some {
        cd
    } else {
        let csi = match spec_find_type(m, 0x07) {
            None => None,
            Some(item) => spec_table_bounds_err(d, item.offset as int, item.size as int, 4),
        };
        if csi is Some {
            csi
        } else {
            let cs_ids: Seq<u32> = match spec_find_type(m, 0x07) {
                None => Seq::empty(),
                Some(item) => Seq::new(
                    item.size as nat,
                    |i: int| spec_u32_at(d, item.offset as int + 4 * i, e),
                ),
            };
            if spec_call_sites_err(d, cs_ids, 0) is Some {
                spec_call_sites_err(d, cs_ids, 0)
            } else {
                match spec_find_type(m, 0x08) {
                    None => None,
                    Some(item) => spec_table_bounds_err(d, item.offset as int, item.size as int, 8),
                }
            }
        }
    }
}

/// The remaining phases, split out to keep each function readable: the
/// tables, then the map-named sections.
pub open spec fn spec_parse_dex_tail_err(d: Seq<u8>, e: Endian, m: Seq<MapItem>) -> Option<DexError> {
    if spec_tables_err(d, e, m) is Some {
        spec_tables_err(d, e, m)
    } else {
        spec_parse_dex_sections_err(d, e, m)
    }
}

/// The class definition records of `d`, as the header locates them.
pub open spec fn spec_class_defs_of(d: Seq<u8>, e: Endian) -> Seq<ClassDef> {
    Seq::new(
        spec_u32_at(d, 0x60, e) as nat,
        |i: int| spec_class_def_at(d, spec_u32_at(d, 0x64, e) as int + 32 * i, e),
    )
}

/// The map-named variable sections, in the order the assembly reads them.
pub open spec fn spec_parse_dex_sections_err(d: Seq<u8>, e: Endian, m: Seq<MapItem>) -> Option<
    DexError,
> {
    let fsize = spec_u32_at(d, 0x50, e) as int;
    let msize = spec_u32_at(d, 0x58, e) as int;
    let cdata = spec_section_err(
        m,
        0x2000,
        match spec_find_type(m, 0x2000) {
            Some(item) => spec_class_data_list(d, item.offset as int, item.size as int, fsize, msize),
            None => Ok((Seq::empty(), 0)),
        },
    );
    let tsize = spec_u32_at(d, 0x40, e) as int;
    let tl = spec_section_err(
        m,
        0x1001,
        match spec_find_type(m, 0x1001) {
            Some(item) => spec_type_lists(d, item.offset as int, item.size as int, tsize, e),
            None => Ok((Seq::empty(), 0)),
        },
    );
    let ci = spec_section_err(
        m,
        0x2001,
        match spec_find_type(m, 0x2001) {
            Some(item) => spec_code_items(d, item.offset as int, item.size as int, e),
            None => Ok((Seq::empty(), 0)),
        },
    );
    let di = spec_section_err(
        m,
        0x2003,
        match spec_find_type(m, 0x2003) {
            Some(item) => spec_debug_infos(d, item.offset as int, item.size as int),
            None => Ok((Seq::empty(), 0)),
        },
    );
    let ad = spec_section_err(
        m,
        0x2006,
        match spec_find_type(m, 0x2006) {
            Some(item) => spec_ann_dirs(d, item.offset as int, item.size as int, e),
            None => Ok((Seq::empty(), 0)),
        },
    );
    let asr = spec_section_err(
        m,
        0x1002,
        match spec_find_type(m, 0x1002) {
            Some(item) => spec_u32_lists(d, item.offset as int, item.size as int, e),
            None => Ok((Seq::empty(), 0)),
        },
    );
    let ase = spec_section_err(
        m,
        0x1003,
        match spec_find_type(m, 0x1003) {
            Some(item) => spec_u32_lists(d, item.offset as int, item.size as int, e),
            None => Ok((Seq::empty(), 0)),
        },
    );
    let ai = spec_section_err(
        m,
        0x2004,
        match spec_find_type(m, 0x2004) {
            Some(item) => spec_annotation_items(d, item.offset as int, item.size as int),
            None => Ok((Seq::empty(), 0)),
        },
    );
    let defs = spec_class_defs_of(d, e);
    let ha: Option<DexError> = match spec_find_type(m, 0xf000) {
        None => None,
        Some(item) => match spec_hiddenapi_section(d, item.offset as int, e, defs) {
            Err(e2) => Some(e2),
            Ok(_) => None,
        },
    };
    if cdata is Some {
        cdata
    } else if tl is Some {
        tl
    } else if ci is Some {
        ci
    } else if di is Some {
        di
    } else if ad is Some {
        ad
    } else if asr is Some {
        asr
    } else if ase is Some {
        ase
    } else if ai is Some {
        ai
    } else if ha is Some {
        ha
    } else {
        None
    }
}

/// Everything the assembly promises of an accepted image.
pub open spec fn spec_image_ok(d: Seq<u8>, img: DexImage) -> bool {
    let e = spec_endian_of_tag(spec_u32_at(d, 0x28, Endian::Little));
    let m = spec_map_entries(d, e);
    let sid_off = spec_u32_at(d, 0x3c, e) as int;
    let sid_size = spec_u32_at(d, 0x38, e) as int;
    &&& spec_header_fields(d, e, img.header)
    &&& img.endian == e
    &&& img.map@ == m
    &&& spec_map_header_agrees(d, e, m)
    &&& spec_map_order_err(m, spec_u32_at(d, 0x34, e) as int + 4, 0) is None
    &&& img.string_ids@.len() == sid_size
    &&& (forall|i: int|
        0 <= i < sid_size ==> img.string_ids@[i] == spec_u32_at(d, sid_off + 4 * i, e))
    &&& (forall|i: int|
        0 <= i < sid_size ==> img.header.data_off <= (#[trigger] img.string_ids@[i])
            < img.header.data_off + img.header.data_size)
    &&& img.strings@.len() == sid_size
    &&& (forall|i: int|
        0 <= i < sid_size ==> (spec_string_at(d, #[trigger] img.string_ids@[i] as int) matches Ok(s)
            && img.strings@[i]@ == s))
    &&& spec_tables_ok(
        d,
        e,
        m,
        DexTables {
            type_ids: img.type_ids,
            proto_ids: img.proto_ids,
            field_ids: img.field_ids,
            method_ids: img.method_ids,
            class_defs: img.class_defs,
            call_site_ids: img.call_site_ids,
            call_sites: img.call_sites,
            method_handles: img.method_handles,
        },
    )
    &&& spec_sections_ok(
        d,
        e,
        m,
        DexSections {
            class_data: img.class_data,
            type_lists: img.type_lists,
            code_items: img.code_items,
            debug_info: img.debug_info,
            annotations_directories: img.annotations_directories,
            annotation_set_ref_lists: img.annotation_set_ref_lists,
            annotation_sets: img.annotation_sets,
            annotation_items: img.annotation_items,
            hiddenapi: img.hiddenapi,
        },
    )
}

/// The map-named variable sections of an image, grouped so they can be
/// produced and pinned down together.
#[derive(Debug)]
pub struct DexSections {
    pub class_data: Vec<ClassData>,
    pub type_lists: Vec<Vec<u16>>,
    pub code_items: Vec<CodeItem>,
    pub debug_info: Vec<DebugInfoItem>,
    pub annotations_directories: Vec<AnnotationsDirectory>,
    pub annotation_set_ref_lists: Vec<Vec<u32>>,
    pub annotation_sets: Vec<Vec<u32>>,
    pub annotation_items: Vec<AnnotationItem>,
    pub hiddenapi: Vec<HiddenApiClassData>,
}

/// The fixed id tables, call sites and method handles of an image, grouped
/// so they can be produced and pinned down together.
#[derive(Debug)]
pub struct DexTables {
    pub type_ids: Vec<u32>,
    pub proto_ids: Vec<ProtoIdItem>,
    pub field_ids: Vec<FieldId>,
    pub method_ids: Vec<MethodId>,
    pub class_defs: Vec<ClassDef>,
    pub call_site_ids: Vec<u32>,
    pub call_sites: Vec<CallSiteItem>,
    pub method_handles: Vec<MethodHandle>,
}

/// The id tables pinned to their records — with every cross reference
/// checked — and the call sites and method handles pinned to theirs.
pub open spec fn spec_tables_ok(d: Seq<u8>, e: Endian, m: Seq<MapItem>, t: DexTables) -> bool {
    let ssize = spec_u32_at(d, 0x38, e) as int;
    let tsize = spec_u32_at(d, 0x40, e) as int;
    &&& t.type_ids@.len() == tsize
    &&& (forall|i: int|
        0 <= i < t.type_ids@.len() ==> t.type_ids@[i] == spec_u32_at(
            d,
            spec_u32_at(d, 0x44, e) as int + 4 * i,
            e,
        ))
    &&& (forall|i: int| 0 <= i < t.type_ids@.len() ==> (#[trigger] t.type_ids@[i]) < ssize)
    &&& t.proto_ids@.len() == spec_u32_at(d, 0x48, e) as int
    &&& (forall|i: int|
        0 <= i < t.proto_ids@.len() ==> t.proto_ids@[i] == spec_proto_id_at(
            d,
            spec_u32_at(d, 0x4c, e) as int + 12 * i,
            e,
        ))
    &&& (forall|i: int|
        0 <= i < t.proto_ids@.len() ==> ((#[trigger] t.proto_ids@[i]).parameters_off == 0
            || t.proto_ids@[i].parameters_off < d.len()))
    &&& t.field_ids@.len() == spec_u32_at(d, 0x50, e) as int
    &&& (forall|i: int|
        0 <= i < t.field_ids@.len() ==> t.field_ids@[i] == spec_field_id_at(
            d,
            spec_u32_at(d, 0x54, e) as int + 8 * i,
            e,
        ))
    &&& t.method_ids@.len() == spec_u32_at(d, 0x58, e) as int
    &&& (forall|i: int|
        0 <= i < t.method_ids@.len() ==> t.method_ids@[i] == spec_method_id_at(
            d,
            spec_u32_at(d, 0x5c, e) as int + 8 * i,
            e,
        ))
    &&& t.class_defs@.len() == spec_u32_at(d, 0x60, e) as int
    &&& (forall|i: int|
        0 <= i < t.class_defs@.len() ==> t.class_defs@[i] == spec_class_def_at(
            d,
            spec_u32_at(d, 0x64, e) as int + 32 * i,
            e,
        ))
    &&& (forall|i: int|
        0 <= i < t.class_defs@.len() ==> spec_class_def_refs_ok(
            d,
            #[trigger] t.class_defs@[i],
            tsize,
            ssize,
        ))
    &&& (match spec_find_type(m, 0x07) {
        None => t.call_site_ids@.len() == 0,
        Some(item) => t.call_site_ids@.len() == item.size && (forall|i: int|
            0 <= i < item.size ==> t.call_site_ids@[i] == spec_u32_at(
                d,
                item.offset as int + 4 * i,
                e,
            )),
    })
    &&& t.call_sites@.len() == t.call_site_ids@.len()
    &&& (forall|i: int|
        0 <= i < t.call_sites@.len() ==> (spec_call_site_at(
            d,
            #[trigger] t.call_site_ids@[i] as int,
        ) matches Ok(p) && t.call_sites@[i]@ == p.0))
    &&& (match spec_find_type(m, 0x08) {
        None => t.method_handles@.len() == 0,
        Some(item) => t.method_handles@.len() == item.size && (forall|i: int|
            0 <= i < item.size ==> t.method_handles@[i] == spec_method_handle_at(
                d,
                item.offset as int + 8 * i,
                e,
            )),
    })
}

/// The map-named sections pinned to their mirrors, with the class-data and
/// code-item invariants restated.
pub open spec fn spec_sections_ok(d: Seq<u8>, e: Endian, m: Seq<MapItem>, img: DexSections) -> bool {
    let fsize = spec_u32_at(d, 0x50, e) as int;
    let msize = spec_u32_at(d, 0x58, e) as int;
    let tsize = spec_u32_at(d, 0x40, e) as int;
    &&& (match spec_find_type(m, 0x2000) {
        None => img.class_data@.len() == 0,
        Some(item) => spec_class_data_list(d, item.offset as int, item.size as int, fsize, msize)
            matches Ok(p) && spec_class_data_views(img.class_data@) == p.0,
    })
    &&& (forall|k: int|
        0 <= k < img.class_data@.len() ==> spec_class_data_ok(
            #[trigger] img.class_data@[k]@,
            fsize,
            msize,
        ))
    &&& (match spec_find_type(m, 0x1001) {
        None => img.type_lists@.len() == 0,
        Some(item) => spec_type_lists(d, item.offset as int, item.size as int, tsize, e)
            matches Ok(p) && spec_type_list_views(img.type_lists@) == p.0,
    })
    &&& (forall|i: int|
        0 <= i < img.type_lists@.len() ==> spec_type_list_values_ok(
            (#[trigger] img.type_lists@[i])@,
            tsize,
        ))
    &&& (match spec_find_type(m, 0x2001) {
        None => img.code_items@.len() == 0,
        Some(item) => spec_code_items(d, item.offset as int, item.size as int, e) matches Ok(p)
            && spec_code_item_views(img.code_items@) == p.0,
    })
    &&& (forall|k: int|
        0 <= k < img.code_items@.len() ==> spec_tries_ok(
            (#[trigger] img.code_items@[k]@).tries,
            img.code_items@[k]@.insns.len() as int,
        ))
    &&& (match spec_find_type(m, 0x2003) {
        None => img.debug_info@.len() == 0,
        Some(item) => spec_debug_infos(d, item.offset as int, item.size as int) matches Ok(p)
            && spec_debug_info_views(img.debug_info@) == p.0,
    })
    &&& (match spec_find_type(m, 0x2006) {
        None => img.annotations_directories@.len() == 0,
        Some(item) => spec_ann_dirs(d, item.offset as int, item.size as int, e) matches Ok(p)
            && spec_ann_dir_views(img.annotations_directories@) == p.0,
    })
    &&& (match spec_find_type(m, 0x1002) {
        None => img.annotation_set_ref_lists@.len() == 0,
        Some(item) => spec_u32_lists(d, item.offset as int, item.size as int, e) matches Ok(p)
            && spec_u32_list_views(img.annotation_set_ref_lists@) == p.0,
    })
    &&& (match spec_find_type(m, 0x1003) {
        None => img.annotation_sets@.len() == 0,
        Some(item) => spec_u32_lists(d, item.offset as int, item.size as int, e) matches Ok(p)
            && spec_u32_list_views(img.annotation_sets@) == p.0,
    })
    &&& (match spec_find_type(m, 0x2004) {
        None => img.annotation_items@.len() == 0,
        Some(item) => spec_annotation_items(d, item.offset as int, item.size as int) matches Ok(p)
            && spec_annotation_item_views(img.annotation_items@) == p.0,
    })
    &&& (match spec_find_type(m, 0xf000) {
        None => img.hiddenapi@.len() == 0,
        Some(item) => spec_hiddenapi_section(d, item.offset as int, e, spec_class_defs_of(d, e))
            matches Ok(h) && img.hiddenapi@.len() == 1 && img.hiddenapi@[0]@ == h,
    })
}

/// The facts the first phases establish: a valid header, the resolved byte
/// order, the map, and the checked string table.
pub open spec fn spec_prelude_ok(
    d: Seq<u8>,
    e: Endian,
    h: DexHeader,
    m: Seq<MapItem>,
    ids: Seq<u32>,
    strs: Seq<String>,
) -> bool {
    let sid_off = spec_u32_at(d, 0x3c, e) as int;
    let sid_size = spec_u32_at(d, 0x38, e) as int;
    &&& spec_header_err(d) is None
    &&& e == spec_endian_of_tag(spec_u32_at(d, 0x28, Endian::Little))
    &&& spec_header_fields(d, e, h)
    &&& m == spec_map_entries(d, e)
    &&& spec_map_list_err(d, e) is None
    &&& spec_map_order_err(m, spec_u32_at(d, 0x34, e) as int + 4, 0) is None
    &&& spec_map_header_agrees(d, e, m)
    &&& ids.len() == sid_size
    &&& (forall|i: int| 0 <= i < sid_size ==> ids[i] == spec_u32_at(d, sid_off + 4 * i, e))
    &&& (forall|i: int|
        0 <= i < sid_size ==> h.data_off <= (#[trigger] ids[i]) < h.data_off + h.data_size)
    &&& strs.len() == sid_size
    &&& (forall|i: int|
        0 <= i < sid_size ==> (spec_string_at(d, #[trigger] ids[i] as int) matches Ok(s)
            && strs[i]@ == s))
}

/// Parses a whole DEX image: the header and map first, then every table and
/// map-named section, validating the map's type codes and its agreement with
/// the header, and the string id window, on the way.
#[verifier::rlimit(100)]
#[verifier::spinoff_prover]
pub fn parse_dex(data: &[u8]) -> (r: Result<DexImage, DexError>)
    ensures
        ({
            let d = data@;
            match spec_parse_dex_err(d) {
                Some(e) => r == Err::<DexImage, DexError>(e),
                None => r matches Ok(img) && spec_image_ok(d, img),
            }
        }),
{
    let (header, endian, map, string_ids, strings) = match parse_dex_prelude(data) {
        Ok(t) => t,
        Err(e) => {
            return Err(e);
        },
    };
    parse_dex_rest(data, header, endian, map, string_ids, strings)
}

/// The leading phases: header, map, validations, and the string table.
#[verifier::rlimit(100)]
#[verifier::spinoff_prover]
fn parse_dex_prelude(data: &[u8]) -> (r: Result<
    (DexHeader, Endian, Vec<MapItem>, Vec<u32>, Vec<String>),
    DexError,
>)
    ensures
        ({
            let d = data@;
            match spec_prelude_err(d) {
                Some(e) => r == Err::<
                    (DexHeader, Endian, Vec<MapItem>, Vec<u32>, Vec<String>),
                    DexError,
                >(e),
                None => r matches Ok(t) && spec_prelude_ok(d, t.1, t.0, t.2@, t.3@, t.4@),
            }
        }),
{
    let ghost d = data@;
    let header = match DexHeader::from_reader(data) {
        Ok(h) => h,
        Err(e) => {
            return Err(e);
        },
    };
    let endian = match DexHeader::verify_endian(header.endian_tag) {
        Ok(e) => e,
        Err(e) => {
            return Err(e);
        },
    };
    let map = match MapItem::parse_map_list(&header, data, endian) {
        Ok(m) => m,
        Err(e) => {
            return Err(e);
        },
    };
    proof {
        assert(map@ =~= spec_map_entries(d, endian));
    }
    let ghost m = spec_map_entries(d, endian);
    let dlen = data.len();
    proof {
        assert(d.len() == dlen as int);
    }
    if let Some(e) = check_map_types(&map, header.map_off) {
        return Err(e);
    }
    if let Some(e) = check_map_order(&map, header.map_off) {
        return Err(e);
    }
    let sizes_agree = map_size_of(&map, 0x0000) == 1 && find_type_in_map(&map, 0x1000).is_some()
        && map_size_of(&map, 0x0001) == header.string_ids_size && map_size_of(&map, 0x0002)
        == header.type_ids_size && map_size_of(&map, 0x0003) == header.proto_ids_size
        && map_size_of(&map, 0x0004) == header.field_ids_size && map_size_of(&map, 0x0005)
        == header.method_ids_size && map_size_of(&map, 0x0006) == header.class_defs_size;
    if !sizes_agree {
        return Err(DexError::new(DexErrorKind::MapHeaderMismatch, header.map_off as usize));
    }
    let string_ids = match parse_string_ids(&header, data, endian) {
        Ok(v) => v,
        Err(e) => {
            return Err(e);
        },
    };
    let ghost ids = Seq::new(
        header.string_ids_size as nat,
        |i: int| spec_u32_at(d, header.string_ids_off as int + 4 * i, endian),
    );
    proof {
        assert(string_ids@ =~= ids);
    }
    if let Some(e) = check_string_window(
        &string_ids,
        header.data_off,
        header.data_size,
        header.string_ids_off,
    ) {
        return Err(e);
    }
    let strings = match parse_string_data_checked(&string_ids, data) {
        Ok(v) => v,
        Err(e) => {
            return Err(e);
        },
    };
    Ok((header, endian, map, string_ids, strings))
}

/// The remaining phases: the fixed id tables, the call sites and method
/// handles, then every map-named variable section.
#[verifier::rlimit(100)]
#[verifier::spinoff_prover]
fn parse_dex_rest(
    data: &[u8],
    header: DexHeader,
    endian: Endian,
    map: Vec<MapItem>,
    string_ids: Vec<u32>,
    strings: Vec<String>,
) -> (r: Result<DexImage, DexError>)
    requires
        spec_prelude_ok(data@, endian, header, map@, string_ids@, strings@),
    ensures
        ({
            let d = data@;
            match spec_parse_dex_tail_err(d, endian, map@) {
                Some(e) => r == Err::<DexImage, DexError>(e),
                None => r matches Ok(img) && spec_image_ok(d, img),
            }
        }),
{
    let ghost d = data@;
    let tables = match parse_dex_tables(data, &header, endian, &map) {
        Ok(t) => t,
        Err(e) => {
            return Err(e);
        },
    };
    let ghost gt = tables;
    let DexTables {
        type_ids,
        proto_ids,
        field_ids,
        method_ids,
        class_defs,
        call_site_ids,
        call_sites,
        method_handles,
    } = tables;
    proof {
        assert(class_defs@ =~= spec_class_defs_of(d, endian));
    }
    let sections = match parse_dex_sections(data, &header, endian, &map, &class_defs) {
        Ok(p) => p,
        Err(e) => {
            return Err(e);
        },
    };
    let ghost gs = sections;
    let DexSections {
        class_data,
        type_lists,
        code_items,
        debug_info,
        annotations_directories,
        annotation_set_ref_lists,
        annotation_sets,
        annotation_items,
        hiddenapi,
    } = sections;
    let img = DexImage {
        header,
        endian,
        map,
        string_ids,
        strings,
        type_ids,
        proto_ids,
        field_ids,
        method_ids,
        class_defs,
        call_site_ids,
        call_sites,
        method_handles,
        class_data,
        type_lists,
        code_items,
        debug_info,
        annotations_directories,
        annotation_set_ref_lists,
        annotation_sets,
        annotation_items,
        hiddenapi,
    };
    proof {
        assert(DexTables {
            type_ids: img.type_ids,
            proto_ids: img.proto_ids,
            field_ids: img.field_ids,
            method_ids: img.method_ids,
            class_defs: img.class_defs,
            call_site_ids: img.call_site_ids,
            call_sites: img.call_sites,
            method_handles: img.method_handles,
        } == gt);
        assert(DexSections {
            class_data: img.class_data,
            type_lists: img.type_lists,
            code_items: img.code_items,
            debug_info: img.debug_info,
            annotations_directories: img.annotations_directories,
            annotation_set_ref_lists: img.annotation_set_ref_lists,
            annotation_sets: img.annotation_sets,
            annotation_items: img.annotation_items,
            hiddenapi: img.hiddenapi,
        } == gs);
    }
    Ok(img)
}

/// The fixed id tables, the call sites and the method handles, read in the
/// order the error chain states.
#[verifier::rlimit(100)]
#[verifier::spinoff_prover]
fn parse_dex_tables(data: &[u8], header: &DexHeader, endian: Endian, map: &Vec<MapItem>) -> (r:
    Result<DexTables, DexError>)
    requires
        spec_header_fields(data@, endian, *header),
    ensures
        ({
            let d = data@;
            match spec_tables_err(d, endian, map@) {
                Some(e) => r == Err::<DexTables, DexError>(e),
                None => r matches Ok(t) && spec_tables_ok(d, endian, map@, t),
            }
        }),
{
    let ghost d = data@;
    let ghost m = map@;
    let type_ids = match parse_type_ids(header, data, endian) {
        Ok(v) => v,
        Err(e) => {
            return Err(e);
        },
    };
    let proto_ids = match parse_proto_ids(header, data, endian) {
        Ok(v) => v,
        Err(e) => {
            return Err(e);
        },
    };
    let field_ids = match parse_field_ids(header, data, endian) {
        Ok(v) => v,
        Err(e) => {
            return Err(e);
        },
    };
    let method_ids = match parse_method_ids(header, data, endian) {
        Ok(v) => v,
        Err(e) => {
            return Err(e);
        },
    };
    let class_defs = match parse_class_defs(header, data, endian) {
        Ok(v) => v,
        Err(e) => {
            return Err(e);
        },
    };
    let call_site_ids = match parse_call_side_ids(map, data, endian) {
        Ok(v) => v,
        Err(e) => {
            return Err(e);
        },
    };
    proof {
        match spec_find_type(m, 0x07) {
            Some(item) => {
                assert(call_site_ids@ =~= Seq::new(
                    item.size as nat,
                    |i: int| spec_u32_at(d, item.offset as int + 4 * i, endian),
                ));
            },
            None => {
                assert(call_site_ids@ =~= Seq::<u32>::empty());
            },
        }
    }
    let call_sites = match parse_call_side_item(&call_site_ids, data) {
        Ok(v) => v,
        Err(e) => {
            return Err(e);
        },
    };
    let method_handles = match parse_method_handles(map, data, endian) {
        Ok(v) => v,
        Err(e) => {
            return Err(e);
        },
    };
    Ok(
        DexTables {
            type_ids,
            proto_ids,
            field_ids,
            method_ids,
            class_defs,
            call_site_ids,
            call_sites,
            method_handles,
        },
    )
}

/// The map-named variable sections, read in the order the error chain
/// states.
#[verifier::rlimit(100)]
#[verifier::spinoff_prover]
fn parse_dex_sections(
    data: &[u8],
    header: &DexHeader,
    endian: Endian,
    map: &Vec<MapItem>,
    class_defs: &Vec<ClassDef>,
) -> (r: Result<DexSections, DexError>)
    requires
        spec_header_fields(data@, endian, *header),
        class_defs@ == spec_class_defs_of(data@, endian),
    ensures
        ({
            let d = data@;
            match spec_parse_dex_sections_err(d, endian, map@) {
                Some(e) => r == Err::<DexSections, DexError>(e),
                None => r matches Ok(p) && spec_sections_ok(d, endian, map@, p),
            }
        }),
{
    let ghost d = data@;
    let ghost m = map@;
    let class_data = match parse_class_data(map, data, header) {
        Ok(v) => v,
        Err(e) => {
            return Err(e);
        },
    };
    let type_lists = match parse_type_lists(map, data, header.type_ids_size, endian) {
        Ok(v) => v,
        Err(e) => {
            return Err(e);
        },
    };
    let code_items = match parse_code_items(map, data, endian) {
        Ok(v) => v,
        Err(e) => {
            return Err(e);
        },
    };
    let debug_info = match parse_debug_info(map, data) {
        Ok(v) => v,
        Err(e) => {
            return Err(e);
        },
    };
    let annotations_directories = match parse_annotations_directories(map, data, endian) {
        Ok(v) => v,
        Err(e) => {
            return Err(e);
        },
    };
    let annotation_set_ref_lists = match parse_annotation_set_ref_list(map, data, endian) {
        Ok(v) => v,
        Err(e) => {
            return Err(e);
        },
    };
    let annotation_sets = match parse_annotation_set_item(map, data, endian) {
        Ok(v) => v,
        Err(e) => {
            return Err(e);
        },
    };
    let annotation_items = match parse_annotation_item(map, data) {
        Ok(v) => v,
        Err(e) => {
            return Err(e);
        },
    };
    let hiddenapi = match parse_hiddenapi_class_data(map, data, endian, class_defs) {
        Ok(v) => v,
        Err(e) => {
            return Err(e);
        },
    };
    Ok(
        DexSections {
            class_data,
            type_lists,
            code_items,
            debug_info,
            annotations_directories,
            annotation_set_ref_lists,
            annotation_sets,
            annotation_items,
            hiddenapi,
        },
    )
}

/// The size of the first map entry of the given type, zero when absent.
fn map_size_of(map: &Vec<MapItem>, t: u16) -> (r: u32)
    ensures
        r as int == spec_map_size(map@, t),
{
    match find_type_in_map(map, t) {
        Some(item) => item.size,
        None => 0,
    }
}

/// Loads every string, reporting the first failure in index order.
fn parse_string_data_checked(string_ids: &Vec<u32>, data: &[u8]) -> (r: Result<Vec<String>, DexError>)
    ensures
        ({
            let d = data@;
            let offs = string_ids@;
            match spec_string_data_err(d, offs, 0) {
                Some(e) => r == Err::<Vec<String>, DexError>(e),
                None => r matches Ok(v) && v@.len() == offs.len() && (forall|i: int|
                    0 <= i < offs.len() ==> (spec_string_at(d, #[trigger] offs[i] as int)
                        matches Ok(s) && v@[i]@ == s)),
            }
        }),
{
    let ghost d = data@;
    let ghost offs = string_ids@;
    let n = string_ids.len();
    let mut v: Vec<String> = Vec::new();
    let mut i: usize = 0;
    while i < n
        invariant
            i <= n,
            d == data@,
            offs == string_ids@,
            n == string_ids@.len(),
            v@.len() == i,
            spec_string_data_err(d, offs, 0) == spec_string_data_err(d, offs, i as int),
            forall|j: int|
                0 <= j < i ==> (spec_string_at(d, #[trigger] offs[j] as int) matches Ok(s)
                    && v@[j]@ == s),
        decreases n - i,
    {
        match crate::tables::parse_one_string(data, string_ids[i]) {
            Ok(s) => {
                v.push(s);
            },
            Err(e) => {
                return Err(e);
            },
        }
        i = i + 1;
    }
    Ok(v)
}

/// Checks every map entry's type code, reporting the first undefined one at
/// its position in the map.
fn check_map_types(map: &Vec<MapItem>, map_off: u32) -> (r: Option<DexError>)
    requires
        map_off as int + 4 + 12 * map@.len() <= usize::MAX,
    ensures
        r == spec_map_types_err(map@, map_off as int + 4, 0),
        r is None ==> forall|j: int|
            0 <= j < map@.len() ==> spec_known_map_type(#[trigger] map@[j].item_type),
{
    let ghost m = map@;
    let ghost base = map_off as int + 4;
    let n = map.len();
    let mut i: usize = 0;
    while i < n
        invariant
            i <= n,
            m == map@,
            n == map@.len(),
            base == map_off as int + 4,
            base + 12 * n <= usize::MAX,
            forall|j: int| 0 <= j < i ==> spec_known_map_type(#[trigger] map@[j].item_type),
            spec_map_types_err(m, base, 0) == spec_map_types_err(m, base, i as int),
        decreases n - i,
    {
        let t = map[i].item_type;
        let known = t == 0x0000 || t == 0x0001 || t == 0x0002 || t == 0x0003 || t == 0x0004 || t
            == 0x0005 || t == 0x0006 || t == 0x0007 || t == 0x0008 || t == 0x1000 || t == 0x1001
            || t == 0x1002 || t == 0x1003 || t == 0x2000 || t == 0x2001 || t == 0x2002 || t
            == 0x2003 || t == 0x2004 || t == 0x2005 || t == 0x2006 || t == 0xf000;
        if !known {
            return Some(DexError::new(DexErrorKind::UnknownMapType, map_off as usize + 4 + 12 * i));
        }
        i = i + 1;
    }
    None
}

/// True when an earlier entry already uses this entry's type code.
fn type_seen_before(map: &Vec<MapItem>, k: usize) -> (r: bool)
    requires
        k < map@.len(),
    ensures
        r == exists|j: int| 0 <= j < k && map@[j].item_type == map@[k as int].item_type,
{
    let t = map[k].item_type;
    let mut j: usize = 0;
    while j < k
        invariant
            j <= k,
            k < map@.len(),
            t == map@[k as int].item_type,
            forall|x: int| 0 <= x < j ==> map@[x].item_type != t,
        decreases k - j,
    {
        if map[j].item_type == t {
            proof {
                assert(map@[j as int].item_type == map@[k as int].item_type);
            }
            return true;
        }
        j = j + 1;
    }
    false
}

/// Checks the map's shape: no repeated type code, offsets strictly
/// increasing, every offset 4-byte aligned except the string data section's.
fn check_map_order(map: &Vec<MapItem>, map_off: u32) -> (r: Option<DexError>)
    requires
        map_off as int + 4 + 12 * map@.len() <= usize::MAX,
    ensures
        r == spec_map_order_err(map@, map_off as int + 4, 0),
{
    let ghost m = map@;
    let ghost base = map_off as int + 4;
    let n = map.len();
    let mut i: usize = 0;
    while i < n
        invariant
            i <= n,
            m == map@,
            n == map@.len(),
            base == map_off as int + 4,
            base + 12 * n <= usize::MAX,
            spec_map_order_err(m, base, 0) == spec_map_order_err(m, base, i as int),
        decreases n - i,
    {
        if type_seen_before(map, i) {
            return Some(
                DexError::new(DexErrorKind::MapHeaderMismatch, map_off as usize + 4 + 12 * i),
            );
        }
        if i > 0 && map[i].offset <= map[i - 1].offset {
            return Some(
                DexError::new(DexErrorKind::OffsetOutOfRange, map_off as usize + 4 + 12 * i),
            );
        }
        if map[i].item_type != 0x2002 && map[i].offset % 4 != 0 {
            return Some(
                DexError::new(DexErrorKind::AlignmentViolation, map_off as usize + 4 + 12 * i),
            );
        }
        i = i + 1;
    }
    None
}

/// Checks that every string id lies in the data window, reporting the first
/// one outside it at its position in the id table.
fn check_string_window(ids: &Vec<u32>, data_off: u32, data_size: u32, base_off: u32) -> (r: Option<
    DexError,
>)
    requires
        base_off as int + 4 * ids@.len() <= usize::MAX,
    ensures
        r == spec_string_window_err(ids@, data_off as int, data_size as int, base_off as int, 0),
        r is None ==> forall|j: int|
            0 <= j < ids@.len() ==> data_off <= (#[trigger] ids@[j]) < data_off + data_size,
{
    let ghost s = ids@;
    let n = ids.len();
    let mut i: usize = 0;
    while i < n
        invariant
            i <= n,
            s == ids@,
            n == ids@.len(),
            base_off as int + 4 * n <= usize::MAX,
            forall|j: int| 0 <= j < i ==> data_off <= (#[trigger] ids@[j]) < data_off + data_size,
            spec_string_window_err(s, data_off as int, data_size as int, base_off as int, 0)
                == spec_string_window_err(
                s,
                data_off as int,
                data_size as int,
                base_off as int,
                i as int,
            ),
        decreases n - i,
    {
        let o = ids[i];
        if !(data_off <= o && (o as u64) < data_off as u64 + data_size as u64) {
            return Some(
                DexError::new(DexErrorKind::OffsetOutOfRange, base_off as usize + 4 * i),
            );
        }
        i = i + 1;
    }
    None
}

} // verus!
