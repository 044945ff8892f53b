//! The fixed index tables: string ids, type ids, prototypes, fields, methods,
//! class definitions, call-site ids and method handles.
//!
//! Every table is a run of fixed-stride records at an offset taken from the
//! header or the map. A reader first checks that the whole run lies inside
//! the image — an empty table is legal at any offset and is produced without
//! touching the image — and then yields exactly the records the bytes spell.

use vstd::prelude::*;

use crate::cursor::{read_u16, read_u32, spec_u16_at, spec_u32_at, Endian};
use crate::err::{derr, DexError, DexErrorKind};
use crate::header::{spec_find_type, DexHeader, MapItem};
use crate::header::find_type_in_map;
use crate::leb128::{read_uleb128, spec_read_uleb128};
use crate::m_utf8::{
    spec_mutf8_decode,
    spec_utf16_decode,
    spec_utf16_valid,
    to_string,
    LoadMUtf8StringError,
    MUtf8ParseError,
};

verus! {

/// A prototype record: shorty string, return type, and the offset of its
/// parameter type list (zero when it has none).
#[derive(Clone, Copy, Debug, PartialEq, Eq, Structural)]
pub struct ProtoIdItem {
    pub shorty_idx: u32,
    pub return_type_idx: u32,
    pub parameters_off: u32,
}

/// A field record: defining class, type, and name.
#[derive(Clone, Copy, Debug, PartialEq, Eq, Structural)]
pub struct FieldId {
    pub class_idx: u16,
    pub type_idx: u16,
    pub name_idx: u32,
}

/// A method record: defining class, prototype, and name.
#[derive(Clone, Copy, Debug, PartialEq, Eq, Structural)]
pub struct MethodId {
    pub class_idx: u16,
    pub proto_idx: u16,
    pub name_idx: u32,
}

/// A class definition record; `0xFFFF_FFFF` marks an absent index and `0` an
/// absent offset.
#[derive(Clone, Copy, Debug, PartialEq, Eq, Structural)]
pub struct ClassDef {
    pub class_idx: u32,
    pub access_flags: u32,
    pub superclass_idx: u32,
    pub interfaces_off: u32,
    pub source_file_idx: u32,
    pub annotations_off: u32,
    pub class_data_off: u32,
    pub static_values_off: u32,
}

/// A method handle record; the two reserved halves of the record are skipped.
#[derive(Clone, Copy, Debug, PartialEq, Eq, Structural)]
pub struct MethodHandle {
    pub method_handle_type: u16,
    pub field_or_method_id: u16,
}

/// The prototype record starting at `p`.
pub open spec fn spec_proto_id_at(d: Seq<u8>, p: int, e: Endian) -> ProtoIdItem {
    ProtoIdItem {
        shorty_idx: spec_u32_at(d, p, e),
        return_type_idx: spec_u32_at(d, p + 4, e),
        parameters_off: spec_u32_at(d, p + 8, e),
    }
}

/// The field record starting at `p`.
pub open spec fn spec_field_id_at(d: Seq<u8>, p: int, e: Endian) -> FieldId {
    FieldId {
        class_idx: spec_u16_at(d, p, e),
        type_idx: spec_u16_at(d, p + 2, e),
        name_idx: spec_u32_at(d, p + 4, e),
    }
}

/// The method record starting at `p`.
pub open spec fn spec_method_id_at(d: Seq<u8>, p: int, e: Endian) -> MethodId {
    MethodId {
        class_idx: spec_u16_at(d, p, e),
        proto_idx: spec_u16_at(d, p + 2, e),
        name_idx: spec_u32_at(d, p + 4, e),
    }
}

/// The class definition record starting at `p`.
pub open spec fn spec_class_def_at(d: Seq<u8>, p: int, e: Endian) -> ClassDef {
    ClassDef {
        class_idx: spec_u32_at(d, p, e),
        access_flags: spec_u32_at(d, p + 4, e),
        superclass_idx: spec_u32_at(d, p + 8, e),
        interfaces_off: spec_u32_at(d, p + 12, e),
        source_file_idx: spec_u32_at(d, p + 16, e),
        annotations_off: spec_u32_at(d, p + 20, e),
        class_data_off: spec_u32_at(d, p + 24, e),
        static_values_off: spec_u32_at(d, p + 28, e),
    }
}

/// The method handle record starting at `p`: its type, two unused bytes, the
/// field or method id, two more unused bytes.
pub open spec fn spec_method_handle_at(d: Seq<u8>, p: int, e: Endian) -> MethodHandle {
    MethodHandle {
        method_handle_type: spec_u16_at(d, p, e),
        field_or_method_id: spec_u16_at(d, p + 4, e),
    }
}

/// How a table run at `off` with `size` records of `stride` bytes fails its
/// bounds check: `None` when the run lies inside the image. An empty table
/// never fails.
pub open spec fn spec_table_bounds_err(d: Seq<u8>, off: int, size: int, stride: int) -> Option<
    DexError,
> {
    if size == 0 {
        None
    } else if off > d.len() {
        Some(derr(DexErrorKind::OffsetOutOfRange, off))
    } else if off + stride * size > d.len() {
        Some(derr(DexErrorKind::SectionOverflow, off))
    } else {
        None
    }
}

/// Checks that `size` records of `stride` bytes fit at `off`; all quantities
/// are widened so the check itself cannot overflow.
fn table_bounds_check(data: &[u8], off: u32, size: u32, stride: u32) -> (r: Option<DexError>)
    requires
        1 <= stride <= 64,
    ensures
        r == spec_table_bounds_err(data@, off as int, size as int, stride as int),
{
    proof {
        vstd::arithmetic::mul::lemma_mul_upper_bound(
            stride as int,
            64,
            size as int,
            0xffff_ffff,
        );
    }
    if size == 0 {
        None
    } else if off as u64 > data.len() as u64 {
        Some(DexError::new(DexErrorKind::OffsetOutOfRange, off as usize))
    } else if off as u64 + stride as u64 * size as u64 > data.len() as u64 {
        Some(DexError::new(DexErrorKind::SectionOverflow, off as usize))
    } else {
        None
    }
}

/// Reads the string id table: `string_ids_size` offsets into the data
/// section, one `u32` each.
pub fn parse_string_ids(dex_header: &DexHeader, data: &[u8], e: Endian) -> (r: Result<
    Vec<u32>,
    DexError,
>)
    ensures
        ({
            let d = data@;
            let off = dex_header.string_ids_off as int;
            let size = dex_header.string_ids_size as int;
            match spec_table_bounds_err(d, off, size, 4) {
                Some(err) => r == Err::<Vec<u32>, DexError>(err),
                None => r matches Ok(v) && v.len() == size && (forall|i: int|
                    0 <= i < size ==> v@[i] == spec_u32_at(d, off + 4 * i, e)),
            }
        }),
{
    let off = dex_header.string_ids_off;
    let size = dex_header.string_ids_size;
    if let Some(err) = table_bounds_check(data, off, size, 4) {
        return Err(err);
    }
    let mut v: Vec<u32> = Vec::new();
    let mut i: u32 = 0;
    while i < size
        invariant
            i <= size,
            size > 0 ==> off + 4 * size <= data.len(),
            v.len() == i,
            forall|j: int| 0 <= j < i ==> v@[j] == spec_u32_at(data@, off + 4 * j, e),
        decreases size - i,
    {
        let pos = off as usize + 4 * i as usize;
        let (x, _) = match read_u32(data, pos, e) {
            Ok(p) => p,
            Err(err) => {
                return Err(err);
            },
        };
        v.push(x);
        i = i + 1;
    }
    Ok(v)
}

/// The first type id, from index `k` on, that leaves the string id table.
pub open spec fn spec_type_id_range_err(
    d: Seq<u8>,
    off: int,
    size: int,
    bound: int,
    e: Endian,
    k: int,
) -> Option<DexError>
    decreases size - k,
{
    if k < 0 || k >= size {
        None
    } else if !(spec_u32_at(d, off + 4 * k, e) < bound) {
        Some(derr(DexErrorKind::BadIndex, off + 4 * k))
    } else {
        spec_type_id_range_err(d, off, size, bound, e, k + 1)
    }
}

/// What reading the type id table reports: its bounds, then the first index
/// outside the string id table.
pub open spec fn spec_type_ids_err(d: Seq<u8>, off: int, size: int, bound: int, e: Endian) -> Option<
    DexError,
> {
    match spec_table_bounds_err(d, off, size, 4) {
        Some(err) => Some(err),
        None => spec_type_id_range_err(d, off, size, bound, e, 0),
    }
}

/// Reads the type id table: `type_ids_size` indices into the string ids, one
/// `u32` each, each refused unless it lands inside the string id table.
pub fn parse_type_ids(dex_header: &DexHeader, data: &[u8], e: Endian) -> (r: Result<
    Vec<u32>,
    DexError,
>)
    ensures
        ({
            let d = data@;
            let off = dex_header.type_ids_off as int;
            let size = dex_header.type_ids_size as int;
            match spec_type_ids_err(d, off, size, dex_header.string_ids_size as int, e) {
                Some(err) => r == Err::<Vec<u32>, DexError>(err),
                None => r matches Ok(v) && v.len() == size && (forall|i: int|
                    0 <= i < size ==> v@[i] == spec_u32_at(d, off + 4 * i, e)) && (forall|i: int|
                    0 <= i < size ==> (#[trigger] v@[i]) < dex_header.string_ids_size),
            }
        }),
{
    let ghost d = data@;
    let off = dex_header.type_ids_off;
    let size = dex_header.type_ids_size;
    let bound = dex_header.string_ids_size;
    if let Some(err) = table_bounds_check(data, off, size, 4) {
        return Err(err);
    }
    let mut v: Vec<u32> = Vec::new();
    let mut i: u32 = 0;
    while i < size
        invariant
            i <= size,
            d == data@,
            size > 0 ==> off + 4 * size <= data.len(),
            v.len() == i,
            forall|j: int| 0 <= j < i ==> v@[j] == spec_u32_at(data@, off + 4 * j, e),
        decreases size - i,
    {
        let pos = off as usize + 4 * i as usize;
        let (x, _) = match read_u32(data, pos, e) {
            Ok(p) => p,
            Err(err) => {
                return Err(err);
            },
        };
        v.push(x);
        i = i + 1;
    }
    let dlen = data.len();
    proof {
        assert(d.len() == dlen as int);
    }
    let mut k: u32 = 0;
    while k < size
        invariant
            k <= size,
            d == data@,
            d.len() <= usize::MAX,
            off == dex_header.type_ids_off,
            size == dex_header.type_ids_size,
            bound == dex_header.string_ids_size,
            size > 0 ==> off + 4 * size <= data.len(),
            v.len() == size,
            forall|j: int| 0 <= j < size ==> v@[j] == spec_u32_at(d, off + 4 * j, e),
            forall|j: int| 0 <= j < k ==> (#[trigger] v@[j]) < bound,
            spec_type_id_range_err(d, off as int, size as int, bound as int, e, 0)
                == spec_type_id_range_err(d, off as int, size as int, bound as int, e, k as int),
        decreases size - k,
    {
        if !(v[k as usize] < bound) {
            return Err(DexError::new(DexErrorKind::BadIndex, off as usize + 4 * k as usize));
        }
        k = k + 1;
    }
    Ok(v)
}

/// The first prototype, from index `k` on, whose parameter list offset is
/// neither absent nor inside the image.
pub open spec fn spec_proto_range_err(d: Seq<u8>, off: int, size: int, e: Endian, k: int) -> Option<
    DexError,
>
    decreases size - k,
{
    if k < 0 || k >= size {
        None
    } else {
        let p = spec_proto_id_at(d, off + 12 * k, e).parameters_off;
        if !(p == 0 || p < d.len()) {
            Some(derr(DexErrorKind::OffsetOutOfRange, off + 12 * k + 8))
        } else {
            spec_proto_range_err(d, off, size, e, k + 1)
        }
    }
}

/// What reading the prototype table reports: its bounds, then the first
/// parameter list offset outside the image.
pub open spec fn spec_proto_ids_err(d: Seq<u8>, off: int, size: int, e: Endian) -> Option<DexError> {
    match spec_table_bounds_err(d, off, size, 12) {
        Some(err) => Some(err),
        None => spec_proto_range_err(d, off, size, e, 0),
    }
}

/// Reads the prototype table: twelve-byte records; a parameter list offset
/// must be zero or land inside the image.
pub fn parse_proto_ids(dex_header: &DexHeader, data: &[u8], e: Endian) -> (r: Result<
    Vec<ProtoIdItem>,
    DexError,
>)
    ensures
        ({
            let d = data@;
            let off = dex_header.proto_ids_off as int;
            let size = dex_header.proto_ids_size as int;
            match spec_proto_ids_err(d, off, size, e) {
                Some(err) => r == Err::<Vec<ProtoIdItem>, DexError>(err),
                None => r matches Ok(v) && v.len() == size && (forall|i: int|
                    0 <= i < size ==> v@[i] == spec_proto_id_at(d, off + 12 * i, e)) && (forall|
                    i: int,
                |
                    0 <= i < size ==> ((#[trigger] v@[i]).parameters_off == 0
                        || v@[i].parameters_off < d.len())),
            }
        }),
{
    let ghost d = data@;
    let off = dex_header.proto_ids_off;
    let size = dex_header.proto_ids_size;
    if let Some(err) = table_bounds_check(data, off, size, 12) {
        return Err(err);
    }
    let mut v: Vec<ProtoIdItem> = Vec::new();
    let mut i: u32 = 0;
    while i < size
        invariant
            i <= size,
            size > 0 ==> off + 12 * size <= data.len(),
            v.len() == i,
            forall|j: int| 0 <= j < i ==> v@[j] == spec_proto_id_at(data@, off + 12 * j, e),
        decreases size - i,
    {
        let pos = off as usize + 12 * i as usize;
        let (shorty_idx, p1) = match read_u32(data, pos, e) {
            Ok(p) => p,
            Err(err) => {
                return Err(err);
            },
        };
        let (return_type_idx, p2) = match read_u32(data, p1, e) {
            Ok(p) => p,
            Err(err) => {
                return Err(err);
            },
        };
        let (parameters_off, _) = match read_u32(data, p2, e) {
            Ok(p) => p,
            Err(err) => {
                return Err(err);
            },
        };
        v.push(ProtoIdItem { shorty_idx, return_type_idx, parameters_off });
        i = i + 1;
    }
    let dlen = data.len();
    proof {
        assert(d.len() == dlen as int);
    }
    let mut k: u32 = 0;
    while k < size
        invariant
            k <= size,
            d == data@,
            d.len() <= usize::MAX,
            off == dex_header.proto_ids_off,
            size == dex_header.proto_ids_size,
            size > 0 ==> off + 12 * size <= data.len(),
            v.len() == size,
            forall|j: int| 0 <= j < size ==> v@[j] == spec_proto_id_at(d, off + 12 * j, e),
            forall|j: int|
                0 <= j < k ==> ((#[trigger] v@[j]).parameters_off == 0 || v@[j].parameters_off
                    < d.len()),
            spec_proto_range_err(d, off as int, size as int, e, 0) == spec_proto_range_err(
                d,
                off as int,
                size as int,
                e,
                k as int,
            ),
        decreases size - k,
    {
        let p = v[k as usize].parameters_off;
        if !(p == 0 || (p as usize) < data.len()) {
            return Err(
                DexError::new(DexErrorKind::OffsetOutOfRange, off as usize + 12 * k as usize + 8),
            );
        }
        k = k + 1;
    }
    Ok(v)
}

/// Reads the field table: eight-byte records.
pub fn parse_field_ids(dex_header: &DexHeader, data: &[u8], e: Endian) -> (r: Result<
    Vec<FieldId>,
    DexError,
>)
    ensures
        ({
            let d = data@;
            let off = dex_header.field_ids_off as int;
            let size = dex_header.field_ids_size as int;
            match spec_table_bounds_err(d, off, size, 8) {
                Some(err) => r == Err::<Vec<FieldId>, DexError>(err),
                None => r matches Ok(v) && v.len() == size && (forall|i: int|
                    0 <= i < size ==> v@[i] == spec_field_id_at(d, off + 8 * i, e)),
            }
        }),
{
    let off = dex_header.field_ids_off;
    let size = dex_header.field_ids_size;
    if let Some(err) = table_bounds_check(data, off, size, 8) {
        return Err(err);
    }
    let mut v: Vec<FieldId> = Vec::new();
    let mut i: u32 = 0;
    while i < size
        invariant
            i <= size,
            size > 0 ==> off + 8 * size <= data.len(),
            v.len() == i,
            forall|j: int| 0 <= j < i ==> v@[j] == spec_field_id_at(data@, off + 8 * j, e),
        decreases size - i,
    {
        let pos = off as usize + 8 * i as usize;
        let (class_idx, p1) = match read_u16(data, pos, e) {
            Ok(p) => p,
            Err(err) => {
                return Err(err);
            },
        };
        let (type_idx, p2) = match read_u16(data, p1, e) {
            Ok(p) => p,
            Err(err) => {
                return Err(err);
            },
        };
        let (name_idx, _) = match read_u32(data, p2, e) {
            Ok(p) => p,
            Err(err) => {
                return Err(err);
            },
        };
        v.push(FieldId { class_idx, type_idx, name_idx });
        i = i + 1;
    }
    Ok(v)
}

/// Reads the method table: eight-byte records.
pub fn parse_method_ids(dex_header: &DexHeader, data: &[u8], e: Endian) -> (r: Result<
    Vec<MethodId>,
    DexError,
>)
    ensures
        ({
            let d = data@;
            let off = dex_header.method_ids_off as int;
            let size = dex_header.method_ids_size as int;
            match spec_table_bounds_err(d, off, size, 8) {
                Some(err) => r == Err::<Vec<MethodId>, DexError>(err),
                None => r matches Ok(v) && v.len() == size && (forall|i: int|
                    0 <= i < size ==> v@[i] == spec_method_id_at(d, off + 8 * i, e)),
            }
        }),
{
    let off = dex_header.method_ids_off;
    let size = dex_header.method_ids_size;
    if let Some(err) = table_bounds_check(data, off, size, 8) {
        return Err(err);
    }
    let mut v: Vec<MethodId> = Vec::new();
    let mut i: u32 = 0;
    while i < size
        invariant
            i <= size,
            size > 0 ==> off + 8 * size <= data.len(),
            v.len() == i,
            forall|j: int| 0 <= j < i ==> v@[j] == spec_method_id_at(data@, off + 8 * j, e),
        decreases size - i,
    {
        let pos = off as usize + 8 * i as usize;
        let (class_idx, p1) = match read_u16(data, pos, e) {
            Ok(p) => p,
            Err(err) => {
                return Err(err);
            },
        };
        let (proto_idx, p2) = match read_u16(data, p1, e) {
            Ok(p) => p,
            Err(err) => {
                return Err(err);
            },
        };
        let (name_idx, _) = match read_u32(data, p2, e) {
            Ok(p) => p,
            Err(err) => {
                return Err(err);
            },
        };
        v.push(MethodId { class_idx, proto_idx, name_idx });
        i = i + 1;
    }
    Ok(v)
}

/// A class definition's references land where they must: its class and
/// superclass inside the type table (or the absent marker), its source file
/// inside the string table (or absent), and its four offsets at zero or
/// inside the image.
pub open spec fn spec_class_def_refs_ok(d: Seq<u8>, c: ClassDef, tsize: int, ssize: int) -> bool {
    &&& c.class_idx < tsize
    &&& c.superclass_idx == 0xffff_ffffu32 || c.superclass_idx < tsize
    &&& c.interfaces_off == 0 || c.interfaces_off < d.len()
    &&& c.source_file_idx == 0xffff_ffffu32 || c.source_file_idx < ssize
    &&& c.annotations_off == 0 || c.annotations_off < d.len()
    &&& c.class_data_off == 0 || c.class_data_off < d.len()
    &&& c.static_values_off == 0 || c.static_values_off < d.len()
}

/// The first failing reference of one class definition record at `base`, in
/// field order.
pub open spec fn spec_class_def_ref_err(
    d: Seq<u8>,
    c: ClassDef,
    base: int,
    tsize: int,
    ssize: int,
) -> Option<DexError> {
    if !(c.class_idx < tsize) {
        Some(derr(DexErrorKind::BadIndex, base))
    } else if !(c.superclass_idx == 0xffff_ffffu32 || c.superclass_idx < tsize) {
        Some(derr(DexErrorKind::BadIndex, base + 8))
    } else if !(c.interfaces_off == 0 || c.interfaces_off < d.len()) {
        Some(derr(DexErrorKind::OffsetOutOfRange, base + 12))
    } else if !(c.source_file_idx == 0xffff_ffffu32 || c.source_file_idx < ssize) {
        Some(derr(DexErrorKind::BadIndex, base + 16))
    } else if !(c.annotations_off == 0 || c.annotations_off < d.len()) {
        Some(derr(DexErrorKind::OffsetOutOfRange, base + 20))
    } else if !(c.class_data_off == 0 || c.class_data_off < d.len()) {
        Some(derr(DexErrorKind::OffsetOutOfRange, base + 24))
    } else if !(c.static_values_off == 0 || c.static_values_off < d.len()) {
        Some(derr(DexErrorKind::OffsetOutOfRange, base + 28))
    } else {
        None
    }
}

/// The first class definition, from index `k` on, with a failing reference.
pub open spec fn spec_class_defs_range_err(
    d: Seq<u8>,
    off: int,
    size: int,
    tsize: int,
    ssize: int,
    e: Endian,
    k: int,
) -> Option<DexError>
    decreases size - k,
{
    if k < 0 || k >= size {
        None
    } else {
        match spec_class_def_ref_err(d, spec_class_def_at(d, off + 32 * k, e), off + 32 * k, tsize, ssize) {
            Some(err) => Some(err),
            None => spec_class_defs_range_err(d, off, size, tsize, ssize, e, k + 1),
        }
    }
}

/// What reading the class definition table reports: its bounds, then the
/// first failing reference.
pub open spec fn spec_class_defs_err(
    d: Seq<u8>,
    off: int,
    size: int,
    tsize: int,
    ssize: int,
    e: Endian,
) -> Option<DexError> {
    match spec_table_bounds_err(d, off, size, 32) {
        Some(err) => Some(err),
        None => spec_class_defs_range_err(d, off, size, tsize, ssize, e, 0),
    }
}

/// Reads the class definition table: thirty-two-byte records, every
/// reference checked against its table or the image.
pub fn parse_class_defs(dex_header: &DexHeader, data: &[u8], e: Endian) -> (r: Result<
    Vec<ClassDef>,
    DexError,
>)
    ensures
        ({
            let d = data@;
            let off = dex_header.class_defs_off as int;
            let size = dex_header.class_defs_size as int;
            let tsize = dex_header.type_ids_size as int;
            let ssize = dex_header.string_ids_size as int;
            match spec_class_defs_err(d, off, size, tsize, ssize, e) {
                Some(err) => r == Err::<Vec<ClassDef>, DexError>(err),
                None => r matches Ok(v) && v.len() == size && (forall|i: int|
                    0 <= i < size ==> v@[i] == spec_class_def_at(d, off + 32 * i, e)) && (forall|
                    i: int,
                |
                    0 <= i < size ==> spec_class_def_refs_ok(d, #[trigger] v@[i], tsize, ssize)),
            }
        }),
{
    let ghost d = data@;
    let off = dex_header.class_defs_off;
    let size = dex_header.class_defs_size;
    if let Some(err) = table_bounds_check(data, off, size, 32) {
        return Err(err);
    }
    let mut v: Vec<ClassDef> = Vec::new();
    let mut i: u32 = 0;
    while i < size
        invariant
            i <= size,
            size > 0 ==> off + 32 * size <= data.len(),
            v.len() == i,
            forall|j: int| 0 <= j < i ==> v@[j] == spec_class_def_at(data@, off + 32 * j, e),
        decreases size - i,
    {
        let pos = off as usize + 32 * i as usize;
        let (class_idx, p1) = match read_u32(data, pos, e) {
            Ok(p) => p,
            Err(err) => {
                return Err(err);
            },
        };
        let (access_flags, p2) = match read_u32(data, p1, e) {
            Ok(p) => p,
            Err(err) => {
                return Err(err);
            },
        };
        let (superclass_idx, p3) = match read_u32(data, p2, e) {
            Ok(p) => p,
            Err(err) => {
                return Err(err);
            },
        };
        let (interfaces_off, p4) = match read_u32(data, p3, e) {
            Ok(p) => p,
            Err(err) => {
                return Err(err);
            },
        };
        let (source_file_idx, p5) = match read_u32(data, p4, e) {
            Ok(p) => p,
            Err(err) => {
                return Err(err);
            },
        };
        let (annotations_off, p6) = match read_u32(data, p5, e) {
            Ok(p) => p,
            Err(err) => {
                return Err(err);
            },
        };
        let (class_data_off, p7) = match read_u32(data, p6, e) {
            Ok(p) => p,
            Err(err) => {
                return Err(err);
            },
        };
        let (static_values_off, _) = match read_u32(data, p7, e) {
            Ok(p) => p,
            Err(err) => {
                return Err(err);
            },
        };
        v.push(
            ClassDef {
                class_idx,
                access_flags,
                superclass_idx,
                interfaces_off,
                source_file_idx,
                annotations_off,
                class_data_off,
                static_values_off,
            },
        );
        i = i + 1;
    }
    let tsize = dex_header.type_ids_size;
    let ssize = dex_header.string_ids_size;
    let dlen = data.len();
    proof {
        assert(d.len() == dlen as int);
    }
    let mut k: u32 = 0;
    while k < size
        invariant
            k <= size,
            d == data@,
            d.len() <= usize::MAX,
            dlen == d.len(),
            off == dex_header.class_defs_off,
            size == dex_header.class_defs_size,
            tsize == dex_header.type_ids_size,
            ssize == dex_header.string_ids_size,
            size > 0 ==> off + 32 * size <= data.len(),
            v.len() == size,
            forall|j: int| 0 <= j < size ==> v@[j] == spec_class_def_at(d, off + 32 * j, e),
            forall|j: int|
                0 <= j < k ==> spec_class_def_refs_ok(d, #[trigger] v@[j], tsize as int, ssize as int),
            spec_class_defs_range_err(d, off as int, size as int, tsize as int, ssize as int, e, 0)
                == spec_class_defs_range_err(
                d,
                off as int,
                size as int,
                tsize as int,
                ssize as int,
                e,
                k as int,
            ),
        decreases size - k,
    {
        let c = v[k as usize];
        let base = off as usize + 32 * k as usize;
        if !(c.class_idx < tsize) {
            return Err(DexError::new(DexErrorKind::BadIndex, base));
        }
        if !(c.superclass_idx == 0xffff_ffff || c.superclass_idx < tsize) {
            return Err(DexError::new(DexErrorKind::BadIndex, base + 8));
        }
        if !(c.interfaces_off == 0 || (c.interfaces_off as usize) < dlen) {
            return Err(DexError::new(DexErrorKind::OffsetOutOfRange, base + 12));
        }
        if !(c.source_file_idx == 0xffff_ffff || c.source_file_idx < ssize) {
            return Err(DexError::new(DexErrorKind::BadIndex, base + 16));
        }
        if !(c.annotations_off == 0 || (c.annotations_off as usize) < dlen) {
            return Err(DexError::new(DexErrorKind::OffsetOutOfRange, base + 20));
        }
        if !(c.class_data_off == 0 || (c.class_data_off as usize) < dlen) {
            return Err(DexError::new(DexErrorKind::OffsetOutOfRange, base + 24));
        }
        if !(c.static_values_off == 0 || (c.static_values_off as usize) < dlen) {
            return Err(DexError::new(DexErrorKind::OffsetOutOfRange, base + 28));
        }
        k = k + 1;
    }
    Ok(v)
}

/// Reads the call-site id table named by the map, if present: one `u32`
/// offset per call site. An image without call sites yields the empty table.
pub fn parse_call_side_ids(map_list: &Vec<MapItem>, data: &[u8], e: Endian) -> (r: Result<
    Vec<u32>,
    DexError,
>)
    ensures
        ({
            let d = data@;
            match spec_find_type(map_list@, 0x07) {
                None => r matches Ok(v) && v@ == Seq::<u32>::empty(),
                Some(item) => {
                    let off = item.offset as int;
                    let size = item.size as int;
                    match spec_table_bounds_err(d, off, size, 4) {
                        Some(err) => r == Err::<Vec<u32>, DexError>(err),
                        None => r matches Ok(v) && v.len() == size && (forall|i: int|
                            0 <= i < size ==> v@[i] == spec_u32_at(d, off + 4 * i, e)),
                    }
                },
            }
        }),
{
    let item = match find_type_in_map(map_list, 0x07) {
        None => {
            let v: Vec<u32> = Vec::new();
            return Ok(v);
        },
        Some(item) => item,
    };
    let off = item.offset;
    let size = item.size;
    if let Some(err) = table_bounds_check(data, off, size, 4) {
        return Err(err);
    }
    let mut v: Vec<u32> = Vec::new();
    let mut i: u32 = 0;
    while i < size
        invariant
            i <= size,
            size > 0 ==> off + 4 * size <= data.len(),
            v.len() == i,
            forall|j: int| 0 <= j < i ==> v@[j] == spec_u32_at(data@, off + 4 * j, e),
        decreases size - i,
    {
        let pos = off as usize + 4 * i as usize;
        let (x, _) = match read_u32(data, pos, e) {
            Ok(p) => p,
            Err(err) => {
                return Err(err);
            },
        };
        v.push(x);
        i = i + 1;
    }
    Ok(v)
}

/// Reads the method handle table named by the map, if present: eight-byte
/// records with two unused halves each.
pub fn parse_method_handles(map_list: &Vec<MapItem>, data: &[u8], e: Endian) -> (r: Result<
    Vec<MethodHandle>,
    DexError,
>)
    ensures
        ({
            let d = data@;
            match spec_find_type(map_list@, 0x08) {
                None => r matches Ok(v) && v@ == Seq::<MethodHandle>::empty(),
                Some(item) => {
                    let off = item.offset as int;
                    let size = item.size as int;
                    match spec_table_bounds_err(d, off, size, 8) {
                        Some(err) => r == Err::<Vec<MethodHandle>, DexError>(err),
                        None => r matches Ok(v) && v.len() == size && (forall|i: int|
                            0 <= i < size ==> v@[i] == spec_method_handle_at(d, off + 8 * i, e)),
                    }
                },
            }
        }),
{
    let item = match find_type_in_map(map_list, 0x08) {
        None => {
            let v: Vec<MethodHandle> = Vec::new();
            return Ok(v);
        },
        Some(item) => item,
    };
    let off = item.offset;
    let size = item.size;
    if let Some(err) = table_bounds_check(data, off, size, 8) {
        return Err(err);
    }
    let mut v: Vec<MethodHandle> = Vec::new();
    let mut i: u32 = 0;
    while i < size
        invariant
            i <= size,
            size > 0 ==> off + 8 * size <= data.len(),
            v.len() == i,
            forall|j: int| 0 <= j < i ==> v@[j] == spec_method_handle_at(data@, off + 8 * j, e),
        decreases size - i,
    {
        let pos = off as usize + 8 * i as usize;
        let (method_handle_type, _) = match read_u16(data, pos, e) {
            Ok(p) => p,
            Err(err) => {
                return Err(err);
            },
        };
        let (field_or_method_id, _) = match read_u16(data, pos + 4, e) {
            Ok(p) => p,
            Err(err) => {
                return Err(err);
            },
        };
        v.push(MethodHandle { method_handle_type, field_or_method_id });
        i = i + 1;
    }
    Ok(v)
}

/// Maps a string-loading failure onto the shared error taxonomy.
pub open spec fn spec_string_err_kind(e: LoadMUtf8StringError) -> DexErrorKind {
    match e {
        LoadMUtf8StringError::DecodeError(MUtf8ParseError::BadByte) => DexErrorKind::BadLeadByte,
        LoadMUtf8StringError::DecodeError(MUtf8ParseError::BadSecondByte)
            => DexErrorKind::BadSecondByte,
        LoadMUtf8StringError::DecodeError(MUtf8ParseError::BadSecondThirdByte)
            => DexErrorKind::BadSecondThirdByte,
        LoadMUtf8StringError::ReadError => DexErrorKind::Truncated,
        LoadMUtf8StringError::Utf16ToStringError => DexErrorKind::Utf16Invalid,
    }
}

/// What loading the string whose data starts at `off` yields: the text's
/// characters, or an error whose reported position is `off` itself.
pub open spec fn spec_string_at(d: Seq<u8>, off: int) -> Result<Seq<char>, DexError> {
    match spec_read_uleb128(d, off) {
        Err(e) => Err(e),
        Ok((declared, p)) => match spec_mutf8_decode(d, p as int) {
            Err(e) => Err(derr(spec_string_err_kind(e), off)),
            Ok((units, _)) => if spec_utf16_valid(units) {
                Ok(spec_utf16_decode(units))
            } else {
                Err(derr(DexErrorKind::Utf16Invalid, off))
            },
        },
    }
}

pub(crate) fn parse_one_string(data: &[u8], off: u32) -> (r: Result<String, DexError>)
    ensures
        match spec_string_at(data@, off as int) {
            Ok(s) => r matches Ok(out) && out@ == s,
            Err(e) => r == Err::<String, DexError>(e),
        },
{
    let (_, pos) = match read_uleb128(data, off as usize) {
        Ok(p) => p,
        Err(e) => {
            return Err(e);
        },
    };
    match to_string(data, pos) {
        Ok((s, _)) => Ok(s),
        Err(e) => Err(DexError::new(string_err_kind(e), off as usize)),
    }
}

/// The executable twin of `spec_string_err_kind`.
fn string_err_kind(e: LoadMUtf8StringError) -> (r: DexErrorKind)
    ensures
        r == spec_string_err_kind(e),
{
    match e {
        LoadMUtf8StringError::DecodeError(MUtf8ParseError::BadByte) => DexErrorKind::BadLeadByte,
        LoadMUtf8StringError::DecodeError(MUtf8ParseError::BadSecondByte)
            => DexErrorKind::BadSecondByte,
        LoadMUtf8StringError::DecodeError(MUtf8ParseError::BadSecondThirdByte)
            => DexErrorKind::BadSecondThirdByte,
        LoadMUtf8StringError::ReadError => DexErrorKind::Truncated,
        LoadMUtf8StringError::Utf16ToStringError => DexErrorKind::Utf16Invalid,
    }
}

/// Loads the string data each string id points at: a declared code-unit
/// count, then a zero-terminated MUTF-8 stream. The count is read but not
/// enforced, per the format's soft-length rule; errors report the string's
/// start offset.
pub fn parse_string_data(string_data_offs: Vec<u32>, data: &[u8]) -> (r: Result<
    Vec<String>,
    DexError,
>)
    ensures
        ({
            let d = data@;
            let offs = string_data_offs@;
            match r {
                Ok(v) => v.len() == offs.len() && (forall|i: int|
                    0 <= i < offs.len() ==> (spec_string_at(d, #[trigger] offs[i] as int)
                        matches Ok(s) && v@[i]@ == s)),
                Err(e) => exists|i: int|
                    0 <= i < offs.len() && spec_string_at(d, offs[i] as int) == Err::<
                        Seq<char>,
                        DexError,
                    >(e) && (forall|j: int|
                        0 <= j < i ==> spec_string_at(d, offs[j] as int) is Ok),
            }
        }),
{
    let mut v: Vec<String> = Vec::new();
    let n = string_data_offs.len();
    let mut i: usize = 0;
    while i < n
        invariant
            i <= n,
            n == string_data_offs.len(),
            v.len() == i,
            forall|j: int|
                0 <= j < i ==> (spec_string_at(data@, #[trigger] string_data_offs@[j] as int)
                    matches Ok(s) && v@[j]@ == s),
        decreases n - i,
    {
        match parse_one_string(data, string_data_offs[i]) {
            Ok(s) => {
                v.push(s);
            },
            Err(e) => {
                return Err(e);
            },
        }
        i = i + 1;
    }
    Ok(v)
}

} // verus!
