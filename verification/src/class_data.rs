//! Per-class field and method lists. Indices are stored as differences from
//! the previous entry of the same list; the parser resolves them to absolute
//! indices and refuses lists that do not strictly increase or that leave the
//! id tables.

use vstd::prelude::*;

use crate::err::{derr, DexError, DexErrorKind};
use crate::header::{find_type_in_map, spec_find_type, DexHeader, MapItem};
use crate::leb128::{read_uleb128, spec_read_uleb128};

verus! {

/// One class's four member lists.
#[derive(Debug)]
pub struct ClassData {
    pub static_fields: Vec<EncodedField>,
    pub instance_fields: Vec<EncodedField>,
    pub direct_methods: Vec<EncodedMethod>,
    pub virtual_methods: Vec<EncodedMethod>,
}

/// A field entry: the stored difference, its access flags, and the resolved
/// absolute index.
#[derive(Clone, Copy, Debug, PartialEq, Eq, Structural)]
pub struct EncodedField {
    pub field_idx_diff: u64,
    pub access_flags: u64,
    pub field_idx: u64,
}

/// A method entry: the stored difference, its access flags, its code offset,
/// and the resolved absolute index.
#[derive(Clone, Copy, Debug, PartialEq, Eq, Structural)]
pub struct EncodedMethod {
    pub method_idx_diff: u64,
    pub access_flags: u64,
    pub code_off: u64,
    pub method_idx: u64,
}

/// The mathematical shape of a `ClassData`.
pub struct ClassDataV {
    pub static_fields: Seq<EncodedField>,
    pub instance_fields: Seq<EncodedField>,
    pub direct_methods: Seq<EncodedMethod>,
    pub virtual_methods: Seq<EncodedMethod>,
}

impl View for ClassData {
    type V = ClassDataV;

    open spec fn view(&self) -> ClassDataV {
        ClassDataV {
            static_fields: self.static_fields@,
            instance_fields: self.instance_fields@,
            direct_methods: self.direct_methods@,
            virtual_methods: self.virtual_methods@,
        }
    }
}

/// Decodes `count` field entries. `prev` is the last resolved index; the
/// first entry of a list takes its difference from zero, every later one
/// must differ by at least one, and every resolved index must stay under
/// `bound`.
pub open spec fn spec_encoded_fields(
    d: Seq<u8>,
    pos: int,
    count: int,
    prev: int,
    first: bool,
    bound: int,
) -> Result<(Seq<EncodedField>, int), DexError>
    decreases count,
{
    if count <= 0 {
        Ok((Seq::empty(), pos))
    } else {
        match spec_read_uleb128(d, pos) {
            Err(e) => Err(e),
            Ok((diff, p1)) => match spec_read_uleb128(d, p1 as int) {
                Err(e) => Err(e),
                Ok((flags, p2)) => {
                    if !first && diff == 0 {
                        Err(derr(DexErrorKind::BadIndex, pos))
                    } else if prev + diff >= bound {
                        Err(derr(DexErrorKind::BadIndex, pos))
                    } else {
                        match spec_encoded_fields(d, p2 as int, count - 1, prev + diff, false, bound) {
                            Err(e) => Err(e),
                            Ok((s, end)) => Ok(
                                (
                                    seq![
                                        EncodedField {
                                            field_idx_diff: diff,
                                            access_flags: flags,
                                            field_idx: (prev + diff) as u64,
                                        },
                                    ] + s,
                                    end,
                                ),
                            ),
                        }
                    }
                },
            },
        }
    }
}

/// Decodes `count` method entries, with the same delta discipline as the
/// field entries and a code offset after the access flags.
pub open spec fn spec_encoded_methods(
    d: Seq<u8>,
    pos: int,
    count: int,
    prev: int,
    first: bool,
    bound: int,
) -> Result<(Seq<EncodedMethod>, int), DexError>
    decreases count,
{
    if count <= 0 {
        Ok((Seq::empty(), pos))
    } else {
        match spec_read_uleb128(d, pos) {
            Err(e) => Err(e),
            Ok((diff, p1)) => match spec_read_uleb128(d, p1 as int) {
                Err(e) => Err(e),
                Ok((flags, p2)) => match spec_read_uleb128(d, p2 as int) {
                    Err(e) => Err(e),
                    Ok((code_off, p3)) => {
                        if !first && diff == 0 {
                            Err(derr(DexErrorKind::BadIndex, pos))
                        } else if prev + diff >= bound {
                            Err(derr(DexErrorKind::BadIndex, pos))
                        } else {
                            match spec_encoded_methods(
                                d,
                                p3 as int,
                                count - 1,
                                prev + diff,
                                false,
                                bound,
                            ) {
                                Err(e) => Err(e),
                                Ok((s, end)) => Ok(
                                    (
                                        seq![
                                            EncodedMethod {
                                                method_idx_diff: diff,
                                                access_flags: flags,
                                                code_off: code_off,
                                                method_idx: (prev + diff) as u64,
                                            },
                                        ] + s,
                                        end,
                                    ),
                                ),
                            }
                        }
                    },
                },
            },
        }
    }
}

/// One `class_data_item`: four counts, then the four member lists in order.
pub open spec fn spec_class_data_at(d: Seq<u8>, pos: int, fbound: int, mbound: int) -> Result<
    (ClassDataV, int),
    DexError,
> {
    match spec_read_uleb128(d, pos) {
        Err(e) => Err(e),
        Ok((sf, p1)) => match spec_read_uleb128(d, p1 as int) {
            Err(e) => Err(e),
            Ok((inf, p2)) => match spec_read_uleb128(d, p2 as int) {
                Err(e) => Err(e),
                Ok((dm, p3)) => match spec_read_uleb128(d, p3 as int) {
                    Err(e) => Err(e),
                    Ok((vm, p4)) => match spec_encoded_fields(d, p4 as int, sf as int, 0, true, fbound) {
                        Err(e) => Err(e),
                        Ok((sfs, p5)) => match spec_encoded_fields(d, p5, inf as int, 0, true, fbound) {
                            Err(e) => Err(e),
                            Ok((infs, p6)) => match spec_encoded_methods(
                                d,
                                p6,
                                dm as int,
                                0,
                                true,
                                mbound,
                            ) {
                                Err(e) => Err(e),
                                Ok((dms, p7)) => match spec_encoded_methods(
                                    d,
                                    p7,
                                    vm as int,
                                    0,
                                    true,
                                    mbound,
                                ) {
                                    Err(e) => Err(e),
                                    Ok((vms, p8)) => Ok(
                                        (
                                            ClassDataV {
                                                static_fields: sfs,
                                                instance_fields: infs,
                                                direct_methods: dms,
                                                virtual_methods: vms,
                                            },
                                            p8,
                                        ),
                                    ),
                                },
                            },
                        },
                    },
                },
            },
        },
    }
}

/// A run of `count` consecutive `class_data_item`s.
pub open spec fn spec_class_data_list(
    d: Seq<u8>,
    pos: int,
    count: int,
    fbound: int,
    mbound: int,
) -> Result<(Seq<ClassDataV>, int), DexError>
    decreases count,
{
    if count <= 0 {
        Ok((Seq::empty(), pos))
    } else {
        match spec_class_data_at(d, pos, fbound, mbound) {
            Err(e) => Err(e),
            Ok((c, p)) => match spec_class_data_list(d, p, count - 1, fbound, mbound) {
                Err(e) => Err(e),
                Ok((s, end)) => Ok((seq![c] + s, end)),
            },
        }
    }
}

/// Resolved field indices strictly increase and stay under the table size.
pub open spec fn spec_fields_ok(s: Seq<EncodedField>, bound: int) -> bool {
    (forall|i: int| 0 <= i < s.len() ==> (#[trigger] s[i].field_idx) < bound) && (forall|i: int|
        0 <= i && i + 1 < s.len() ==> (#[trigger] s[i].field_idx) < s[i + 1].field_idx)
}

/// Resolved method indices strictly increase and stay under the table size.
pub open spec fn spec_methods_ok(s: Seq<EncodedMethod>, bound: int) -> bool {
    (forall|i: int| 0 <= i < s.len() ==> (#[trigger] s[i].method_idx) < bound) && (forall|i: int|
        0 <= i && i + 1 < s.len() ==> (#[trigger] s[i].method_idx) < s[i + 1].method_idx)
}

/// All four lists of a class obey the index discipline.
pub open spec fn spec_class_data_ok(c: ClassDataV, fbound: int, mbound: int) -> bool {
    spec_fields_ok(c.static_fields, fbound) && spec_fields_ok(c.instance_fields, fbound)
        && spec_methods_ok(c.direct_methods, mbound) && spec_methods_ok(c.virtual_methods, mbound)
}

/// Whatever field list the decoder accepts has strictly increasing resolved
/// indices under the bound, starting at or above the incoming context.
pub proof fn lemma_fields_increasing(
    d: Seq<u8>,
    pos: int,
    count: int,
    prev: int,
    first: bool,
    bound: int,
)
    requires
        prev >= 0,
        bound <= 0x1_0000_0000,
    ensures
        spec_encoded_fields(d, pos, count, prev, first, bound) matches Ok(p) ==> spec_fields_ok(
            p.0,
            bound,
        ) && (p.0.len() > 0 ==> p.0[0].field_idx >= prev + (if first {
            0int
        } else {
            1int
        })),
    decreases count,
{
    if count > 0 {
        if let Ok((diff, p1)) = spec_read_uleb128(d, pos) {
            if let Ok((flags, p2)) = spec_read_uleb128(d, p1 as int) {
                if (first || diff != 0) && prev + diff < bound {
                    lemma_fields_increasing(d, p2 as int, count - 1, prev + diff, false, bound);
                    if let Ok((s, end)) = spec_encoded_fields(
                        d,
                        p2 as int,
                        count - 1,
                        prev + diff,
                        false,
                        bound,
                    ) {
                        let h = EncodedField {
                            field_idx_diff: diff,
                            access_flags: flags,
                            field_idx: (prev + diff) as u64,
                        };
                        let whole = seq![h] + s;
                        assert(whole[0] == h);
                        assert(spec_encoded_fields(d, pos, count, prev, first, bound) == Ok::<
                            (Seq<EncodedField>, int),
                            DexError,
                        >((whole, end)));
                        assert forall|i: int| 0 <= i < whole.len() implies (#[trigger] whole[i].field_idx)
                            < bound by {
                            if i > 0 {
                                assert(whole[i] == s[i - 1]);
                            }
                        }
                        assert forall|i: int| 0 <= i && i + 1 < whole.len() implies (
                        #[trigger] whole[i].field_idx) < whole[i + 1].field_idx by {
                            if i == 0 {
                                assert(whole[1] == s[0]);
                                assert(s[0] == spec_encoded_fields(
                                    d,
                                    p2 as int,
                                    count - 1,
                                    prev + diff,
                                    false,
                                    bound,
                                )->Ok_0.0[0]);
                                assert(s[0].field_idx >= prev + diff + 1);
                            } else {
                                assert(whole[i] == s[i - 1] && whole[i + 1] == s[i]);
                            }
                        }
                    }
                }
            }
        }
    }
}

/// The method twin of `lemma_fields_increasing`.
pub proof fn lemma_methods_increasing(
    d: Seq<u8>,
    pos: int,
    count: int,
    prev: int,
    first: bool,
    bound: int,
)
    requires
        prev >= 0,
        bound <= 0x1_0000_0000,
    ensures
        spec_encoded_methods(d, pos, count, prev, first, bound) matches Ok(p) ==> spec_methods_ok(
            p.0,
            bound,
        ) && (p.0.len() > 0 ==> p.0[0].method_idx >= prev + (if first {
            0int
        } else {
            1int
        })),
    decreases count,
{
    if count > 0 {
        if let Ok((diff, p1)) = spec_read_uleb128(d, pos) {
            if let Ok((flags, p2)) = spec_read_uleb128(d, p1 as int) {
                if let Ok((code_off, p3)) = spec_read_uleb128(d, p2 as int) {
                    if (first || diff != 0) && prev + diff < bound {
                        lemma_methods_increasing(d, p3 as int, count - 1, prev + diff, false, bound);
                        if let Ok((s, end)) = spec_encoded_methods(
                            d,
                            p3 as int,
                            count - 1,
                            prev + diff,
                            false,
                            bound,
                        ) {
                            let h = EncodedMethod {
                                method_idx_diff: diff,
                                access_flags: flags,
                                code_off: code_off,
                                method_idx: (prev + diff) as u64,
                            };
                            let whole = seq![h] + s;
                            assert(whole[0] == h);
                            assert(spec_encoded_methods(d, pos, count, prev, first, bound) == Ok::<
                                (Seq<EncodedMethod>, int),
                                DexError,
                            >((whole, end)));
                            assert forall|i: int| 0 <= i < whole.len() implies (
                            #[trigger] whole[i].method_idx) < bound by {
                                if i > 0 {
                                    assert(whole[i] == s[i - 1]);
                                }
                            }
                            assert forall|i: int| 0 <= i && i + 1 < whole.len() implies (
                            #[trigger] whole[i].method_idx) < whole[i + 1].method_idx by {
                                if i == 0 {
                                    assert(whole[1] == s[0]);
                                    assert(s[0] == spec_encoded_methods(
                                        d,
                                        p3 as int,
                                        count - 1,
                                        prev + diff,
                                        false,
                                        bound,
                                    )->Ok_0.0[0]);
                                    assert(s[0].method_idx >= prev + diff + 1);
                                } else {
                                    assert(whole[i] == s[i - 1] && whole[i + 1] == s[i]);
                                }
                            }
                        }
                    }
                }
            }
        }
    }
}

fn parse_encoded_fields(
    data: &[u8],
    pos: usize,
    count: u64,
    bound: u32,
) -> (r: Result<(Vec<EncodedField>, usize), DexError>)
    ensures
        match spec_encoded_fields(data@, pos as int, count as int, 0, true, bound as int) {
            Ok(p) => r matches Ok(q) && q.0@ == p.0 && q.1 == p.1,
            Err(e) => r == Err::<(Vec<EncodedField>, usize), DexError>(e),
        },
{
    let ghost d = data@;
    let mut v: Vec<EncodedField> = Vec::new();
    let mut cur: usize = pos;
    let mut prev: u64 = 0;
    let mut i: u64 = 0;
    while i < count
        invariant
            i <= count,
            d == data@,
            prev <= 0xffff_ffff,
            bound > 0 ==> prev < bound,
            i == 0 ==> prev == 0,
            match spec_encoded_fields(d, pos as int, count as int, 0, true, bound as int) {
                Ok(p) => match spec_encoded_fields(
                    d,
                    cur as int,
                    count - i,
                    prev as int,
                    i == 0,
                    bound as int,
                ) {
                    Ok(q) => p.0 == v@ + q.0 && p.1 == q.1,
                    Err(_) => false,
                },
                Err(e) => match spec_encoded_fields(
                    d,
                    cur as int,
                    count - i,
                    prev as int,
                    i == 0,
                    bound as int,
                ) {
                    Ok(_) => false,
                    Err(e2) => e == e2,
                },
            },
        decreases count - i,
    {
        let (diff, p1) = match read_uleb128(data, cur) {
            Ok(p) => p,
            Err(e) => {
                return Err(e);
            },
        };
        let (flags, p2) = match read_uleb128(data, p1) {
            Ok(p) => p,
            Err(e) => {
                return Err(e);
            },
        };
        if i != 0 && diff == 0 {
            return Err(DexError::new(DexErrorKind::BadIndex, cur));
        }
        if diff > 0xffff_ffff || prev + diff >= bound as u64 {
            return Err(DexError::new(DexErrorKind::BadIndex, cur));
        }
        let abs = prev + diff;
        let f = EncodedField { field_idx_diff: diff, access_flags: flags, field_idx: abs };
        proof {
            if let Ok((s2, _)) = spec_encoded_fields(
                d,
                p2 as int,
                count - i - 1,
                abs as int,
                false,
                bound as int,
            ) {
                assert((v@ + seq![f]) + s2 =~= v@ + (seq![f] + s2));
            }
        }
        v.push(f);
        prev = abs;
        cur = p2;
        i = i + 1;
    }
    Ok((v, cur))
}

fn parse_encoded_methods(
    data: &[u8],
    pos: usize,
    count: u64,
    bound: u32,
) -> (r: Result<(Vec<EncodedMethod>, usize), DexError>)
    ensures
        match spec_encoded_methods(data@, pos as int, count as int, 0, true, bound as int) {
            Ok(p) => r matches Ok(q) && q.0@ == p.0 && q.1 == p.1,
            Err(e) => r == Err::<(Vec<EncodedMethod>, usize), DexError>(e),
        },
{
    let ghost d = data@;
    let mut v: Vec<EncodedMethod> = Vec::new();
    let mut cur: usize = pos;
    let mut prev: u64 = 0;
    let mut i: u64 = 0;
    while i < count
        invariant
            i <= count,
            d == data@,
            prev <= 0xffff_ffff,
            bound > 0 ==> prev < bound,
            i == 0 ==> prev == 0,
            match spec_encoded_methods(d, pos as int, count as int, 0, true, bound as int) {
                Ok(p) => match spec_encoded_methods(
                    d,
                    cur as int,
                    count - i,
                    prev as int,
                    i == 0,
                    bound as int,
                ) {
                    Ok(q) => p.0 == v@ + q.0 && p.1 == q.1,
                    Err(_) => false,
                },
                Err(e) => match spec_encoded_methods(
                    d,
                    cur as int,
                    count - i,
                    prev as int,
                    i == 0,
                    bound as int,
                ) {
                    Ok(_) => false,
                    Err(e2) => e == e2,
                },
            },
        decreases count - i,
    {
        let (diff, p1) = match read_uleb128(data, cur) {
            Ok(p) => p,
            Err(e) => {
                return Err(e);
            },
        };
        let (flags, p2) = match read_uleb128(data, p1) {
            Ok(p) => p,
            Err(e) => {
                return Err(e);
            },
        };
        let (code_off, p3) = match read_uleb128(data, p2) {
            Ok(p) => p,
            Err(e) => {
                return Err(e);
            },
        };
        if i != 0 && diff == 0 {
            return Err(DexError::new(DexErrorKind::BadIndex, cur));
        }
        if diff > 0xffff_ffff || prev + diff >= bound as u64 {
            return Err(DexError::new(DexErrorKind::BadIndex, cur));
        }
        let abs = prev + diff;
        let m = EncodedMethod {
            method_idx_diff: diff,
            access_flags: flags,
            code_off,
            method_idx: abs,
        };
        proof {
            if let Ok((s2, _)) = spec_encoded_methods(
                d,
                p3 as int,
                count - i - 1,
                abs as int,
                false,
                bound as int,
            ) {
                assert((v@ + seq![m]) + s2 =~= v@ + (seq![m] + s2));
            }
        }
        v.push(m);
        prev = abs;
        cur = p3;
        i = i + 1;
    }
    Ok((v, cur))
}

fn parse_class_data_item(data: &[u8], pos: usize, fbound: u32, mbound: u32) -> (r: Result<
    (ClassData, usize),
    DexError,
>)
    ensures
        match spec_class_data_at(data@, pos as int, fbound as int, mbound as int) {
            Ok(p) => r matches Ok(q) && q.0@ == p.0 && q.1 == p.1,
            Err(e) => r == Err::<(ClassData, usize), DexError>(e),
        },
{
    let (sf, p1) = match read_uleb128(data, pos) {
        Ok(p) => p,
        Err(e) => {
            return Err(e);
        },
    };
    let (inf, p2) = match read_uleb128(data, p1) {
        Ok(p) => p,
        Err(e) => {
            return Err(e);
        },
    };
    let (dm, p3) = match read_uleb128(data, p2) {
        Ok(p) => p,
        Err(e) => {
            return Err(e);
        },
    };
    let (vm, p4) = match read_uleb128(data, p3) {
        Ok(p) => p,
        Err(e) => {
            return Err(e);
        },
    };
    let (static_fields, p5) = match parse_encoded_fields(data, p4, sf, fbound) {
        Ok(p) => p,
        Err(e) => {
            return Err(e);
        },
    };
    let (instance_fields, p6) = match parse_encoded_fields(data, p5, inf, fbound) {
        Ok(p) => p,
        Err(e) => {
            return Err(e);
        },
    };
    let (direct_methods, p7) = match parse_encoded_methods(data, p6, dm, mbound) {
        Ok(p) => p,
        Err(e) => {
            return Err(e);
        },
    };
    let (virtual_methods, p8) = match parse_encoded_methods(data, p7, vm, mbound) {
        Ok(p) => p,
        Err(e) => {
            return Err(e);
        },
    };
    Ok((ClassData { static_fields, instance_fields, direct_methods, virtual_methods }, p8))
}

/// Views a parsed class list element by element.
pub open spec fn spec_class_data_views(s: Seq<ClassData>) -> Seq<ClassDataV> {
    Seq::new(s.len(), |i: int| s[i]@)
}

/// Reads the class data section named by the map, if present: each item is
/// four counts and four member lists with delta-encoded indices, which the
/// parser resolves and validates against the field and method tables. Every
/// accepted class satisfies `spec_class_data_ok`.
#[verifier::rlimit(50)]
pub fn parse_class_data(map_list: &Vec<MapItem>, data: &[u8], dex_header: &DexHeader) -> (r: Result<
    Vec<ClassData>,
    DexError,
>)
    ensures
        ({
            let d = data@;
            let fbound = dex_header.field_ids_size as int;
            let mbound = dex_header.method_ids_size as int;
            match spec_find_type(map_list@, 0x2000) {
                None => r matches Ok(v) && v@.len() == 0,
                Some(item) => match spec_class_data_list(
                    d,
                    item.offset as int,
                    item.size as int,
                    fbound,
                    mbound,
                ) {
                    Ok(p) => r matches Ok(v) && spec_class_data_views(v@) == p.0,
                    Err(e) => r == Err::<Vec<ClassData>, DexError>(e),
                },
            }
        }),
        r matches Ok(v) ==> forall|k: int|
            0 <= k < v@.len() ==> spec_class_data_ok(
                #[trigger] v@[k]@,
                dex_header.field_ids_size as int,
                dex_header.method_ids_size as int,
            ),
{
    let ghost d = data@;
    let ghost fb = dex_header.field_ids_size as int;
    let ghost mb = dex_header.method_ids_size as int;
    let item = match find_type_in_map(map_list, 0x2000) {
        None => {
            let v: Vec<ClassData> = Vec::new();
            return Ok(v);
        },
        Some(item) => item,
    };
    let count = item.size;
    let mut v: Vec<ClassData> = Vec::new();
    let mut cur: usize = item.offset as usize;
    let mut i: u32 = 0;
    while i < count
        invariant
            i <= count,
            d == data@,
            spec_find_type(map_list@, 0x2000) == Some(item),
            count == item.size,
            fb == dex_header.field_ids_size as int,
            mb == dex_header.method_ids_size as int,
            v@.len() == i,
            forall|k: int| 0 <= k < i ==> spec_class_data_ok(#[trigger] v@[k]@, fb, mb),
            match spec_class_data_list(d, item.offset as int, count as int, fb, mb) {
                Ok(p) => match spec_class_data_list(d, cur as int, count - i, fb, mb) {
                    Ok(q) => p.0 == spec_class_data_views(v@) + q.0 && p.1 == q.1,
                    Err(_) => false,
                },
                Err(e) => match spec_class_data_list(d, cur as int, count - i, fb, mb) {
                    Ok(_) => false,
                    Err(e2) => e == e2,
                },
            },
        decreases count - i,
    {
        match parse_class_data_item(data, cur, dex_header.field_ids_size, dex_header.method_ids_size) {
            Ok((c, p)) => {
                let ghost old_views = spec_class_data_views(v@);
                proof {
                    lemma_class_data_item_ok(d, cur as int, fb, mb);
                    if let Ok((s2, _)) = spec_class_data_list(d, p as int, count - i - 1, fb, mb) {
                        assert((old_views + seq![c@]) + s2 =~= old_views + (seq![c@] + s2));
                    }
                }
                v.push(c);
                proof {
                    assert(spec_class_data_views(v@) =~= old_views + seq![c@]);
                }
                cur = p;
            },
            Err(e) => {
                return Err(e);
            },
        }
        i = i + 1;
    }
    Ok(v)
}

/// Whatever class item the decoder accepts satisfies the index discipline.
#[verifier::rlimit(100)]
proof fn lemma_class_data_item_ok(d: Seq<u8>, pos: int, fbound: int, mbound: int)
    requires
        0 <= fbound <= 0x1_0000_0000,
        0 <= mbound <= 0x1_0000_0000,
    ensures
        spec_class_data_at(d, pos, fbound, mbound) matches Ok(p) ==> spec_class_data_ok(
            p.0,
            fbound,
            mbound,
        ),
{
    if let Ok((sf, p1)) = spec_read_uleb128(d, pos) {
        if let Ok((inf, p2)) = spec_read_uleb128(d, p1 as int) {
            if let Ok((dm, p3)) = spec_read_uleb128(d, p2 as int) {
                if let Ok((vm, p4)) = spec_read_uleb128(d, p3 as int) {
                    lemma_fields_increasing(d, p4 as int, sf as int, 0, true, fbound);
                    if let Ok((sfs, p5)) = spec_encoded_fields(d, p4 as int, sf as int, 0, true, fbound) {
                        lemma_fields_increasing(d, p5, inf as int, 0, true, fbound);
                        if let Ok((infs, p6)) = spec_encoded_fields(d, p5, inf as int, 0, true, fbound) {
                            lemma_methods_increasing(d, p6, dm as int, 0, true, mbound);
                            if let Ok((dms, p7)) = spec_encoded_methods(d, p6, dm as int, 0, true, mbound) {
                                lemma_methods_increasing(d, p7, vm as int, 0, true, mbound);
                            }
                        }
                    }
                }
            }
        }
    }
}

} // verus!
