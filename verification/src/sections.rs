//! The remaining simple variable sections: type lists, debug info items, and
//! the hidden-API flag section.

use vstd::prelude::*;

use crate::cursor::{read_u16, read_u32, spec_u16_at, spec_u32_at, Endian};
use crate::err::{derr, DexError, DexErrorKind};
use crate::header::{find_type_in_map, spec_find_type, MapItem};
use crate::tables::ClassDef;
use crate::leb128::{
    read_sleb128,
    read_uleb128,
    read_uleb128p1,
    spec_read_sleb128,
    spec_read_uleb128,
    spec_read_uleb128p1,
};

verus! {

/// A debug info item: the starting line, the parameter name indices (with
/// `-1` for "none"), and the raw state-machine opcode bytes up to the
/// terminating zero.
#[derive(Debug)]
pub struct DebugInfoItem {
    pub line_start: u64,
    pub parameter_names: Vec<i64>,
    pub state_machine_bytes: Vec<u8>,
}

/// The mathematical shape of a `DebugInfoItem`.
pub struct DebugInfoItemV {
    pub line_start: u64,
    pub parameter_names: Seq<i64>,
    pub state_machine_bytes: Seq<u8>,
}

impl View for DebugInfoItem {
    type V = DebugInfoItemV;

    open spec fn view(&self) -> DebugInfoItemV {
        DebugInfoItemV {
            line_start: self.line_start,
            parameter_names: self.parameter_names@,
            state_machine_bytes: self.state_machine_bytes@,
        }
    }
}

/// The hidden-API section: its stored size word, one offset per class
/// definition (relative to the section, zero for none), and at each nonzero
/// offset that class's flag values, one per field and method.
#[derive(Debug)]
pub struct HiddenApiClassData {
    pub size: u32,
    pub offsets: Vec<u32>,
    pub flags: Vec<Vec<u64>>,
}

/// The mathematical shape of a `HiddenApiClassData`.
pub struct HiddenApiClassDataV {
    pub size: u32,
    pub offsets: Seq<u32>,
    pub flags: Seq<Seq<u64>>,
}

impl View for HiddenApiClassData {
    type V = HiddenApiClassDataV;

    open spec fn view(&self) -> HiddenApiClassDataV {
        HiddenApiClassDataV {
            size: self.size,
            offsets: self.offsets@,
            flags: Seq::new(self.flags@.len(), |i: int| self.flags@[i]@),
        }
    }
}

/// The first type index, from index `k` on, that leaves the type id table.
pub open spec fn spec_type_entry_err(
    d: Seq<u8>,
    base: int,
    size: int,
    bound: int,
    e: Endian,
    k: int,
) -> Option<DexError>
    decreases size - k,
{
    if k < 0 || k >= size {
        None
    } else if !(spec_u16_at(d, base + 2 * k, e) < bound) {
        Some(derr(DexErrorKind::BadIndex, base + 2 * k))
    } else {
        spec_type_entry_err(d, base, size, bound, e, k + 1)
    }
}

/// Every entry of the list lies inside the type id table.
pub open spec fn spec_type_list_values_ok(s: Seq<u16>, bound: int) -> bool {
    forall|j: int| 0 <= j < s.len() ==> (#[trigger] s[j]) < bound
}

proof fn lemma_type_entries_ok(d: Seq<u8>, base: int, size: int, bound: int, e: Endian, k: int)
    requires
        0 <= k,
        spec_type_entry_err(d, base, size, bound, e, k) is None,
    ensures
        forall|j: int| k <= j < size ==> #[trigger] spec_u16_at(d, base + 2 * j, e) < bound,
    decreases size - k,
{
    if 0 <= k < size {
        lemma_type_entries_ok(d, base, size, bound, e, k + 1);
    }
}

/// Decodes one type list at `pos`: a count, that many type indices — each
/// refused unless inside the type id table — and two padding bytes after an
/// odd count so the next list starts aligned.
pub open spec fn spec_type_list_at(d: Seq<u8>, pos: int, bound: int, e: Endian) -> Result<
    (Seq<u16>, int),
    DexError,
> {
    if pos < 0 || pos + 4 > d.len() {
        Err(derr(DexErrorKind::Truncated, pos))
    } else {
        let size = spec_u32_at(d, pos, e) as int;
        if pos + 4 + 2 * size > d.len() {
            Err(derr(DexErrorKind::Truncated, pos + 4))
        } else {
            match spec_type_entry_err(d, pos + 4, size, bound, e, 0) {
                Some(err) => Err(err),
                None => {
                    let entries = Seq::new(size as nat, |i: int| spec_u16_at(d, pos + 4 + 2 * i, e));
                    let end0 = pos + 4 + 2 * size;
                    let pad: int = if size % 2 == 1 {
                        2
                    } else {
                        0
                    };
                    if end0 + pad > d.len() {
                        Err(derr(DexErrorKind::Truncated, end0))
                    } else {
                        Ok((entries, end0 + pad))
                    }
                },
            }
        }
    }
}

/// Decodes `count` consecutive type lists.
pub open spec fn spec_type_lists(d: Seq<u8>, pos: int, count: int, bound: int, e: Endian) -> Result<
    (Seq<Seq<u16>>, int),
    DexError,
>
    decreases count,
{
    if count <= 0 {
        Ok((Seq::empty(), pos))
    } else {
        match spec_type_list_at(d, pos, bound, e) {
            Err(e2) => Err(e2),
            Ok((l, p)) => match spec_type_lists(d, p, count - 1, bound, e) {
                Err(e2) => Err(e2),
                Ok((s, end)) => Ok((seq![l] + s, end)),
            },
        }
    }
}

/// Views a vector of type lists element by element.
pub open spec fn spec_type_list_views(s: Seq<Vec<u16>>) -> Seq<Seq<u16>> {
    Seq::new(s.len(), |i: int| s[i]@)
}

fn parse_type_list(data: &[u8], pos: usize, bound: u32, e: Endian) -> (r: Result<
    (Vec<u16>, usize),
    DexError,
>)
    ensures
        match spec_type_list_at(data@, pos as int, bound as int, e) {
            Ok(p) => r matches Ok(q) && q.0@ == p.0 && q.1 == p.1 && spec_type_list_values_ok(
                q.0@,
                bound as int,
            ),
            Err(e2) => r == Err::<(Vec<u16>, usize), DexError>(e2),
        },
{
    let ghost d = data@;
    let (size, p0) = match read_u32(data, pos, e) {
        Ok(p) => p,
        Err(err) => {
            return Err(err);
        },
    };
    proof {
        vstd::arithmetic::div_mod::lemma_fundamental_div_mod((data.len() - p0) as int, 2);
    }
    if (data.len() - p0) as u64 / 2 < size as u64 {
        return Err(DexError::new(DexErrorKind::Truncated, p0));
    }
    let mut v: Vec<u16> = Vec::new();
    let mut i: u32 = 0;
    while i < size
        invariant
            i <= size,
            d == data@,
            p0 == pos + 4,
            p0 + 2 * size <= data.len(),
            v@.len() == i,
            forall|j: int| 0 <= j < i ==> v@[j] == spec_u16_at(d, p0 + 2 * j, e),
        decreases size - i,
    {
        let (u, _) = match read_u16(data, p0 + 2 * i as usize, e) {
            Ok(p) => p,
            Err(err) => {
                return Err(err);
            },
        };
        v.push(u);
        i = i + 1;
    }
    proof {
        assert(v@ =~= Seq::new(size as nat, |j: int| spec_u16_at(d, pos as int + 4 + 2 * j, e)));
    }
    let dlen = data.len();
    proof {
        assert(d.len() == dlen as int);
    }
    let mut k: u32 = 0;
    while k < size
        invariant
            k <= size,
            d == data@,
            d.len() <= usize::MAX,
            p0 == pos + 4,
            size == spec_u32_at(d, pos as int, e),
            p0 + 2 * size <= data.len(),
            v@.len() == size,
            forall|j: int| 0 <= j < size ==> v@[j] == spec_u16_at(d, p0 + 2 * j, e),
            spec_type_entry_err(d, p0 as int, size as int, bound as int, e, 0)
                == spec_type_entry_err(d, p0 as int, size as int, bound as int, e, k as int),
        decreases size - k,
    {
        if !((v[k as usize] as u32) < bound) {
            return Err(DexError::new(DexErrorKind::BadIndex, p0 + 2 * k as usize));
        }
        k = k + 1;
    }
    proof {
        lemma_type_entries_ok(d, p0 as int, size as int, bound as int, e, 0);
    }
    let end0 = p0 + 2 * size as usize;
    if size % 2 == 1 {
        if data.len() - end0 < 2 {
            return Err(DexError::new(DexErrorKind::Truncated, end0));
        }
        Ok((v, end0 + 2))
    } else {
        Ok((v, end0))
    }
}

/// Reads the type list section named by the map, if present; every entry of
/// every list must land inside the type id table.
pub fn parse_type_lists(map_list: &Vec<MapItem>, data: &[u8], bound: u32, e: Endian) -> (r: Result<
    Vec<Vec<u16>>,
    DexError,
>)
    ensures
        ({
            let d = data@;
            match spec_find_type(map_list@, 0x1001) {
                None => r matches Ok(v) && v@.len() == 0,
                Some(item) => match spec_type_lists(
                    d,
                    item.offset as int,
                    item.size as int,
                    bound as int,
                    e,
                ) {
                    Ok(p) => r matches Ok(v) && spec_type_list_views(v@) == p.0,
                    Err(e2) => r == Err::<Vec<Vec<u16>>, DexError>(e2),
                },
            }
        }),
        r matches Ok(v) ==> forall|i: int|
            0 <= i < v@.len() ==> spec_type_list_values_ok((#[trigger] v@[i])@, bound as int),
{
    let ghost d = data@;
    let item = match find_type_in_map(map_list, 0x1001) {
        None => {
            let v: Vec<Vec<u16>> = Vec::new();
            return Ok(v);
        },
        Some(item) => item,
    };
    let count = item.size;
    let mut v: Vec<Vec<u16>> = Vec::new();
    let mut cur: usize = item.offset as usize;
    let mut i: u32 = 0;
    while i < count
        invariant
            i <= count,
            d == data@,
            spec_find_type(map_list@, 0x1001) == Some(item),
            count == item.size,
            v@.len() == i,
            forall|j: int|
                0 <= j < i ==> spec_type_list_values_ok((#[trigger] v@[j])@, bound as int),
            match spec_type_lists(d, item.offset as int, count as int, bound as int, e) {
                Ok(p) => match spec_type_lists(d, cur as int, count - i, bound as int, e) {
                    Ok(q) => p.0 == spec_type_list_views(v@) + q.0 && p.1 == q.1,
                    Err(_) => false,
                },
                Err(e2) => match spec_type_lists(d, cur as int, count - i, bound as int, e) {
                    Ok(_) => false,
                    Err(e3) => e2 == e3,
                },
            },
        decreases count - i,
    {
        match parse_type_list(data, cur, bound, e) {
            Ok((l, p)) => {
                let ghost old_views = spec_type_list_views(v@);
                proof {
                    if let Ok((s2, _)) = spec_type_lists(d, p as int, count - i - 1, bound as int, e) {
                        assert((old_views + seq![l@]) + s2 =~= old_views + (seq![l@] + s2));
                    }
                }
                v.push(l);
                proof {
                    assert(spec_type_list_views(v@) =~= old_views + seq![l@]);
                }
                cur = p;
            },
            Err(e2) => {
                return Err(e2);
            },
        }
        i = i + 1;
    }
    Ok(v)
}

/// Decodes `count` `uleb128p1` values.
pub open spec fn spec_p1_list(d: Seq<u8>, pos: int, count: int) -> Result<(Seq<i64>, int), DexError>
    decreases count,
{
    if count <= 0 {
        Ok((Seq::empty(), pos))
    } else {
        match spec_read_uleb128p1(d, pos) {
            Err(e) => Err(e),
            Ok((x, p)) => match spec_p1_list(d, p as int, count - 1) {
                Err(e) => Err(e),
                Ok((s, end)) => Ok((seq![x] + s, end)),
            },
        }
    }
}

/// The position just past the LEB128 operands of one debug opcode at `pos`.
/// The eight opcodes after the terminator take one to four operands, the one
/// between the two stated ranges takes one, and every higher opcode none.
pub open spec fn spec_debug_operands(d: Seq<u8>, pos: int, op: u8) -> Result<int, DexError> {
    if op == 0x01 || op == 0x05 || op == 0x06 {
        match spec_read_uleb128(d, pos) {
            Err(e) => Err(e),
            Ok((_, p)) => Ok(p as int),
        }
    } else if op == 0x02 {
        match spec_read_sleb128(d, pos) {
            Err(e) => Err(e),
            Ok((_, p)) => Ok(p as int),
        }
    } else if op == 0x03 || op == 0x04 {
        match spec_read_uleb128(d, pos) {
            Err(e) => Err(e),
            Ok((_, p1)) => match spec_read_uleb128p1(d, p1 as int) {
                Err(e) => Err(e),
                Ok((_, p2)) => match spec_read_uleb128p1(d, p2 as int) {
                    Err(e) => Err(e),
                    Ok((_, p3)) => if op == 0x03 {
                        Ok(p3 as int)
                    } else {
                        match spec_read_uleb128p1(d, p3 as int) {
                            Err(e) => Err(e),
                            Ok((_, p4)) => Ok(p4 as int),
                        }
                    },
                },
            },
        }
    } else if op == 0x09 {
        match spec_read_uleb128p1(d, pos) {
            Err(e) => Err(e),
            Ok((_, p)) => Ok(p as int),
        }
    } else {
        Ok(pos)
    }
}

/// Whatever operand run the decoder accepts starts at its own position and
/// stays inside the image.
pub proof fn lemma_debug_operands_bounds(d: Seq<u8>, pos: int, op: u8)
    ensures
        d.len() <= usize::MAX && 0 <= pos <= d.len() ==> (spec_debug_operands(d, pos, op)
            matches Ok(p) ==> pos <= p <= d.len()),
{
    if d.len() <= usize::MAX {
        crate::leb128::lemma_uleb128_bounds(d, pos);
        crate::leb128::lemma_sleb128_bounds(d, pos);
        crate::leb128::lemma_uleb128p1_bounds(d, pos);
        if op == 0x03 || op == 0x04 {
            if let Ok((_, p1)) = spec_read_uleb128(d, pos) {
                crate::leb128::lemma_uleb128p1_bounds(d, p1 as int);
                if let Ok((_, p2)) = spec_read_uleb128p1(d, p1 as int) {
                    crate::leb128::lemma_uleb128p1_bounds(d, p2 as int);
                    if let Ok((_, p3)) = spec_read_uleb128p1(d, p2 as int) {
                        crate::leb128::lemma_uleb128p1_bounds(d, p3 as int);
                    }
                }
            }
        }
    }
}

/// Walks the state-machine program at `pos` and captures its raw bytes —
/// opcodes and their operand bytes, a zero operand byte included — up to but
/// excluding the terminating zero opcode, which is consumed.
pub open spec fn spec_debug_program(d: Seq<u8>, pos: int) -> Result<(Seq<u8>, int), DexError>
    decreases d.len() - pos,
    when d.len() <= usize::MAX
    via spec_debug_program_dec
{
    if pos < 0 || pos >= d.len() {
        Err(derr(DexErrorKind::Truncated, pos))
    } else if d[pos] == 0 {
        Ok((Seq::empty(), pos + 1))
    } else {
        match spec_debug_operands(d, pos + 1, d[pos]) {
            Err(e) => Err(e),
            Ok(opend) => match spec_debug_program(d, opend) {
                Err(e) => Err(e),
                Ok((s, end)) => Ok((d.subrange(pos, opend) + s, end)),
            },
        }
    }
}

#[via_fn]
proof fn spec_debug_program_dec(d: Seq<u8>, pos: int) {
    if 0 <= pos && pos < d.len() && d[pos] != 0 {
        lemma_debug_operands_bounds(d, pos + 1, d[pos]);
    }
}

/// Skips the operands of one debug opcode.
fn debug_operands(data: &[u8], pos: usize, op: u8) -> (r: Result<usize, DexError>)
    ensures
        match spec_debug_operands(data@, pos as int, op) {
            Ok(p) => r matches Ok(q) && q == p,
            Err(e) => r == Err::<usize, DexError>(e),
        },
{
    if op == 0x01 || op == 0x05 || op == 0x06 {
        match read_uleb128(data, pos) {
            Ok((_, p)) => Ok(p),
            Err(e) => Err(e),
        }
    } else if op == 0x02 {
        match read_sleb128(data, pos) {
            Ok((_, p)) => Ok(p),
            Err(e) => Err(e),
        }
    } else if op == 0x03 || op == 0x04 {
        let (_, p1) = match read_uleb128(data, pos) {
            Ok(p) => p,
            Err(e) => {
                return Err(e);
            },
        };
        let (_, p2) = match read_uleb128p1(data, p1) {
            Ok(p) => p,
            Err(e) => {
                return Err(e);
            },
        };
        let (_, p3) = match read_uleb128p1(data, p2) {
            Ok(p) => p,
            Err(e) => {
                return Err(e);
            },
        };
        if op == 0x03 {
            Ok(p3)
        } else {
            match read_uleb128p1(data, p3) {
                Ok((_, p4)) => Ok(p4),
                Err(e) => Err(e),
            }
        }
    } else if op == 0x09 {
        match read_uleb128p1(data, pos) {
            Ok((_, p)) => Ok(p),
            Err(e) => Err(e),
        }
    } else {
        Ok(pos)
    }
}

/// Decodes one debug info item: the starting line, the parameter name
/// indices, then the state-machine program walked opcode by opcode — operand
/// bytes skipped, not mistaken for the terminator — up to the terminating
/// zero opcode.
pub open spec fn spec_debug_info_at(d: Seq<u8>, pos: int) -> Result<(DebugInfoItemV, int), DexError> {
    match spec_read_uleb128(d, pos) {
        Err(e) => Err(e),
        Ok((line_start, p1)) => match spec_read_uleb128(d, p1 as int) {
            Err(e) => Err(e),
            Ok((psize, p2)) => match spec_p1_list(d, p2 as int, psize as int) {
                Err(e) => Err(e),
                Ok((names, p3)) => match spec_debug_program(d, p3) {
                    Err(e) => Err(e),
                    Ok((bytes, end)) => Ok(
                        (
                            DebugInfoItemV {
                                line_start,
                                parameter_names: names,
                                state_machine_bytes: bytes,
                            },
                            end,
                        ),
                    ),
                },
            },
        },
    }
}

/// Decodes `count` consecutive debug info items.
pub open spec fn spec_debug_infos(d: Seq<u8>, pos: int, count: int) -> Result<
    (Seq<DebugInfoItemV>, int),
    DexError,
>
    decreases count,
{
    if count <= 0 {
        Ok((Seq::empty(), pos))
    } else {
        match spec_debug_info_at(d, pos) {
            Err(e) => Err(e),
            Ok((x, p)) => match spec_debug_infos(d, p, count - 1) {
                Err(e) => Err(e),
                Ok((s, end)) => Ok((seq![x] + s, end)),
            },
        }
    }
}

/// Views a vector of debug info items element by element.
pub open spec fn spec_debug_info_views(s: Seq<DebugInfoItem>) -> Seq<DebugInfoItemV> {
    Seq::new(s.len(), |i: int| s[i]@)
}

fn parse_debug_info_item(data: &[u8], pos: usize) -> (r: Result<(DebugInfoItem, usize), DexError>)
    ensures
        match spec_debug_info_at(data@, pos as int) {
            Ok(p) => r matches Ok(q) && q.0@ == p.0 && q.1 == p.1,
            Err(e) => r == Err::<(DebugInfoItem, usize), DexError>(e),
        },
{
    let ghost d = data@;
    let (line_start, p1) = match read_uleb128(data, pos) {
        Ok(p) => p,
        Err(e) => {
            return Err(e);
        },
    };
    let (psize, p2) = match read_uleb128(data, p1) {
        Ok(p) => p,
        Err(e) => {
            return Err(e);
        },
    };
    let dlen = data.len();
    proof {
        assert(d.len() == dlen as int);
    }
    let mut names: Vec<i64> = Vec::new();
    let mut cur: usize = p2;
    let mut i: u64 = 0;
    while i < psize
        invariant
            i <= psize,
            d == data@,
            spec_read_uleb128(d, pos as int) == Ok::<(u64, usize), DexError>((line_start, p1)),
            spec_read_uleb128(d, p1 as int) == Ok::<(u64, usize), DexError>((psize, p2)),
            match spec_p1_list(d, p2 as int, psize as int) {
                Ok(p) => match spec_p1_list(d, cur as int, psize - i) {
                    Ok(q) => p.0 == names@ + q.0 && p.1 == q.1,
                    Err(_) => false,
                },
                Err(e) => match spec_p1_list(d, cur as int, psize - i) {
                    Ok(_) => false,
                    Err(e2) => e == e2,
                },
            },
        decreases psize - i,
    {
        let (x, p) = match read_uleb128p1(data, cur) {
            Ok(p) => p,
            Err(e) => {
                return Err(e);
            },
        };
        proof {
            if let Ok((s2, _)) = spec_p1_list(d, p as int, psize - i - 1) {
                assert((names@ + seq![x]) + s2 =~= names@ + (seq![x] + s2));
            }
        }
        names.push(x);
        cur = p;
        i = i + 1;
    }
    let mut bytes: Vec<u8> = Vec::new();
    let mut bpos: usize = cur;
    loop
        invariant
            d == data@,
            d.len() <= usize::MAX,
            cur <= bpos,
            spec_read_uleb128(d, pos as int) == Ok::<(u64, usize), DexError>((line_start, p1)),
            spec_read_uleb128(d, p1 as int) == Ok::<(u64, usize), DexError>((psize, p2)),
            spec_p1_list(d, p2 as int, psize as int) == Ok::<(Seq<i64>, int), DexError>(
                (names@, cur as int),
            ),
            match spec_debug_program(d, cur as int) {
                Ok(p) => match spec_debug_program(d, bpos as int) {
                    Ok(q) => p.0 == bytes@ + q.0 && p.1 == q.1,
                    Err(_) => false,
                },
                Err(e) => match spec_debug_program(d, bpos as int) {
                    Ok(_) => false,
                    Err(e2) => e == e2,
                },
            },
        decreases d.len() - bpos,
    {
        if bpos >= data.len() {
            return Err(DexError::new(DexErrorKind::Truncated, bpos));
        }
        let b = data[bpos];
        if b == 0 {
            proof {
                assert(bytes@ + Seq::<u8>::empty() =~= bytes@);
            }
            let item = DebugInfoItem { line_start, parameter_names: names, state_machine_bytes: bytes };
            return Ok((item, bpos + 1));
        }
        let opend = match debug_operands(data, bpos + 1, b) {
            Ok(p) => p,
            Err(e) => {
                return Err(e);
            },
        };
        proof {
            lemma_debug_operands_bounds(d, bpos as int + 1, b);
            if let Ok((s2, _)) = spec_debug_program(d, opend as int) {
                assert((bytes@ + d.subrange(bpos as int, opend as int)) + s2 =~= bytes@ + (
                d.subrange(bpos as int, opend as int) + s2));
            }
        }
        let ghost bytes_before = bytes@;
        let mut j: usize = bpos;
        while j < opend
            invariant
                bpos <= j <= opend,
                opend <= data@.len(),
                d == data@,
                bytes@ == bytes_before + d.subrange(bpos as int, j as int),
            decreases opend - j,
        {
            bytes.push(data[j]);
            proof {
                assert(bytes_before + d.subrange(bpos as int, j as int + 1) =~= (bytes_before
                    + d.subrange(bpos as int, j as int)).push(d[j as int]));
            }
            j = j + 1;
        }
        bpos = opend;
    }
}

/// Reads the debug info section named by the map, if present.
pub fn parse_debug_info(map_list: &Vec<MapItem>, data: &[u8]) -> (r: Result<
    Vec<DebugInfoItem>,
    DexError,
>)
    ensures
        ({
            let d = data@;
            match spec_find_type(map_list@, 0x2003) {
                None => r matches Ok(v) && v@.len() == 0,
                Some(item) => match spec_debug_infos(d, item.offset as int, item.size as int) {
                    Ok(p) => r matches Ok(v) && spec_debug_info_views(v@) == p.0,
                    Err(e2) => r == Err::<Vec<DebugInfoItem>, DexError>(e2),
                },
            }
        }),
{
    let ghost d = data@;
    let item = match find_type_in_map(map_list, 0x2003) {
        None => {
            let v: Vec<DebugInfoItem> = Vec::new();
            return Ok(v);
        },
        Some(item) => item,
    };
    let count = item.size;
    let mut v: Vec<DebugInfoItem> = Vec::new();
    let mut cur: usize = item.offset as usize;
    let mut i: u32 = 0;
    while i < count
        invariant
            i <= count,
            d == data@,
            spec_find_type(map_list@, 0x2003) == Some(item),
            count == item.size,
            v@.len() == i,
            match spec_debug_infos(d, item.offset as int, count as int) {
                Ok(p) => match spec_debug_infos(d, cur as int, count - i) {
                    Ok(q) => p.0 == spec_debug_info_views(v@) + q.0 && p.1 == q.1,
                    Err(_) => false,
                },
                Err(e2) => match spec_debug_infos(d, cur as int, count - i) {
                    Ok(_) => false,
                    Err(e3) => e2 == e3,
                },
            },
        decreases count - i,
    {
        match parse_debug_info_item(data, cur) {
            Ok((x, p)) => {
                let ghost old_views = spec_debug_info_views(v@);
                proof {
                    if let Ok((s2, _)) = spec_debug_infos(d, p as int, count - i - 1) {
                        assert((old_views + seq![x@]) + s2 =~= old_views + (seq![x@] + s2));
                    }
                }
                v.push(x);
                proof {
                    assert(spec_debug_info_views(v@) =~= old_views + seq![x@]);
                }
                cur = p;
            },
            Err(e2) => {
                return Err(e2);
            },
        }
        i = i + 1;
    }
    Ok(v)
}

/// Decodes `count` unsigned LEB128 values.
pub open spec fn spec_uleb_list(d: Seq<u8>, pos: int, count: int) -> Result<
    (Seq<u64>, int),
    DexError,
>
    decreases count,
{
    if count <= 0 {
        Ok((Seq::empty(), pos))
    } else {
        match spec_read_uleb128(d, pos) {
            Err(e) => Err(e),
            Ok((x, p)) => match spec_uleb_list(d, p as int, count - 1) {
                Err(e) => Err(e),
                Ok((s, end)) => Ok((seq![x] + s, end)),
            },
        }
    }
}

/// The number of hidden-API flags a class carries: the sum of the four
/// member counts at the head of its class data, or zero for a class without
/// class data.
pub open spec fn spec_member_count(d: Seq<u8>, off: int) -> Result<int, DexError> {
    if off == 0 {
        Ok(0)
    } else {
        match spec_read_uleb128(d, off) {
            Err(e) => Err(e),
            Ok((sf, p1)) => match spec_read_uleb128(d, p1 as int) {
                Err(e) => Err(e),
                Ok((inf, p2)) => match spec_read_uleb128(d, p2 as int) {
                    Err(e) => Err(e),
                    Ok((dm, p3)) => match spec_read_uleb128(d, p3 as int) {
                        Err(e) => Err(e),
                        Ok((vm, _)) => Ok(sf as int + inf as int + dm as int + vm as int),
                    },
                },
            },
        }
    }
}

/// One class's flag run: nothing at a zero offset, else `count` flag values
/// at the section-relative offset.
pub open spec fn spec_hiddenapi_flags_at(
    d: Seq<u8>,
    section: int,
    rel: int,
    count: int,
) -> Result<Seq<u64>, DexError> {
    if rel == 0 {
        Ok(Seq::empty())
    } else {
        match spec_uleb_list(d, section + rel, count) {
            Err(e) => Err(e),
            Ok((s, _)) => Ok(s),
        }
    }
}

/// The flag runs of every class from index `k` on.
pub open spec fn spec_hiddenapi_all(
    d: Seq<u8>,
    section: int,
    offsets: Seq<u32>,
    defs: Seq<ClassDef>,
    k: int,
) -> Result<Seq<Seq<u64>>, DexError>
    decreases defs.len() - k,
{
    if k < 0 || k >= defs.len() || offsets.len() != defs.len() {
        Ok(Seq::empty())
    } else {
        match spec_member_count(d, defs[k].class_data_off as int) {
            Err(e) => Err(e),
            Ok(count) => match spec_hiddenapi_flags_at(d, section, offsets[k] as int, count) {
                Err(e) => Err(e),
                Ok(fl) => match spec_hiddenapi_all(d, section, offsets, defs, k + 1) {
                    Err(e) => Err(e),
                    Ok(s) => Ok(seq![fl] + s),
                },
            },
        }
    }
}

/// Decodes the hidden-API section at `pos`: a stored size word, one offset
/// per class definition, and at each nonzero offset that class's flags, one
/// per field and method of its class data.
pub open spec fn spec_hiddenapi_section(d: Seq<u8>, pos: int, e: Endian, defs: Seq<ClassDef>) -> Result<
    HiddenApiClassDataV,
    DexError,
> {
    if pos < 0 || pos + 4 > d.len() {
        Err(derr(DexErrorKind::Truncated, pos))
    } else {
        let n = defs.len() as int;
        if pos + 4 + 4 * n > d.len() {
            Err(derr(DexErrorKind::Truncated, pos + 4))
        } else {
            let offsets = Seq::new(n as nat, |i: int| spec_u32_at(d, pos + 4 + 4 * i, e));
            match spec_hiddenapi_all(d, pos, offsets, defs, 0) {
                Err(e2) => Err(e2),
                Ok(flags) => Ok(
                    HiddenApiClassDataV { size: spec_u32_at(d, pos, e), offsets, flags },
                ),
            }
        }
    }
}

/// The flag count of one class, from the head of its class data.
fn member_count(data: &[u8], off: u32) -> (r: Result<u128, DexError>)
    ensures
        match spec_member_count(data@, off as int) {
            Ok(c) => r matches Ok(q) && q == c,
            Err(e) => r == Err::<u128, DexError>(e),
        },
{
    if off == 0 {
        return Ok(0);
    }
    let (sf, p1) = match read_uleb128(data, off as usize) {
        Ok(p) => p,
        Err(e) => {
            return Err(e);
        },
    };
    let (inf, p2) = match read_uleb128(data, p1) {
        Ok(p) => p,
        Err(e) => {
            return Err(e);
        },
    };
    let (dm, p3) = match read_uleb128(data, p2) {
        Ok(p) => p,
        Err(e) => {
            return Err(e);
        },
    };
    let (vm, _) = match read_uleb128(data, p3) {
        Ok(p) => p,
        Err(e) => {
            return Err(e);
        },
    };
    Ok(sf as u128 + inf as u128 + dm as u128 + vm as u128)
}

/// One class's flag run at its section-relative offset.
fn parse_hiddenapi_flags(data: &[u8], section: u32, rel: u32, count: u128) -> (r: Result<
    Vec<u64>,
    DexError,
>)
    ensures
        match spec_hiddenapi_flags_at(data@, section as int, rel as int, count as int) {
            Ok(s) => r matches Ok(v) && v@ == s,
            Err(e) => r == Err::<Vec<u64>, DexError>(e),
        },
{
    let ghost d = data@;
    let mut v: Vec<u64> = Vec::new();
    if rel == 0 {
        return Ok(v);
    }
    let pos64: u64 = section as u64 + rel as u64;
    if pos64 >= data.len() as u64 {
        if count == 0 {
            return Ok(v);
        }
        let at: usize = #[verifier::truncate] (pos64 as usize);
        return Err(DexError::new(DexErrorKind::Truncated, at));
    }
    let base = pos64 as usize;
    let mut cur: usize = base;
    let mut i: u128 = 0;
    while i < count
        invariant
            i <= count,
            d == data@,
            rel != 0,
            base == section as int + rel as int,
            match spec_uleb_list(d, base as int, count as int) {
                Ok(p) => match spec_uleb_list(d, cur as int, count - i) {
                    Ok(q) => p.0 == v@ + q.0 && p.1 == q.1,
                    Err(_) => false,
                },
                Err(e2) => match spec_uleb_list(d, cur as int, count - i) {
                    Ok(_) => false,
                    Err(e3) => e2 == e3,
                },
            },
        decreases count - i,
    {
        let (x, p) = match read_uleb128(data, cur) {
            Ok(p) => p,
            Err(e2) => {
                return Err(e2);
            },
        };
        proof {
            if let Ok((s2, _)) = spec_uleb_list(d, p as int, count - i - 1) {
                assert((v@ + seq![x]) + s2 =~= v@ + (seq![x] + s2));
            }
        }
        v.push(x);
        cur = p;
        i = i + 1;
    }
    Ok(v)
}

/// Views the per-class flag vectors element by element.
pub open spec fn spec_flag_views(s: Seq<Vec<u64>>) -> Seq<Seq<u64>> {
    Seq::new(s.len(), |i: int| s[i]@)
}

/// Reads the hidden-API section named by the map, if present: one offset per
/// class definition, and each class's flags at its offset. An image without
/// the section yields the empty list; with it, a single structure.
pub fn parse_hiddenapi_class_data(
    map_list: &Vec<MapItem>,
    data: &[u8],
    e: Endian,
    class_defs: &Vec<ClassDef>,
) -> (r: Result<Vec<HiddenApiClassData>, DexError>)
    ensures
        ({
            let d = data@;
            match spec_find_type(map_list@, 0xf000) {
                None => r matches Ok(v) && v@.len() == 0,
                Some(item) => match spec_hiddenapi_section(d, item.offset as int, e, class_defs@) {
                    Ok(h) => r matches Ok(v) && v@.len() == 1 && v@[0]@ == h,
                    Err(e2) => r == Err::<Vec<HiddenApiClassData>, DexError>(e2),
                },
            }
        }),
{
    let ghost d = data@;
    let ghost defs = class_defs@;
    let item = match find_type_in_map(map_list, 0xf000) {
        None => {
            let v: Vec<HiddenApiClassData> = Vec::new();
            return Ok(v);
        },
        Some(item) => item,
    };
    let pos = item.offset;
    if pos as u64 + 4 > data.len() as u64 {
        return Err(DexError::new(DexErrorKind::Truncated, pos as usize));
    }
    let (size, p0) = match read_u32(data, pos as usize, e) {
        Ok(p) => p,
        Err(err) => {
            return Err(err);
        },
    };
    let n = class_defs.len();
    proof {
        vstd::arithmetic::div_mod::lemma_fundamental_div_mod((data.len() - p0) as int, 4);
    }
    if (data.len() - p0) as u64 / 4 < n as u64 {
        return Err(DexError::new(DexErrorKind::Truncated, p0));
    }
    let mut offsets: Vec<u32> = Vec::new();
    let mut i: usize = 0;
    while i < n
        invariant
            i <= n,
            d == data@,
            n == class_defs@.len(),
            p0 == pos + 4,
            p0 + 4 * n <= data.len(),
            offsets@.len() == i,
            forall|j: int| 0 <= j < i ==> offsets@[j] == spec_u32_at(d, p0 + 4 * j, e),
        decreases n - i,
    {
        let (u, _) = match read_u32(data, p0 + 4 * i, e) {
            Ok(p) => p,
            Err(err) => {
                return Err(err);
            },
        };
        offsets.push(u);
        i = i + 1;
    }
    let ghost offs = Seq::new(n as nat, |j: int| spec_u32_at(d, pos as int + 4 + 4 * j, e));
    proof {
        assert(offsets@ =~= offs);
    }
    let mut flags: Vec<Vec<u64>> = Vec::new();
    let mut k: usize = 0;
    proof {
        assert(spec_flag_views(flags@) =~= Seq::<Seq<u64>>::empty());
    }
    while k < n
        invariant
            k <= n,
            d == data@,
            defs == class_defs@,
            n == class_defs@.len(),
            spec_find_type(map_list@, 0xf000) == Some(item),
            pos == item.offset,
            size == spec_u32_at(d, pos as int, e),
            pos as int + 4 + 4 * n <= d.len(),
            offsets@ == offs,
            offs == Seq::new(n as nat, |j: int| spec_u32_at(d, pos as int + 4 + 4 * j, e)),
            offs.len() == n,
            flags@.len() == k,
            match spec_hiddenapi_all(d, pos as int, offs, defs, 0) {
                Ok(p) => match spec_hiddenapi_all(d, pos as int, offs, defs, k as int) {
                    Ok(q) => p == spec_flag_views(flags@) + q,
                    Err(_) => false,
                },
                Err(e2) => match spec_hiddenapi_all(d, pos as int, offs, defs, k as int) {
                    Ok(_) => false,
                    Err(e3) => e2 == e3,
                },
            },
        decreases n - k,
    {
        let count = match member_count(data, class_defs[k].class_data_off) {
            Ok(c) => c,
            Err(e2) => {
                return Err(e2);
            },
        };
        let fl = match parse_hiddenapi_flags(data, pos, offsets[k], count) {
            Ok(v) => v,
            Err(e2) => {
                return Err(e2);
            },
        };
        let ghost old_views = spec_flag_views(flags@);
        proof {
            if let Ok(s2) = spec_hiddenapi_all(d, pos as int, offs, defs, k as int + 1) {
                assert((old_views + seq![fl@]) + s2 =~= old_views + (seq![fl@] + s2));
            }
        }
        flags.push(fl);
        proof {
            assert(spec_flag_views(flags@) =~= old_views + seq![fl@]);
        }
        k = k + 1;
    }
    let out = HiddenApiClassData { size, offsets, flags };
    proof {
        assert(out@.offsets =~= offs);
        assert(out@.flags =~= spec_flag_views(out.flags@));
        assert(spec_hiddenapi_all(d, pos as int, offs, defs, n as int) == Ok::<
            Seq<Seq<u64>>,
            DexError,
        >(Seq::empty()));
        assert(spec_flag_views(out.flags@) + Seq::<Seq<u64>>::empty() =~= spec_flag_views(
            out.flags@,
        ));
    }
    let mut v: Vec<HiddenApiClassData> = Vec::new();
    v.push(out);
    Ok(v)
}

} // verus!
