//! Method bodies: a fixed prologue, the instruction code units, the try
//! ranges with their catch handlers, and four-byte alignment between
//! successive items.

use vstd::prelude::*;

use crate::cursor::{read_u16, read_u32, spec_u16_at, spec_u32_at, Endian};
use crate::err::{derr, DexError, DexErrorKind};
use crate::header::{find_type_in_map, spec_find_type, MapItem};
use crate::leb128::{read_sleb128, read_uleb128, spec_read_sleb128, spec_read_uleb128};

verus! {

/// One method body.
#[derive(Debug)]
pub struct CodeItem {
    pub registers_size: u16,
    pub ins_size: u16,
    pub outs_size: u16,
    pub debug_info_off: u32,
    pub insns: Vec<u16>,
    pub tries: Vec<TryItem>,
    pub handlers: Vec<EncodedCatchHandler>,
}

/// One guarded range of code units.
#[derive(Clone, Copy, Debug, PartialEq, Eq, Structural)]
pub struct TryItem {
    pub start_addr: u32,
    pub insn_count: u16,
    pub handler_off: u16,
}

/// One catch handler: typed catches, and a catch-all address when the stored
/// size is not positive.
#[derive(Debug)]
pub struct EncodedCatchHandler {
    pub handlers: Vec<EncodedTypeAddrPair>,
    pub catch_all_addr: Option<u64>,
}

/// One typed catch: the exception type and the handler address.
#[derive(Clone, Copy, Debug, PartialEq, Eq, Structural)]
pub struct EncodedTypeAddrPair {
    pub type_idx: u64,
    pub addr: u64,
}

/// The mathematical shape of an `EncodedCatchHandler`.
pub struct EncodedCatchHandlerV {
    pub handlers: Seq<EncodedTypeAddrPair>,
    pub catch_all_addr: Option<u64>,
}

impl View for EncodedCatchHandler {
    type V = EncodedCatchHandlerV;

    open spec fn view(&self) -> EncodedCatchHandlerV {
        EncodedCatchHandlerV { handlers: self.handlers@, catch_all_addr: self.catch_all_addr }
    }
}

/// The mathematical shape of a `CodeItem`.
pub struct CodeItemV {
    pub registers_size: u16,
    pub ins_size: u16,
    pub outs_size: u16,
    pub debug_info_off: u32,
    pub insns: Seq<u16>,
    pub tries: Seq<TryItem>,
    pub handlers: Seq<EncodedCatchHandlerV>,
}

impl View for CodeItem {
    type V = CodeItemV;

    open spec fn view(&self) -> CodeItemV {
        CodeItemV {
            registers_size: self.registers_size,
            ins_size: self.ins_size,
            outs_size: self.outs_size,
            debug_info_off: self.debug_info_off,
            insns: self.insns@,
            tries: self.tries@,
            handlers: Seq::new(self.handlers@.len(), |i: int| self.handlers@[i]@),
        }
    }
}

/// The try record starting at `p`.
pub open spec fn spec_try_at(d: Seq<u8>, p: int, e: Endian) -> TryItem {
    TryItem {
        start_addr: spec_u32_at(d, p, e),
        insn_count: spec_u16_at(d, p + 4, e),
        handler_off: spec_u16_at(d, p + 6, e),
    }
}

/// Every try stays inside the instruction stream.
pub open spec fn spec_tries_ok(s: Seq<TryItem>, insns_size: int) -> bool {
    forall|i: int|
        0 <= i < s.len() ==> (#[trigger] s[i]).start_addr + s[i].insn_count <= insns_size
}

/// Decodes `count` type/address pairs.
pub open spec fn spec_ta_pairs(d: Seq<u8>, pos: int, count: int) -> Result<
    (Seq<EncodedTypeAddrPair>, int),
    DexError,
>
    decreases count,
{
    if count <= 0 {
        Ok((Seq::empty(), pos))
    } else {
        match spec_read_uleb128(d, pos) {
            Err(e) => Err(e),
            Ok((type_idx, p1)) => match spec_read_uleb128(d, p1 as int) {
                Err(e) => Err(e),
                Ok((addr, p2)) => match spec_ta_pairs(d, p2 as int, count - 1) {
                    Err(e) => Err(e),
                    Ok((s, end)) => Ok((seq![EncodedTypeAddrPair { type_idx, addr }] + s, end)),
                },
            },
        }
    }
}

/// Decodes one catch handler: a signed size, `|size|` typed catches, and a
/// catch-all address iff the size is not positive.
pub open spec fn spec_catch_handler(d: Seq<u8>, pos: int) -> Result<
    (EncodedCatchHandlerV, int),
    DexError,
> {
    match spec_read_sleb128(d, pos) {
        Err(e) => Err(e),
        Ok((size, p1)) => {
            let abs = if size >= 0 {
                size as int
            } else {
                -(size as int)
            };
            match spec_ta_pairs(d, p1 as int, abs) {
                Err(e) => Err(e),
                Ok((pairs, p2)) => if size > 0 {
                    Ok((EncodedCatchHandlerV { handlers: pairs, catch_all_addr: None }, p2))
                } else {
                    match spec_read_uleb128(d, p2) {
                        Err(e) => Err(e),
                        Ok((ca, p3)) => Ok(
                            (
                                EncodedCatchHandlerV { handlers: pairs, catch_all_addr: Some(ca) },
                                p3 as int,
                            ),
                        ),
                    }
                },
            }
        },
    }
}

/// Decodes `count` catch handlers.
pub open spec fn spec_catch_handlers(d: Seq<u8>, pos: int, count: int) -> Result<
    (Seq<EncodedCatchHandlerV>, int),
    DexError,
>
    decreases count,
{
    if count <= 0 {
        Ok((Seq::empty(), pos))
    } else {
        match spec_catch_handler(d, pos) {
            Err(e) => Err(e),
            Ok((h, p)) => match spec_catch_handlers(d, p, count - 1) {
                Err(e) => Err(e),
                Ok((s, end)) => Ok((seq![h] + s, end)),
            },
        }
    }
}

/// Decodes one `code_item` at `pos`: prologue, code units, padding when the
/// try records follow an odd number of units, the try records — each checked
/// against the instruction count — and the catch handler list.
pub open spec fn spec_code_item_at(d: Seq<u8>, pos: int, e: Endian) -> Result<
    (CodeItemV, int),
    DexError,
> {
    if pos < 0 || pos + 16 > d.len() {
        Err(derr(DexErrorKind::Truncated, pos))
    } else {
        let registers_size = spec_u16_at(d, pos, e);
        let ins_size = spec_u16_at(d, pos + 2, e);
        let outs_size = spec_u16_at(d, pos + 4, e);
        let tries_size = spec_u16_at(d, pos + 6, e) as int;
        let debug_info_off = spec_u32_at(d, pos + 8, e);
        let insns_size = spec_u32_at(d, pos + 12, e) as int;
        let p_insns = pos + 16;
        if p_insns + 2 * insns_size > d.len() {
            Err(derr(DexErrorKind::Truncated, p_insns))
        } else {
            let insns = Seq::new(insns_size as nat, |i: int| spec_u16_at(d, p_insns + 2 * i, e));
            let p_pad = p_insns + 2 * insns_size;
            let p_tries = if tries_size != 0 && insns_size % 2 == 1 {
                p_pad + 2
            } else {
                p_pad
            };
            if p_tries + 8 * tries_size > d.len() {
                Err(derr(DexErrorKind::Truncated, p_pad))
            } else {
                let tries = Seq::new(tries_size as nat, |i: int| spec_try_at(d, p_tries + 8 * i, e));
                if !spec_tries_ok(tries, insns_size) {
                    Err(derr(DexErrorKind::SectionOverflow, p_tries))
                } else {
                    let p_handlers = p_tries + 8 * tries_size;
                    if tries_size == 0 {
                        Ok(
                            (
                                CodeItemV {
                                    registers_size,
                                    ins_size,
                                    outs_size,
                                    debug_info_off,
                                    insns,
                                    tries,
                                    handlers: Seq::empty(),
                                },
                                p_handlers,
                            ),
                        )
                    } else {
                        match spec_read_uleb128(d, p_handlers) {
                            Err(e2) => Err(e2),
                            Ok((hcount, p1)) => match spec_catch_handlers(
                                d,
                                p1 as int,
                                hcount as int,
                            ) {
                                Err(e2) => Err(e2),
                                Ok((hs, end)) => Ok(
                                    (
                                        CodeItemV {
                                            registers_size,
                                            ins_size,
                                            outs_size,
                                            debug_info_off,
                                            insns,
                                            tries,
                                            handlers: hs,
                                        },
                                        end,
                                    ),
                                ),
                            },
                        }
                    }
                }
            }
        }
    }
}

/// Decodes `count` code items, re-aligning to four bytes after each one by
/// measuring the bytes consumed since the instruction stream began.
pub open spec fn spec_code_items(d: Seq<u8>, pos: int, count: int, e: Endian) -> Result<
    (Seq<CodeItemV>, int),
    DexError,
>
    decreases count,
{
    if count <= 0 {
        Ok((Seq::empty(), pos))
    } else {
        match spec_code_item_at(d, pos, e) {
            Err(e2) => Err(e2),
            Ok((c, p)) => {
                let consumed = p - (pos + 16);
                let pad = if consumed % 4 != 0 {
                    4 - consumed % 4
                } else {
                    0
                };
                if p + pad > d.len() {
                    Err(derr(DexErrorKind::Truncated, p))
                } else {
                    match spec_code_items(d, p + pad, count - 1, e) {
                        Err(e2) => Err(e2),
                        Ok((s, end)) => Ok((seq![c] + s, end)),
                    }
                }
            },
        }
    }
}

fn parse_ta_pairs(data: &[u8], pos: usize, count: u64) -> (r: Result<
    (Vec<EncodedTypeAddrPair>, usize),
    DexError,
>)
    ensures
        match spec_ta_pairs(data@, pos as int, count as int) {
            Ok(p) => r matches Ok(q) && q.0@ == p.0 && q.1 == p.1,
            Err(e) => r == Err::<(Vec<EncodedTypeAddrPair>, usize), DexError>(e),
        },
{
    let ghost d = data@;
    let mut v: Vec<EncodedTypeAddrPair> = Vec::new();
    let mut cur: usize = pos;
    let mut i: u64 = 0;
    while i < count
        invariant
            i <= count,
            d == data@,
            match spec_ta_pairs(d, pos as int, count as int) {
                Ok(p) => match spec_ta_pairs(d, cur as int, count - i) {
                    Ok(q) => p.0 == v@ + q.0 && p.1 == q.1,
                    Err(_) => false,
                },
                Err(e) => match spec_ta_pairs(d, cur as int, count - i) {
                    Ok(_) => false,
                    Err(e2) => e == e2,
                },
            },
        decreases count - i,
    {
        let (type_idx, p1) = match read_uleb128(data, cur) {
            Ok(p) => p,
            Err(e) => {
                return Err(e);
            },
        };
        let (addr, p2) = match read_uleb128(data, p1) {
            Ok(p) => p,
            Err(e) => {
                return Err(e);
            },
        };
        let pair = EncodedTypeAddrPair { type_idx, addr };
        proof {
            if let Ok((s2, _)) = spec_ta_pairs(d, p2 as int, count - i - 1) {
                assert((v@ + seq![pair]) + s2 =~= v@ + (seq![pair] + s2));
            }
        }
        v.push(pair);
        cur = p2;
        i = i + 1;
    }
    Ok((v, cur))
}

fn parse_catch_handler(data: &[u8], pos: usize) -> (r: Result<(EncodedCatchHandler, usize), DexError>)
    ensures
        match spec_catch_handler(data@, pos as int) {
            Ok(p) => r matches Ok(q) && q.0@ == p.0 && q.1 == p.1,
            Err(e) => r == Err::<(EncodedCatchHandler, usize), DexError>(e),
        },
{
    let (size, p1) = match read_sleb128(data, pos) {
        Ok(p) => p,
        Err(e) => {
            return Err(e);
        },
    };
    let abs: u64 = if size >= 0 {
        size as u64
    } else {
        (-(size + 1)) as u64 + 1
    };
    let (pairs, p2) = match parse_ta_pairs(data, p1, abs) {
        Ok(p) => p,
        Err(e) => {
            return Err(e);
        },
    };
    if size > 0 {
        Ok((EncodedCatchHandler { handlers: pairs, catch_all_addr: None }, p2))
    } else {
        let (ca, p3) = match read_uleb128(data, p2) {
            Ok(p) => p,
            Err(e) => {
                return Err(e);
            },
        };
        Ok((EncodedCatchHandler { handlers: pairs, catch_all_addr: Some(ca) }, p3))
    }
}

/// Views a handler vector element by element.
pub open spec fn spec_handler_views(s: Seq<EncodedCatchHandler>) -> Seq<EncodedCatchHandlerV> {
    Seq::new(s.len(), |i: int| s[i]@)
}

fn parse_catch_handlers(data: &[u8], pos: usize, count: u64) -> (r: Result<
    (Vec<EncodedCatchHandler>, usize),
    DexError,
>)
    ensures
        match spec_catch_handlers(data@, pos as int, count as int) {
            Ok(p) => r matches Ok(q) && spec_handler_views(q.0@) == p.0 && q.1 == p.1,
            Err(e) => r == Err::<(Vec<EncodedCatchHandler>, usize), DexError>(e),
        },
{
    let ghost d = data@;
    let mut v: Vec<EncodedCatchHandler> = Vec::new();
    let mut cur: usize = pos;
    let mut i: u64 = 0;
    proof {
        assert(spec_handler_views(v@) =~= Seq::<EncodedCatchHandlerV>::empty());
    }
    while i < count
        invariant
            i <= count,
            d == data@,
            match spec_catch_handlers(d, pos as int, count as int) {
                Ok(p) => match spec_catch_handlers(d, cur as int, count - i) {
                    Ok(q) => p.0 == spec_handler_views(v@) + q.0 && p.1 == q.1,
                    Err(_) => false,
                },
                Err(e) => match spec_catch_handlers(d, cur as int, count - i) {
                    Ok(_) => false,
                    Err(e2) => e == e2,
                },
            },
        decreases count - i,
    {
        match parse_catch_handler(data, cur) {
            Ok((h, p)) => {
                let ghost old_views = spec_handler_views(v@);
                proof {
                    if let Ok((s2, _)) = spec_catch_handlers(d, p as int, count - i - 1) {
                        assert((old_views + seq![h@]) + s2 =~= old_views + (seq![h@] + s2));
                    }
                }
                v.push(h);
                proof {
                    assert(spec_handler_views(v@) =~= old_views + seq![h@]);
                }
                cur = p;
            },
            Err(e) => {
                return Err(e);
            },
        }
        i = i + 1;
    }
    Ok((v, cur))
}

fn parse_code_item(data: &[u8], pos: usize, e: Endian) -> (r: Result<(CodeItem, usize), DexError>)
    ensures
        match spec_code_item_at(data@, pos as int, e) {
            Ok(p) => r matches Ok(q) && q.0@ == p.0 && q.1 == p.1,
            Err(e2) => r == Err::<(CodeItem, usize), DexError>(e2),
        },
{
    let ghost d = data@;
    if pos > data.len() || data.len() - pos < 16 {
        return Err(DexError::new(DexErrorKind::Truncated, pos));
    }
    let (registers_size, _) = match read_u16(data, pos, e) {
        Ok(p) => p,
        Err(err) => {
            return Err(err);
        },
    };
    let (ins_size, _) = match read_u16(data, pos + 2, e) {
        Ok(p) => p,
        Err(err) => {
            return Err(err);
        },
    };
    let (outs_size, _) = match read_u16(data, pos + 4, e) {
        Ok(p) => p,
        Err(err) => {
            return Err(err);
        },
    };
    let (tries_size, _) = match read_u16(data, pos + 6, e) {
        Ok(p) => p,
        Err(err) => {
            return Err(err);
        },
    };
    let (debug_info_off, _) = match read_u32(data, pos + 8, e) {
        Ok(p) => p,
        Err(err) => {
            return Err(err);
        },
    };
    let (insns_size, _) = match read_u32(data, pos + 12, e) {
        Ok(p) => p,
        Err(err) => {
            return Err(err);
        },
    };
    let p_insns = pos + 16;
    proof {
        vstd::arithmetic::div_mod::lemma_fundamental_div_mod((data.len() - p_insns) as int, 2);
    }
    if (data.len() - p_insns) as u64 / 2 < insns_size as u64 {
        return Err(DexError::new(DexErrorKind::Truncated, p_insns));
    }
    let mut insns: Vec<u16> = Vec::new();
    let mut i: u32 = 0;
    while i < insns_size
        invariant
            i <= insns_size,
            d == data@,
            p_insns + 2 * insns_size <= data.len(),
            insns@.len() == i,
            forall|j: int|
                0 <= j < i ==> insns@[j] == spec_u16_at(d, p_insns + 2 * j, e),
        decreases insns_size - i,
    {
        let (u, _) = match read_u16(data, p_insns + 2 * i as usize, e) {
            Ok(p) => p,
            Err(err) => {
                return Err(err);
            },
        };
        insns.push(u);
        i = i + 1;
    }
    proof {
        assert(insns@ =~= Seq::new(insns_size as nat, |j: int| spec_u16_at(d, p_insns + 2 * j, e)));
    }
    let p_pad = p_insns + 2 * insns_size as usize;
    let pad2: u64 = if tries_size != 0 && insns_size % 2 == 1 {
        2
    } else {
        0
    };
    let avail: u64 = data.len() as u64 - p_pad as u64;
    if pad2 + 8 * tries_size as u64 > avail {
        return Err(DexError::new(DexErrorKind::Truncated, p_pad));
    }
    let p_tries = p_pad + pad2 as usize;
    let mut tries: Vec<TryItem> = Vec::new();
    let mut k: u16 = 0;
    while k < tries_size
        invariant
            k <= tries_size,
            d == data@,
            p_tries + 8 * tries_size <= data.len(),
            tries@.len() == k,
            forall|j: int| 0 <= j < k ==> tries@[j] == spec_try_at(d, p_tries + 8 * j, e),
        decreases tries_size - k,
    {
        let base = p_tries + 8 * k as usize;
        let (start_addr, _) = match read_u32(data, base, e) {
            Ok(p) => p,
            Err(err) => {
                return Err(err);
            },
        };
        let (insn_count, _) = match read_u16(data, base + 4, e) {
            Ok(p) => p,
            Err(err) => {
                return Err(err);
            },
        };
        let (handler_off, _) = match read_u16(data, base + 6, e) {
            Ok(p) => p,
            Err(err) => {
                return Err(err);
            },
        };
        tries.push(TryItem { start_addr, insn_count, handler_off });
        k = k + 1;
    }
    proof {
        assert(tries@ =~= Seq::new(tries_size as nat, |j: int| spec_try_at(d, p_tries + 8 * j, e)));
    }
    let mut t: usize = 0;
    while t < tries.len()
        invariant
            t <= tries@.len(),
            d == data@,
            0 <= pos && pos + 16 <= d.len(),
            registers_size == spec_u16_at(d, pos as int, e),
            ins_size == spec_u16_at(d, pos as int + 2, e),
            outs_size == spec_u16_at(d, pos as int + 4, e),
            tries_size == spec_u16_at(d, pos as int + 6, e),
            debug_info_off == spec_u32_at(d, pos as int + 8, e),
            insns_size == spec_u32_at(d, pos as int + 12, e),
            p_insns == pos + 16,
            p_insns + 2 * (insns_size as int) <= d.len(),
            p_pad == p_insns + 2 * (insns_size as int),
            p_tries as int == p_pad + (if tries_size != 0 && insns_size % 2 == 1 {
                2int
            } else {
                0int
            }),
            p_tries + 8 * (tries_size as int) <= d.len(),
            tries@ == Seq::new(tries_size as nat, |j: int| spec_try_at(d, p_tries + 8 * j, e)),
            forall|j: int|
                0 <= j < t ==> (#[trigger] tries@[j]).start_addr + tries@[j].insn_count
                    <= insns_size,
        decreases tries@.len() - t,
    {
        let tr = tries[t];
        if tr.start_addr as u64 + tr.insn_count as u64 > insns_size as u64 {
            proof {
                let ts = Seq::new(
                    tries_size as nat,
                    |j: int| spec_try_at(d, p_tries + 8 * j, e),
                );
                assert(ts[t as int] == tries@[t as int]);
                assert(!(ts[t as int].start_addr + ts[t as int].insn_count <= insns_size as int));
                assert(!spec_tries_ok(ts, insns_size as int));
            }
            return Err(DexError::new(DexErrorKind::SectionOverflow, p_tries));
        }
        t = t + 1;
    }
    let p_handlers = p_tries + 8 * tries_size as usize;
    if tries_size == 0 {
        let item = CodeItem {
            registers_size,
            ins_size,
            outs_size,
            debug_info_off,
            insns,
            tries,
            handlers: Vec::new(),
        };
        proof {
            assert(item@.handlers =~= Seq::<EncodedCatchHandlerV>::empty());
        }
        return Ok((item, p_handlers));
    }
    let (hcount, p1) = match read_uleb128(data, p_handlers) {
        Ok(p) => p,
        Err(err) => {
            return Err(err);
        },
    };
    let (handlers, end) = match parse_catch_handlers(data, p1, hcount) {
        Ok(p) => p,
        Err(err) => {
            return Err(err);
        },
    };
    let item = CodeItem {
        registers_size,
        ins_size,
        outs_size,
        debug_info_off,
        insns,
        tries,
        handlers,
    };
    proof {
        assert(item@.handlers =~= spec_handler_views(item.handlers@));
    }
    Ok((item, end))
}

/// Views a parsed code item vector element by element.
pub open spec fn spec_code_item_views(s: Seq<CodeItem>) -> Seq<CodeItemV> {
    Seq::new(s.len(), |i: int| s[i]@)
}

/// Reads the code section named by the map, if present. Every accepted item
/// keeps each of its tries inside its instruction stream.
#[verifier::rlimit(50)]
pub fn parse_code_items(map_list: &Vec<MapItem>, data: &[u8], e: Endian) -> (r: Result<
    Vec<CodeItem>,
    DexError,
>)
    ensures
        ({
            let d = data@;
            match spec_find_type(map_list@, 0x2001) {
                None => r matches Ok(v) && v@.len() == 0,
                Some(item) => match spec_code_items(d, item.offset as int, item.size as int, e) {
                    Ok(p) => r matches Ok(v) && spec_code_item_views(v@) == p.0,
                    Err(e2) => r == Err::<Vec<CodeItem>, DexError>(e2),
                },
            }
        }),
        r matches Ok(v) ==> forall|k: int|
            0 <= k < v@.len() ==> spec_tries_ok((#[trigger] v@[k]@).tries, v@[k]@.insns.len() as int),
{
    let ghost d = data@;
    proof {
        assert(d.len() == data.len());
    }
    let item = match find_type_in_map(map_list, 0x2001) {
        None => {
            let v: Vec<CodeItem> = Vec::new();
            return Ok(v);
        },
        Some(item) => item,
    };
    let count = item.size;
    let mut v: Vec<CodeItem> = Vec::new();
    let mut cur: usize = item.offset as usize;
    let mut i: u32 = 0;
    while i < count
        invariant
            i <= count,
            d == data@,
            d.len() <= usize::MAX,
            spec_find_type(map_list@, 0x2001) == Some(item),
            count == item.size,
            v@.len() == i,
            forall|k: int|
                0 <= k < i ==> spec_tries_ok((#[trigger] v@[k]@).tries, v@[k]@.insns.len() as int),
            match spec_code_items(d, item.offset as int, count as int, e) {
                Ok(p) => match spec_code_items(d, cur as int, count - i, e) {
                    Ok(q) => p.0 == spec_code_item_views(v@) + q.0 && p.1 == q.1,
                    Err(_) => false,
                },
                Err(e2) => match spec_code_items(d, cur as int, count - i, e) {
                    Ok(_) => false,
                    Err(e3) => e2 == e3,
                },
            },
        decreases count - i,
    {
        match parse_code_item(data, cur, e) {
            Ok((c, p)) => {
                proof {
                    lemma_code_item_tries_ok(d, cur as int, e);
                    lemma_code_item_bounds(d, cur as int, e);
                }
                let consumed = p - (cur + 16);
                let pad: usize = if consumed % 4 != 0 {
                    4 - consumed % 4
                } else {
                    0
                };
                if pad > data.len() - p {
                    return Err(DexError::new(DexErrorKind::Truncated, p));
                }
                let ghost old_views = spec_code_item_views(v@);
                proof {
                    if let Ok((s2, _)) = spec_code_items(d, p as int + pad as int, count - i - 1, e) {
                        assert((old_views + seq![c@]) + s2 =~= old_views + (seq![c@] + s2));
                    }
                }
                v.push(c);
                proof {
                    assert(spec_code_item_views(v@) =~= old_views + seq![c@]);
                }
                cur = p + pad;
            },
            Err(e2) => {
                return Err(e2);
            },
        }
        i = i + 1;
    }
    Ok(v)
}


proof fn lemma_ta_pairs_bounds(d: Seq<u8>, pos: int, count: int)
    requires
        d.len() <= usize::MAX,
    ensures
        spec_ta_pairs(d, pos, count) matches Ok(p) ==> pos <= p.1 && (count > 0 ==> p.1
            <= d.len()),
    decreases count,
{
    if count > 0 {
        crate::leb128::lemma_uleb128_bounds(d, pos);
        if let Ok((_, p1)) = spec_read_uleb128(d, pos) {
            crate::leb128::lemma_uleb128_bounds(d, p1 as int);
            if let Ok((_, p2)) = spec_read_uleb128(d, p1 as int) {
                lemma_ta_pairs_bounds(d, p2 as int, count - 1);
            }
        }
    }
}

proof fn lemma_catch_handler_bounds(d: Seq<u8>, pos: int)
    requires
        d.len() <= usize::MAX,
    ensures
        spec_catch_handler(d, pos) matches Ok(p) ==> pos < p.1 <= d.len(),
{
    crate::leb128::lemma_sleb128_bounds(d, pos);
    if let Ok((size, p1)) = spec_read_sleb128(d, pos) {
        let abs = if size >= 0 { size as int } else { -(size as int) };
        lemma_ta_pairs_bounds(d, p1 as int, abs);
        if let Ok((_, p2)) = spec_ta_pairs(d, p1 as int, abs) {
            crate::leb128::lemma_uleb128_bounds(d, p2);
        }
    }
}

proof fn lemma_catch_handlers_bounds(d: Seq<u8>, pos: int, count: int)
    requires
        d.len() <= usize::MAX,
    ensures
        spec_catch_handlers(d, pos, count) matches Ok(p) ==> pos <= p.1 && (count > 0 ==> p.1
            <= d.len()),
    decreases count,
{
    if count > 0 {
        lemma_catch_handler_bounds(d, pos);
        if let Ok((_, p1)) = spec_catch_handler(d, pos) {
            lemma_catch_handlers_bounds(d, p1, count - 1);
        }
    }
}

/// A successful code item decode ends at or after its prologue, inside the
/// image.
proof fn lemma_code_item_bounds(d: Seq<u8>, pos: int, e: Endian)
    requires
        d.len() <= usize::MAX,
    ensures
        spec_code_item_at(d, pos, e) matches Ok(p) ==> pos + 16 <= p.1 <= d.len(),
{
    if 0 <= pos && pos + 16 <= d.len() {
        let tries_size = spec_u16_at(d, pos + 6, e) as int;
        let insns_size = spec_u32_at(d, pos + 12, e) as int;
        let p_insns = pos + 16;
        if p_insns + 2 * insns_size <= d.len() {
            let p_pad = p_insns + 2 * insns_size;
            let p_tries = if tries_size != 0 && insns_size % 2 == 1 { p_pad + 2 } else { p_pad };
            if p_tries + 8 * tries_size <= d.len() {
                let p_handlers = p_tries + 8 * tries_size;
                if tries_size != 0 {
                    crate::leb128::lemma_uleb128_bounds(d, p_handlers);
                    if let Ok((hcount, p1)) = spec_read_uleb128(d, p_handlers) {
                        lemma_catch_handlers_bounds(d, p1 as int, hcount as int);
                    }
                }
            }
        }
    }
}

/// Whatever code item the decoder accepts keeps its tries inside its
/// instruction stream.
proof fn lemma_code_item_tries_ok(d: Seq<u8>, pos: int, e: Endian)
    ensures
        spec_code_item_at(d, pos, e) matches Ok(p) ==> spec_tries_ok(
            p.0.tries,
            p.0.insns.len() as int,
        ),
{
}

} // verus!
