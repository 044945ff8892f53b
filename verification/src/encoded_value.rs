//! The recursive `encoded_value` sub-language: a tag byte whose low five bits
//! pick one of eighteen kinds and whose high three bits carry the argument —
//! a payload length minus one for scalars, a boolean immediate, or zero.
//!
//! Floating-point payloads are kept as their IEEE-754 bit patterns (`u32` /
//! `u64`): the decoder's work is byte reassembly, and the bits convert to a
//! host float outside the parser.

use vstd::prelude::*;

use crate::cursor::read_u8;
use crate::err::{derr, DexError, DexErrorKind};
use crate::leb128::{read_uleb128, spec_read_uleb128};

verus! {

/// A decoded `encoded_value`. `Float` and `Double` hold bit patterns;
/// `Array` and `Annotation` nest.
#[derive(Debug)]
pub enum EncodedValue {
    Byte(u8),
    Short(i16),
    Char(u16),
    Int(i32),
    Long(i64),
    Float(u32),
    Double(u64),
    MethodType(u32),
    MethodHandle(u32),
    String(u32),
    Type(u32),
    Field(u32),
    Method(u32),
    Enum(u32),
    Array(Vec<EncodedValue>),
    Annotation(EncodedAnnotation),
    Null,
    Boolean(bool),
}

/// A decoded `encoded_annotation`: a type and its named element values.
#[derive(Debug)]
pub struct EncodedAnnotation {
    pub type_idx: u64,
    pub elements: Vec<AnnotationElement>,
}

/// One element of an annotation: a name index and a value.
#[derive(Debug)]
pub struct AnnotationElement {
    pub name_idx: u64,
    pub value: EncodedValue,
}

/// The mathematical shape of an `EncodedValue`, with ghost sequences for the
/// nested forms.
pub enum EncodedValueV {
    Byte(u8),
    Short(i16),
    Char(u16),
    Int(i32),
    Long(i64),
    Float(u32),
    Double(u64),
    MethodType(u32),
    MethodHandle(u32),
    String(u32),
    Type(u32),
    Field(u32),
    Method(u32),
    Enum(u32),
    Array(Seq<EncodedValueV>),
    Annotation(EncodedAnnotationV),
    Null,
    Boolean(bool),
}

/// The mathematical shape of an `EncodedAnnotation`.
pub struct EncodedAnnotationV {
    pub type_idx: u64,
    pub elements: Seq<AnnotationElementV>,
}

/// The mathematical shape of an `AnnotationElement`.
pub struct AnnotationElementV {
    pub name_idx: u64,
    pub value: EncodedValueV,
}

/// Abstracts a decoded value into its mathematical shape.
pub open spec fn ev_view(v: EncodedValue) -> EncodedValueV
    decreases v,
{
    match v {
        EncodedValue::Byte(x) => EncodedValueV::Byte(x),
        EncodedValue::Short(x) => EncodedValueV::Short(x),
        EncodedValue::Char(x) => EncodedValueV::Char(x),
        EncodedValue::Int(x) => EncodedValueV::Int(x),
        EncodedValue::Long(x) => EncodedValueV::Long(x),
        EncodedValue::Float(x) => EncodedValueV::Float(x),
        EncodedValue::Double(x) => EncodedValueV::Double(x),
        EncodedValue::MethodType(x) => EncodedValueV::MethodType(x),
        EncodedValue::MethodHandle(x) => EncodedValueV::MethodHandle(x),
        EncodedValue::String(x) => EncodedValueV::String(x),
        EncodedValue::Type(x) => EncodedValueV::Type(x),
        EncodedValue::Field(x) => EncodedValueV::Field(x),
        EncodedValue::Method(x) => EncodedValueV::Method(x),
        EncodedValue::Enum(x) => EncodedValueV::Enum(x),
        EncodedValue::Array(vs) => EncodedValueV::Array(evs_view(vs@)),
        EncodedValue::Annotation(a) => EncodedValueV::Annotation(ea_view(a)),
        EncodedValue::Null => EncodedValueV::Null,
        EncodedValue::Boolean(b) => EncodedValueV::Boolean(b),
    }
}

/// Abstracts a sequence of decoded values element by element.
pub open spec fn evs_view(s: Seq<EncodedValue>) -> Seq<EncodedValueV>
    decreases s,
{
    if s.len() == 0 {
        Seq::empty()
    } else {
        seq![ev_view(s[0])] + evs_view(s.skip(1))
    }
}

/// Abstracts a decoded annotation into its mathematical shape.
pub open spec fn ea_view(a: EncodedAnnotation) -> EncodedAnnotationV
    decreases a,
{
    EncodedAnnotationV { type_idx: a.type_idx, elements: els_view(a.elements@) }
}

/// Abstracts a sequence of annotation elements element by element.
pub open spec fn els_view(s: Seq<AnnotationElement>) -> Seq<AnnotationElementV>
    decreases s,
{
    if s.len() == 0 {
        Seq::empty()
    } else {
        seq![AnnotationElementV { name_idx: s[0].name_idx, value: ev_view(s[0].value) }]
            + els_view(s.skip(1))
    }
}

impl View for EncodedValue {
    type V = EncodedValueV;

    open spec fn view(&self) -> EncodedValueV {
        ev_view(*self)
    }
}

impl View for EncodedAnnotation {
    type V = EncodedAnnotationV;

    open spec fn view(&self) -> EncodedAnnotationV {
        ea_view(*self)
    }
}

impl View for AnnotationElement {
    type V = AnnotationElementV;

    open spec fn view(&self) -> AnnotationElementV {
        AnnotationElementV { name_idx: self.name_idx, value: ev_view(self.value) }
    }
}

/// 256 to the power `n`.
pub open spec fn spec_pow256(n: int) -> int
    decreases n,
{
    if n <= 0 {
        1
    } else {
        256 * spec_pow256(n - 1)
    }
}

proof fn lemma_pow256_vals()
    ensures
        spec_pow256(0) == 1,
        spec_pow256(1) == 0x100,
        spec_pow256(2) == 0x1_0000,
        spec_pow256(3) == 0x100_0000,
        spec_pow256(4) == 0x1_0000_0000,
        spec_pow256(5) == 0x100_0000_0000,
        spec_pow256(6) == 0x1_0000_0000_0000,
        spec_pow256(7) == 0x100_0000_0000_0000,
        spec_pow256(8) == 0x1_0000_0000_0000_0000,
{
    reveal_with_fuel(spec_pow256, 9);
}

/// The `n`-byte little-endian value at `pos`, zero-extended.
pub open spec fn spec_le_bytes(d: Seq<u8>, pos: int, n: int) -> int
    decreases n,
{
    if n <= 0 {
        0
    } else {
        d[pos] + 256 * spec_le_bytes(d, pos + 1, n - 1)
    }
}

proof fn lemma_le_bytes_bound(d: Seq<u8>, pos: int, n: int)
    ensures
        0 <= spec_le_bytes(d, pos, n) < spec_pow256(n),
    decreases n,
{
    if n > 0 {
        lemma_le_bytes_bound(d, pos + 1, n - 1);
        if 0 <= pos < d.len() {
            assert(d[pos] < 256);
        } else {
            assert(d[pos] == 0 || true);
        }
    }
}

/// The payload of a scalar value: `n` bytes at `pos`, or `Truncated` at the
/// payload's start.
pub open spec fn spec_payload(d: Seq<u8>, pos: int, n: int) -> Result<(int, int), DexError> {
    if pos < 0 || pos + n > d.len() {
        Err(derr(DexErrorKind::Truncated, pos))
    } else {
        Ok((spec_le_bytes(d, pos, n), pos + n))
    }
}

/// Sign-extends an `n`-byte zero-extended value: the top bit of the most
/// significant byte read is replicated upward.
pub open spec fn spec_sign_ext(v: int, n: int) -> int {
    if 2 * v >= spec_pow256(n) {
        v - spec_pow256(n)
    } else {
        v
    }
}

/// What decoding one `encoded_value` at `pos` yields, with at most `depth`
/// levels of nesting left.
pub open spec fn spec_decode_value(d: Seq<u8>, pos: int, depth: nat) -> Result<
    (EncodedValueV, int),
    DexError,
>
    decreases depth, 2int, 0int,
{
    if depth == 0 {
        Err(derr(DexErrorKind::EncodedValueDepth, pos))
    } else if pos < 0 || pos >= d.len() {
        Err(derr(DexErrorKind::Truncated, pos))
    } else {
        let b = d[pos] as int;
        let tag = b % 32;
        let arg = b / 32;
        if tag == 0x00 {
            if arg != 0 {
                Err(derr(DexErrorKind::ValueArgOutOfRange { tag: tag as u8, arg: arg as u8 }, pos))
            } else {
                match spec_payload(d, pos + 1, 1) {
                    Err(e) => Err(e),
                    Ok((v, end)) => Ok((EncodedValueV::Byte(v as u8), end)),
                }
            }
        } else if tag == 0x02 {
            if arg > 1 {
                Err(derr(DexErrorKind::ValueArgOutOfRange { tag: tag as u8, arg: arg as u8 }, pos))
            } else {
                match spec_payload(d, pos + 1, arg + 1) {
                    Err(e) => Err(e),
                    Ok((v, end)) => Ok(
                        (EncodedValueV::Short(spec_sign_ext(v, arg + 1) as i16), end),
                    ),
                }
            }
        } else if tag == 0x03 {
            if arg > 1 {
                Err(derr(DexErrorKind::ValueArgOutOfRange { tag: tag as u8, arg: arg as u8 }, pos))
            } else {
                match spec_payload(d, pos + 1, arg + 1) {
                    Err(e) => Err(e),
                    Ok((v, end)) => Ok((EncodedValueV::Char(v as u16), end)),
                }
            }
        } else if tag == 0x04 {
            if arg > 3 {
                Err(derr(DexErrorKind::ValueArgOutOfRange { tag: tag as u8, arg: arg as u8 }, pos))
            } else {
                match spec_payload(d, pos + 1, arg + 1) {
                    Err(e) => Err(e),
                    Ok((v, end)) => Ok((EncodedValueV::Int(spec_sign_ext(v, arg + 1) as i32), end)),
                }
            }
        } else if tag == 0x06 {
            if arg > 7 {
                Err(derr(DexErrorKind::ValueArgOutOfRange { tag: tag as u8, arg: arg as u8 }, pos))
            } else {
                match spec_payload(d, pos + 1, arg + 1) {
                    Err(e) => Err(e),
                    Ok((v, end)) => Ok(
                        (EncodedValueV::Long(spec_sign_ext(v, arg + 1) as i64), end),
                    ),
                }
            }
        } else if tag == 0x10 {
            if arg > 3 {
                Err(derr(DexErrorKind::ValueArgOutOfRange { tag: tag as u8, arg: arg as u8 }, pos))
            } else {
                match spec_payload(d, pos + 1, arg + 1) {
                    Err(e) => Err(e),
                    Ok((v, end)) => Ok(
                        (EncodedValueV::Float((v * spec_pow256(3 - arg)) as u32), end),
                    ),
                }
            }
        } else if tag == 0x11 {
            if arg > 7 {
                Err(derr(DexErrorKind::ValueArgOutOfRange { tag: tag as u8, arg: arg as u8 }, pos))
            } else {
                match spec_payload(d, pos + 1, arg + 1) {
                    Err(e) => Err(e),
                    Ok((v, end)) => Ok(
                        (EncodedValueV::Double((v * spec_pow256(7 - arg)) as u64), end),
                    ),
                }
            }
        } else if 0x15 <= tag && tag <= 0x1b {
            if arg > 3 {
                Err(derr(DexErrorKind::ValueArgOutOfRange { tag: tag as u8, arg: arg as u8 }, pos))
            } else {
                match spec_payload(d, pos + 1, arg + 1) {
                    Err(e) => Err(e),
                    Ok((v, end)) => {
                        let x = v as u32;
                        let val = if tag == 0x15 {
                            EncodedValueV::MethodType(x)
                        } else if tag == 0x16 {
                            EncodedValueV::MethodHandle(x)
                        } else if tag == 0x17 {
                            EncodedValueV::String(x)
                        } else if tag == 0x18 {
                            EncodedValueV::Type(x)
                        } else if tag == 0x19 {
                            EncodedValueV::Field(x)
                        } else if tag == 0x1a {
                            EncodedValueV::Method(x)
                        } else {
                            EncodedValueV::Enum(x)
                        };
                        Ok((val, end))
                    },
                }
            }
        } else if tag == 0x1c {
            if arg != 0 {
                Err(derr(DexErrorKind::ValueArgOutOfRange { tag: tag as u8, arg: arg as u8 }, pos))
            } else {
                match spec_read_uleb128(d, pos + 1) {
                    Err(e) => Err(e),
                    Ok((size, p)) => match spec_decode_values(d, p as int, size as int, depth) {
                        Err(e) => Err(e),
                        Ok((vs, end)) => Ok((EncodedValueV::Array(vs), end)),
                    },
                }
            }
        } else if tag == 0x1d {
            if arg != 0 {
                Err(derr(DexErrorKind::ValueArgOutOfRange { tag: tag as u8, arg: arg as u8 }, pos))
            } else {
                match spec_decode_annotation(d, pos + 1, depth) {
                    Err(e) => Err(e),
                    Ok((a, end)) => Ok((EncodedValueV::Annotation(a), end)),
                }
            }
        } else if tag == 0x1e {
            if arg != 0 {
                Err(derr(DexErrorKind::ValueArgOutOfRange { tag: tag as u8, arg: arg as u8 }, pos))
            } else {
                Ok((EncodedValueV::Null, pos + 1))
            }
        } else if tag == 0x1f {
            if arg > 1 {
                Err(derr(DexErrorKind::ValueArgOutOfRange { tag: tag as u8, arg: arg as u8 }, pos))
            } else {
                Ok((EncodedValueV::Boolean(arg == 1), pos + 1))
            }
        } else {
            Err(derr(DexErrorKind::UnknownEncodedValueTag, pos))
        }
    }
}

/// Decodes `count` consecutive values, each one nesting level down.
pub open spec fn spec_decode_values(d: Seq<u8>, pos: int, count: int, depth: nat) -> Result<
    (Seq<EncodedValueV>, int),
    DexError,
>
    decreases depth, 0int, count,
{
    if count <= 0 {
        Ok((Seq::empty(), pos))
    } else if depth == 0 {
        Err(derr(DexErrorKind::EncodedValueDepth, pos))
    } else {
        match spec_decode_value(d, pos, (depth - 1) as nat) {
            Err(e) => Err(e),
            Ok((v, p)) => match spec_decode_values(d, p, count - 1, depth) {
                Err(e) => Err(e),
                Ok((vs, end)) => Ok((seq![v] + vs, end)),
            },
        }
    }
}

/// What decoding an `encoded_annotation` at `pos` yields: a type index, an
/// element count, then that many name/value pairs.
pub open spec fn spec_decode_annotation(d: Seq<u8>, pos: int, depth: nat) -> Result<
    (EncodedAnnotationV, int),
    DexError,
>
    decreases depth, 1int, 0int,
{
    match spec_read_uleb128(d, pos) {
        Err(e) => Err(e),
        Ok((type_idx, p1)) => match spec_read_uleb128(d, p1 as int) {
            Err(e) => Err(e),
            Ok((size, p2)) => match spec_decode_elements(d, p2 as int, size as int, depth) {
                Err(e) => Err(e),
                Ok((els, end)) => Ok((EncodedAnnotationV { type_idx, elements: els }, end)),
            },
        },
    }
}

/// Decodes `count` annotation elements, each value one nesting level down.
pub open spec fn spec_decode_elements(d: Seq<u8>, pos: int, count: int, depth: nat) -> Result<
    (Seq<AnnotationElementV>, int),
    DexError,
>
    decreases depth, 0int, count,
{
    if count <= 0 {
        Ok((Seq::empty(), pos))
    } else if depth == 0 {
        Err(derr(DexErrorKind::EncodedValueDepth, pos))
    } else {
        match spec_read_uleb128(d, pos) {
            Err(e) => Err(e),
            Ok((name_idx, p1)) => match spec_decode_value(d, p1 as int, (depth - 1) as nat) {
                Err(e) => Err(e),
                Ok((v, p2)) => match spec_decode_elements(d, p2, count - 1, depth) {
                    Err(e) => Err(e),
                    Ok((els, end)) => Ok(
                        (seq![AnnotationElementV { name_idx, value: v }] + els, end),
                    ),
                },
            },
        }
    }
}

proof fn lemma_pow256_increases(a: int, b: int)
    requires
        a <= b,
    ensures
        spec_pow256(a) <= spec_pow256(b),
    decreases b - a,
{
    if a < b {
        lemma_pow256_increases(a, b - 1);
        lemma_pow256_pos(b - 1);
    }
}

proof fn lemma_pow256_pos(n: int)
    ensures
        spec_pow256(n) >= 1,
    decreases n,
{
    if n > 0 {
        lemma_pow256_pos(n - 1);
    }
}

/// Reads `n` little-endian bytes at `pos`, zero-extended into a `u64`.
fn read_le(data: &[u8], pos: usize, n: u8) -> (r: u64)
    requires
        n <= 8,
        pos + n <= data@.len(),
    ensures
        r == spec_le_bytes(data@, pos as int, n as int),
        r < spec_pow256(n as int),
    decreases n,
{
    proof {
        lemma_pow256_vals();
        lemma_le_bytes_bound(data@, pos as int, n as int);
    }
    if n == 0 {
        0
    } else {
        let b = data[pos];
        let rest = read_le(data, pos + 1, n - 1);
        proof {
            lemma_pow256_vals();
            lemma_pow256_increases(n as int - 1, 7);
        }
        b as u64 + 256 * rest
    }
}

/// Sign-extends an `n`-byte zero-extended value to an `i64`.
fn sign_extend(v: u64, n: u8) -> (r: i64)
    requires
        1 <= n <= 8,
        v < spec_pow256(n as int),
    ensures
        r as int == spec_sign_ext(v as int, n as int),
{
    proof {
        lemma_pow256_vals();
    }
    if n == 8 {
        if v >= 0x8000_0000_0000_0000 {
            -((u64::MAX - v) as i64) - 1
        } else {
            v as i64
        }
    } else {
        let pow: u64 = match n {
            1 => 0x100,
            2 => 0x1_0000,
            3 => 0x100_0000,
            4 => 0x1_0000_0000,
            5 => 0x100_0000_0000,
            6 => 0x1_0000_0000_0000,
            _ => 0x100_0000_0000_0000,
        };
        if v >= pow / 2 {
            (v as i64) - (pow as i64)
        } else {
            v as i64
        }
    }
}

proof fn lemma_evs_view_snoc(s: Seq<EncodedValue>, v: EncodedValue)
    ensures
        evs_view(s.push(v)) == evs_view(s) + seq![ev_view(v)],
    decreases s,
{
    reveal_with_fuel(evs_view, 3);
    if s.len() == 0 {
        assert(s.push(v)[0] == v);
        assert(s.push(v).skip(1) =~= Seq::<EncodedValue>::empty());
        assert(evs_view(s.push(v)) =~= evs_view(s) + seq![ev_view(v)]);
    } else {
        assert(s.push(v)[0] == s[0]);
        assert(s.push(v).skip(1) =~= s.skip(1).push(v));
        lemma_evs_view_snoc(s.skip(1), v);
        assert(evs_view(s.push(v)) == seq![ev_view(s[0])] + (evs_view(s.skip(1)) + seq![
            ev_view(v),
        ]));
        assert(seq![ev_view(s[0])] + (evs_view(s.skip(1)) + seq![ev_view(v)]) =~= (seq![
            ev_view(s[0]),
        ] + evs_view(s.skip(1))) + seq![ev_view(v)]);
    }
}

proof fn lemma_els_view_snoc(s: Seq<AnnotationElement>, v: AnnotationElement)
    ensures
        els_view(s.push(v)) == els_view(s) + seq![
            AnnotationElementV { name_idx: v.name_idx, value: ev_view(v.value) },
        ],
    decreases s,
{
    reveal_with_fuel(els_view, 3);
    if s.len() == 0 {
        assert(s.push(v)[0] == v);
        assert(s.push(v).skip(1) =~= Seq::<AnnotationElement>::empty());
        assert(els_view(s.push(v)) =~= els_view(s) + seq![
            AnnotationElementV { name_idx: v.name_idx, value: ev_view(v.value) },
        ]);
    } else {
        let h = AnnotationElementV { name_idx: s[0].name_idx, value: ev_view(s[0].value) };
        let t = AnnotationElementV { name_idx: v.name_idx, value: ev_view(v.value) };
        assert(s.push(v)[0] == s[0]);
        assert(s.push(v).skip(1) =~= s.skip(1).push(v));
        lemma_els_view_snoc(s.skip(1), v);
        assert(els_view(s.push(v)) == seq![h] + (els_view(s.skip(1)) + seq![t]));
        assert(seq![h] + (els_view(s.skip(1)) + seq![t]) =~= (seq![h] + els_view(s.skip(1)))
            + seq![t]);
    }
}

fn decode_value(data: &[u8], pos: usize, depth: u32) -> (r: Result<(EncodedValue, usize), DexError>)
    ensures
        match spec_decode_value(data@, pos as int, depth as nat) {
            Ok(p) => r matches Ok(q) && q.0@ == p.0 && q.1 == p.1,
            Err(e) => r == Err::<(EncodedValue, usize), DexError>(e),
        },
    decreases depth, 2int, 0int,
{
    if depth == 0 {
        return Err(DexError::new(DexErrorKind::EncodedValueDepth, pos));
    }
    if pos >= data.len() {
        return Err(DexError::new(DexErrorKind::Truncated, pos));
    }
    let b = data[pos];
    let tag: u8 = b % 32;
    let arg: u8 = b / 32;
    if tag == 0x00 || tag == 0x02 || tag == 0x03 || tag == 0x04 || tag == 0x06 || tag == 0x10
        || tag == 0x11 || (0x15 <= tag && tag <= 0x1b) {
        let max_arg: u8 = if tag == 0x00 {
            0
        } else if tag == 0x02 || tag == 0x03 {
            1
        } else if tag == 0x06 || tag == 0x11 {
            7
        } else {
            3
        };
        if arg > max_arg {
            return Err(DexError::new(DexErrorKind::ValueArgOutOfRange { tag, arg }, pos));
        }
        let n: u8 = arg + 1;
        if data.len() - (pos + 1) < n as usize {
            return Err(DexError::new(DexErrorKind::Truncated, pos + 1));
        }
        let v = read_le(data, pos + 1, n);
        let end = pos + 1 + n as usize;
        proof {
            lemma_pow256_vals();
        }
        let val: EncodedValue = if tag == 0x00 {
            EncodedValue::Byte(v as u8)
        } else if tag == 0x02 {
            EncodedValue::Short(sign_extend(v, n) as i16)
        } else if tag == 0x03 {
            EncodedValue::Char(v as u16)
        } else if tag == 0x04 {
            EncodedValue::Int(sign_extend(v, n) as i32)
        } else if tag == 0x06 {
            EncodedValue::Long(sign_extend(v, n))
        } else if tag == 0x10 {
            let mult: u64 = match n {
                1 => 0x100_0000,
                2 => 0x1_0000,
                3 => 0x100,
                _ => 1,
            };
            EncodedValue::Float((v * mult) as u32)
        } else if tag == 0x11 {
            let mult: u64 = match n {
                1 => 0x100_0000_0000_0000,
                2 => 0x1_0000_0000_0000,
                3 => 0x100_0000_0000,
                4 => 0x1_0000_0000,
                5 => 0x100_0000,
                6 => 0x1_0000,
                7 => 0x100,
                _ => 1,
            };
            EncodedValue::Double(v * mult)
        } else if tag == 0x15 {
            EncodedValue::MethodType(v as u32)
        } else if tag == 0x16 {
            EncodedValue::MethodHandle(v as u32)
        } else if tag == 0x17 {
            EncodedValue::String(v as u32)
        } else if tag == 0x18 {
            EncodedValue::Type(v as u32)
        } else if tag == 0x19 {
            EncodedValue::Field(v as u32)
        } else if tag == 0x1a {
            EncodedValue::Method(v as u32)
        } else {
            EncodedValue::Enum(v as u32)
        };
        Ok((val, end))
    } else if tag == 0x1c {
        if arg != 0 {
            return Err(DexError::new(DexErrorKind::ValueArgOutOfRange { tag, arg }, pos));
        }
        let (size, p) = match read_uleb128(data, pos + 1) {
            Ok(p) => p,
            Err(e) => {
                return Err(e);
            },
        };
        match decode_values(data, p, size, depth) {
            Ok((vs, end)) => Ok((EncodedValue::Array(vs), end)),
            Err(e) => Err(e),
        }
    } else if tag == 0x1d {
        if arg != 0 {
            return Err(DexError::new(DexErrorKind::ValueArgOutOfRange { tag, arg }, pos));
        }
        match decode_annotation(data, pos + 1, depth) {
            Ok((a, end)) => Ok((EncodedValue::Annotation(a), end)),
            Err(e) => Err(e),
        }
    } else if tag == 0x1e {
        if arg != 0 {
            return Err(DexError::new(DexErrorKind::ValueArgOutOfRange { tag, arg }, pos));
        }
        Ok((EncodedValue::Null, pos + 1))
    } else if tag == 0x1f {
        if arg > 1 {
            return Err(DexError::new(DexErrorKind::ValueArgOutOfRange { tag, arg }, pos));
        }
        Ok((EncodedValue::Boolean(arg == 1), pos + 1))
    } else {
        Err(DexError::new(DexErrorKind::UnknownEncodedValueTag, pos))
    }
}

fn decode_values(data: &[u8], pos: usize, count: u64, depth: u32) -> (r: Result<
    (Vec<EncodedValue>, usize),
    DexError,
>)
    ensures
        match spec_decode_values(data@, pos as int, count as int, depth as nat) {
            Ok(p) => r matches Ok(q) && evs_view(q.0@) == p.0 && q.1 == p.1,
            Err(e) => r == Err::<(Vec<EncodedValue>, usize), DexError>(e),
        },
    decreases depth, 1int, 0int,
{
    let ghost d = data@;
    if count == 0 {
        proof {
            assert(evs_view(Seq::<EncodedValue>::empty()) =~= Seq::<EncodedValueV>::empty());
        }
        return Ok((Vec::new(), pos));
    }
    if depth == 0 {
        return Err(DexError::new(DexErrorKind::EncodedValueDepth, pos));
    }
    let mut acc: Vec<EncodedValue> = Vec::new();
    let mut cur: usize = pos;
    let mut i: u64 = 0;
    while i < count
        invariant
            i <= count,
            depth >= 1,
            d == data@,
            match spec_decode_values(d, pos as int, count as int, depth as nat) {
                Ok(p) => match spec_decode_values(d, cur as int, count - i, depth as nat) {
                    Ok(p2) => p.0 == evs_view(acc@) + p2.0 && p.1 == p2.1,
                    Err(_) => false,
                },
                Err(e) => match spec_decode_values(d, cur as int, count - i, depth as nat) {
                    Ok(_) => false,
                    Err(e2) => e == e2,
                },
            },
        decreases count - i,
    {
        let v = match decode_value(data, cur, depth - 1) {
            Ok((v, p)) => {
                proof {
                    if let Ok((vs2, _)) = spec_decode_values(d, p as int, count - i - 1, depth
                        as nat) {
                        lemma_evs_view_snoc(acc@, v);
                        assert((evs_view(acc@) + seq![ev_view(v)]) + vs2 =~= evs_view(acc@) + (seq![
                            ev_view(v),
                        ] + vs2));
                    }
                }
                acc.push(v);
                cur = p;
            },
            Err(e) => {
                return Err(e);
            },
        };
        i = i + 1;
    }
    Ok((acc, cur))
}

fn decode_annotation(data: &[u8], pos: usize, depth: u32) -> (r: Result<
    (EncodedAnnotation, usize),
    DexError,
>)
    ensures
        match spec_decode_annotation(data@, pos as int, depth as nat) {
            Ok(p) => r matches Ok(q) && q.0@ == p.0 && q.1 == p.1,
            Err(e) => r == Err::<(EncodedAnnotation, usize), DexError>(e),
        },
    decreases depth, 0int, 0int,
{
    let ghost d = data@;
    let (type_idx, p1) = match read_uleb128(data, pos) {
        Ok(p) => p,
        Err(e) => {
            return Err(e);
        },
    };
    let (size, p2) = match read_uleb128(data, p1) {
        Ok(p) => p,
        Err(e) => {
            return Err(e);
        },
    };
    let mut acc: Vec<AnnotationElement> = Vec::new();
    let mut cur: usize = p2;
    let mut i: u64 = 0;
    if size > 0 && depth == 0 {
        return Err(DexError::new(DexErrorKind::EncodedValueDepth, cur));
    }
    proof {
        assert(els_view(Seq::<AnnotationElement>::empty()) =~= Seq::<AnnotationElementV>::empty());
    }
    while i < size
        invariant
            i <= size,
            size > 0 ==> depth >= 1,
            d == data@,
            spec_read_uleb128(d, pos as int) == Ok::<(u64, usize), DexError>((type_idx, p1)),
            spec_read_uleb128(d, p1 as int) == Ok::<(u64, usize), DexError>((size, p2)),
            match spec_decode_elements(d, p2 as int, size as int, depth as nat) {
                Ok(p) => match spec_decode_elements(d, cur as int, size - i, depth as nat) {
                    Ok(q2) => p.0 == els_view(acc@) + q2.0 && p.1 == q2.1,
                    Err(_) => false,
                },
                Err(e) => match spec_decode_elements(d, cur as int, size - i, depth as nat) {
                    Ok(_) => false,
                    Err(e2) => e == e2,
                },
            },
        decreases size - i,
    {
        let (name_idx, q1) = match read_uleb128(data, cur) {
            Ok(p) => p,
            Err(e) => {
                return Err(e);
            },
        };
        match decode_value(data, q1, depth - 1) {
            Ok((v, q2)) => {
                proof {
                    if let Ok((els2, _)) = spec_decode_elements(d, q2 as int, size - i - 1, depth
                        as nat) {
                        lemma_els_view_snoc(acc@, AnnotationElement { name_idx, value: v });
                        assert((els_view(acc@) + seq![
                            AnnotationElementV { name_idx, value: ev_view(v) },
                        ]) + els2 =~= els_view(acc@) + (seq![
                            AnnotationElementV { name_idx, value: ev_view(v) },
                        ] + els2));
                    }
                }
                acc.push(AnnotationElement { name_idx, value: v });
                cur = q2;
            },
            Err(e) => {
                return Err(e);
            },
        }
        i = i + 1;
    }
    Ok((EncodedAnnotation { type_idx, elements: acc }, cur))
}

/// The nesting cap imposed on encoded values.
pub const ENCODED_VALUE_DEPTH_CAP: u32 = 32;

impl EncodedValue {
    /// Decodes one `encoded_value` at `pos`, with the recommended cap of 32
    /// nesting levels, returning it with the position just past it.
    pub fn from_reader(data: &[u8], pos: usize) -> (r: Result<(EncodedValue, usize), DexError>)
        ensures
            match spec_decode_value(data@, pos as int, ENCODED_VALUE_DEPTH_CAP as nat) {
                Ok(p) => r matches Ok(q) && q.0@ == p.0 && q.1 == p.1,
                Err(e) => r == Err::<(EncodedValue, usize), DexError>(e),
            },
    {
        decode_value(data, pos, ENCODED_VALUE_DEPTH_CAP)
    }
}

impl EncodedAnnotation {
    /// Decodes one `encoded_annotation` at `pos`, with the recommended cap of
    /// 32 nesting levels, returning it with the position just past it.
    pub fn from_reader(data: &[u8], pos: usize) -> (r: Result<(EncodedAnnotation, usize), DexError>)
        ensures
            match spec_decode_annotation(data@, pos as int, ENCODED_VALUE_DEPTH_CAP as nat) {
                Ok(p) => r matches Ok(q) && q.0@ == p.0 && q.1 == p.1,
                Err(e) => r == Err::<(EncodedAnnotation, usize), DexError>(e),
            },
    {
        decode_annotation(data, pos, ENCODED_VALUE_DEPTH_CAP)
    }
}

/// The fewest bytes that hold `v` zero-extended: the decoder's zero
/// extension restores the value.
pub open spec fn spec_unsigned_len(v: int) -> int
    decreases v,
{
    if v < 256 {
        1
    } else {
        1 + spec_unsigned_len(v / 256)
    }
}

/// The fewest bytes that hold `v` sign-extended: the decoder's sign
/// extension restores the value.
pub open spec fn spec_signed_len(v: int) -> int
    decreases (if v >= 0 { v } else { -(v + 1) }),
{
    if -128 <= v < 128 {
        1
    } else {
        1 + spec_signed_len(v / 256)
    }
}

/// How many trailing zero bytes of a right-extended float payload may be
/// dropped, at most `max`.
pub open spec fn spec_trailing_zeros(v: int, max: int) -> int
    decreases max,
{
    if max <= 0 || v % 256 != 0 {
        0
    } else {
        1 + spec_trailing_zeros(v / 256, max - 1)
    }
}

/// The `n`-byte little-endian image of `v`; a negative `v` appears in two's
/// complement.
pub open spec fn spec_le_of(v: int, n: int) -> Seq<u8>
    decreases n,
{
    if n <= 0 {
        Seq::empty()
    } else {
        seq![(v % 256) as u8] + spec_le_of(v / 256, n - 1)
    }
}

/// The canonical encoding of a value: the tag byte with the minimal
/// argument, then the payload.
pub open spec fn spec_encode_value(v: EncodedValueV) -> Seq<u8>
    decreases v, 1int,
{
    match v {
        EncodedValueV::Byte(x) => seq![0x00u8, x],
        EncodedValueV::Short(x) => {
            let n = spec_signed_len(x as int);
            seq![(0x02 + (n - 1) * 32) as u8] + spec_le_of(x as int, n)
        },
        EncodedValueV::Char(x) => {
            let n = spec_unsigned_len(x as int);
            seq![(0x03 + (n - 1) * 32) as u8] + spec_le_of(x as int, n)
        },
        EncodedValueV::Int(x) => {
            let n = spec_signed_len(x as int);
            seq![(0x04 + (n - 1) * 32) as u8] + spec_le_of(x as int, n)
        },
        EncodedValueV::Long(x) => {
            let n = spec_signed_len(x as int);
            seq![(0x06 + (n - 1) * 32) as u8] + spec_le_of(x as int, n)
        },
        EncodedValueV::Float(x) => {
            let z = spec_trailing_zeros(x as int, 3);
            let n = 4 - z;
            seq![(0x10 + (n - 1) * 32) as u8] + spec_le_of(x as int / spec_pow256(z), n)
        },
        EncodedValueV::Double(x) => {
            let z = spec_trailing_zeros(x as int, 7);
            let n = 8 - z;
            seq![(0x11 + (n - 1) * 32) as u8] + spec_le_of(x as int / spec_pow256(z), n)
        },
        EncodedValueV::MethodType(x) => {
            let n = spec_unsigned_len(x as int);
            seq![(0x15 + (n - 1) * 32) as u8] + spec_le_of(x as int, n)
        },
        EncodedValueV::MethodHandle(x) => {
            let n = spec_unsigned_len(x as int);
            seq![(0x16 + (n - 1) * 32) as u8] + spec_le_of(x as int, n)
        },
        EncodedValueV::String(x) => {
            let n = spec_unsigned_len(x as int);
            seq![(0x17 + (n - 1) * 32) as u8] + spec_le_of(x as int, n)
        },
        EncodedValueV::Type(x) => {
            let n = spec_unsigned_len(x as int);
            seq![(0x18 + (n - 1) * 32) as u8] + spec_le_of(x as int, n)
        },
        EncodedValueV::Field(x) => {
            let n = spec_unsigned_len(x as int);
            seq![(0x19 + (n - 1) * 32) as u8] + spec_le_of(x as int, n)
        },
        EncodedValueV::Method(x) => {
            let n = spec_unsigned_len(x as int);
            seq![(0x1a + (n - 1) * 32) as u8] + spec_le_of(x as int, n)
        },
        EncodedValueV::Enum(x) => {
            let n = spec_unsigned_len(x as int);
            seq![(0x1b + (n - 1) * 32) as u8] + spec_le_of(x as int, n)
        },
        EncodedValueV::Array(vs) => seq![0x1cu8] + crate::leb128::spec_encode_uleb128(
            vs.len() as int,
        ) + spec_encode_values(vs),
        EncodedValueV::Annotation(a) => seq![0x1du8] + spec_encode_annotation(a),
        EncodedValueV::Null => seq![0x1eu8],
        EncodedValueV::Boolean(b) => seq![if b { 0x3fu8 } else { 0x1fu8 }],
    }
}

/// The concatenated canonical encodings of a value sequence.
pub open spec fn spec_encode_values(s: Seq<EncodedValueV>) -> Seq<u8>
    decreases s, 2int,
{
    if s.len() == 0 {
        Seq::empty()
    } else {
        spec_encode_value(s[0]) + spec_encode_values(s.skip(1))
    }
}

/// The canonical encoding of an annotation body: type index, element count,
/// then each element.
pub open spec fn spec_encode_annotation(a: EncodedAnnotationV) -> Seq<u8>
    decreases a, 2int,
{
    crate::leb128::spec_encode_uleb128(a.type_idx as int) + crate::leb128::spec_encode_uleb128(
        a.elements.len() as int,
    ) + spec_encode_elements(a.elements)
}

/// The concatenated canonical encodings of annotation elements.
pub open spec fn spec_encode_elements(s: Seq<AnnotationElementV>) -> Seq<u8>
    decreases s, 3int,
{
    if s.len() == 0 {
        Seq::empty()
    } else {
        crate::leb128::spec_encode_uleb128(s[0].name_idx as int) + spec_encode_value(s[0].value)
            + spec_encode_elements(s.skip(1))
    }
}

/// Every nested count fits the unsigned LEB128 range; true of every value
/// the decoder builds.
pub open spec fn spec_value_wf(v: EncodedValueV) -> bool
    decreases v, 1int,
{
    match v {
        EncodedValueV::Array(vs) => vs.len() <= u64::MAX && spec_values_wf(vs),
        EncodedValueV::Annotation(a) => a.elements.len() <= u64::MAX && spec_elements_wf(
            a.elements,
        ),
        _ => true,
    }
}

/// Well-formedness of each value in a sequence.
pub open spec fn spec_values_wf(s: Seq<EncodedValueV>) -> bool
    decreases s, 2int,
{
    s.len() == 0 || (spec_value_wf(s[0]) && spec_values_wf(s.skip(1)))
}

/// Well-formedness of each element value in a sequence.
pub open spec fn spec_elements_wf(s: Seq<AnnotationElementV>) -> bool
    decreases s, 2int,
{
    s.len() == 0 || (spec_value_wf(s[0].value) && spec_elements_wf(s.skip(1)))
}

/// The nesting depth of a value: how much decoder budget it needs.
pub open spec fn spec_value_depth(v: EncodedValueV) -> int
    decreases v, 1int,
{
    match v {
        EncodedValueV::Array(vs) => 1 + spec_values_depth(vs),
        EncodedValueV::Annotation(a) => 1 + spec_elements_depth(a.elements),
        _ => 1,
    }
}

/// The greatest nesting depth among a sequence of values.
pub open spec fn spec_values_depth(s: Seq<EncodedValueV>) -> int
    decreases s, 2int,
{
    if s.len() == 0 {
        0
    } else {
        let h = spec_value_depth(s[0]);
        let t = spec_values_depth(s.skip(1));
        if h >= t {
            h
        } else {
            t
        }
    }
}

/// The greatest nesting depth among a sequence of element values.
pub open spec fn spec_elements_depth(s: Seq<AnnotationElementV>) -> int
    decreases s, 2int,
{
    if s.len() == 0 {
        0
    } else {
        let h = spec_value_depth(s[0].value);
        let t = spec_elements_depth(s.skip(1));
        if h >= t {
            h
        } else {
            t
        }
    }
}

proof fn lemma_le_of_len(v: int, n: int)
    requires
        n >= 0,
    ensures
        spec_le_of(v, n).len() == n,
    decreases n,
{
    if n > 0 {
        lemma_le_of_len(v / 256, n - 1);
    }
}

/// Reading back the little-endian image of `v` yields `v` modulo 256^n.
proof fn lemma_le_bytes_of(d: Seq<u8>, pos: int, v: int, n: int)
    requires
        n >= 0,
        0 <= pos,
        pos + n <= d.len(),
        d.subrange(pos, pos + n) == spec_le_of(v, n),
    ensures
        spec_le_bytes(d, pos, n) == v % spec_pow256(n),
    decreases n,
{
    lemma_le_of_len(v, n);
    if n == 0 {
        assert(v % 1 == 0) by {
            vstd::arithmetic::div_mod::lemma_mod_self_0(1);
            vstd::arithmetic::div_mod::lemma_mod_twice(v, 1);
            vstd::arithmetic::div_mod::lemma_fundamental_div_mod_converse(v, 1, v, 0);
        }
    } else {
        let e = spec_le_of(v, n);
        let rest = spec_le_of(v / 256, n - 1);
        lemma_le_of_len(v / 256, n - 1);
        assert(d[pos + 0] == e[0]);
        assert(d[pos] as int == v % 256);
        assert(d.subrange(pos + 1, pos + n) == rest) by {
            assert(d.subrange(pos + 1, pos + n) =~= e.subrange(1, e.len() as int));
            assert(e.subrange(1, e.len() as int) =~= rest);
        }
        lemma_le_bytes_of(d, pos + 1, v / 256, n - 1);
        let p1 = spec_pow256(n - 1);
        let q = v / 256;
        let r = q % p1;
        lemma_pow256_pos(n - 1);
        assert(spec_le_bytes(d, pos, n) == v % 256 + 256 * r);
        assert(v % 256 + 256 * r == v % spec_pow256(n)) by {
            vstd::arithmetic::div_mod::lemma_fundamental_div_mod(v, 256);
            vstd::arithmetic::div_mod::lemma_fundamental_div_mod(q, p1);
            assert(v == 256 * (p1 * (q / p1) + r) + v % 256);
            assert(256 * (p1 * (q / p1)) == (256 * p1) * (q / p1)) by {
                vstd::arithmetic::mul::lemma_mul_is_associative(256, p1, q / p1);
            }
            assert(256 * (p1 * (q / p1) + r) == 256 * (p1 * (q / p1)) + 256 * r) by {
                vstd::arithmetic::mul::lemma_mul_is_distributive_add(256, p1 * (q / p1), r);
            }
            assert(v == (256 * p1) * (q / p1) + (v % 256 + 256 * r));
            assert(0 <= v % 256 + 256 * r < 256 * p1);
            vstd::arithmetic::div_mod::lemma_fundamental_div_mod_converse(
                v,
                256 * p1,
                q / p1,
                v % 256 + 256 * r,
            );
        }
    }
}

/// Sign extension undoes the truncation of a value that fits `n` bytes
/// signed.
proof fn lemma_sign_ext_round(v: int, n: int)
    requires
        n >= 1,
        -spec_pow256(n) <= 2 * v < spec_pow256(n),
    ensures
        spec_sign_ext(v % spec_pow256(n), n) == v,
{
    let p = spec_pow256(n);
    lemma_pow256_pos(n - 1);
    assert(p == 256 * spec_pow256(n - 1));
    if v >= 0 {
        assert(v % p == v) by {
            vstd::arithmetic::div_mod::lemma_fundamental_div_mod_converse(v, p, 0, v);
        }
    } else {
        assert(v % p == v + p) by {
            vstd::arithmetic::div_mod::lemma_fundamental_div_mod_converse(v, p, -1, v + p);
        }
    }
}

/// Bounds established by the minimal unsigned width.
proof fn lemma_unsigned_len_bounds(v: int)
    requires
        v >= 0,
    ensures
        1 <= spec_unsigned_len(v),
        v < spec_pow256(spec_unsigned_len(v)),
    decreases v,
{
    lemma_pow256_vals();
    if v >= 256 {
        lemma_unsigned_len_bounds(v / 256);
        let l = spec_unsigned_len(v / 256);
        assert(v == 256 * (v / 256) + v % 256) by {
            vstd::arithmetic::div_mod::lemma_fundamental_div_mod(v, 256);
        }
        assert((v / 256) * 256 <= (spec_pow256(l) - 1) * 256) by {
            vstd::arithmetic::mul::lemma_mul_inequality(v / 256, spec_pow256(l) - 1, 256);
        }
        assert(0 <= v % 256 < 256) by {
            vstd::arithmetic::div_mod::lemma_mod_pos_bound(v, 256);
        }
        assert(spec_pow256(1 + l) == 256 * spec_pow256(l));
        assert(v < spec_pow256(1 + l));
        assert(spec_unsigned_len(v) == 1 + l);
    }
}

/// The minimal unsigned width never exceeds a width that already fits.
proof fn lemma_unsigned_len_le(v: int, k: int)
    requires
        0 <= v < spec_pow256(k),
        k >= 1,
    ensures
        spec_unsigned_len(v) <= k,
    decreases k,
{
    if v >= 256 {
        assert(k >= 2) by {
            if k == 1 {
                lemma_pow256_vals();
            }
        }
        assert(v / 256 < spec_pow256(k - 1)) by {
            vstd::arithmetic::div_mod::lemma_fundamental_div_mod(v, 256);
            if v / 256 >= spec_pow256(k - 1) {
                assert(256 * (v / 256) >= 256 * spec_pow256(k - 1)) by {
                    vstd::arithmetic::mul::lemma_mul_inequality(
                        spec_pow256(k - 1),
                        v / 256,
                        256,
                    );
                }
            }
        }
        lemma_unsigned_len_le(v / 256, k - 1);
    }
}

/// Bounds established by the minimal signed width.
proof fn lemma_signed_len_bounds(v: int)
    ensures
        1 <= spec_signed_len(v),
        -spec_pow256(spec_signed_len(v)) <= 2 * v < spec_pow256(spec_signed_len(v)),
    decreases (if v >= 0 { v } else { -(v + 1) }),
{
    lemma_pow256_vals();
    if !(-128 <= v < 128) {
        let q = v / 256;
        let r = v % 256;
        assert(v == 256 * q + r && 0 <= r < 256) by {
            vstd::arithmetic::div_mod::lemma_fundamental_div_mod(v, 256);
        }
        lemma_signed_len_bounds(q);
        let l = spec_signed_len(q);
        let p = spec_pow256(l);
        lemma_pow256_pos(l - 1);
        assert(p == 256 * spec_pow256(l - 1));
        assert(2 * q < p && -p <= 2 * q);
        assert(2 * q <= p - 2 && -p <= 2 * q);
        assert(2 * v == 512 * q + 2 * r);
        assert(512 * q <= 256 * (p - 2)) by {
            vstd::arithmetic::mul::lemma_mul_inequality(2 * q, p - 2, 256);
        }
        assert(512 * q >= 256 * (-p)) by {
            vstd::arithmetic::mul::lemma_mul_inequality(-p, 2 * q, 256);
        }
    }
}

/// The minimal signed width never exceeds a width that already fits.
proof fn lemma_signed_len_le(v: int, k: int)
    requires
        -spec_pow256(k) <= 2 * v < spec_pow256(k),
        k >= 1,
    ensures
        spec_signed_len(v) <= k,
    decreases k,
{
    lemma_pow256_vals();
    if !(-128 <= v < 128) {
        assert(k >= 2);
        let q = v / 256;
        let r = v % 256;
        assert(v == 256 * q + r && 0 <= r < 256) by {
            vstd::arithmetic::div_mod::lemma_fundamental_div_mod(v, 256);
        }
        let p = spec_pow256(k - 1);
        lemma_pow256_pos(k - 2);
        assert(spec_pow256(k) == 256 * p);
        assert(p == 256 * spec_pow256(k - 2));
        assert(2 * q < p) by {
            if 2 * q >= p {
                assert(512 * q >= 256 * p) by {
                    vstd::arithmetic::mul::lemma_mul_inequality(p, 2 * q, 256);
                }
            }
        }
        assert(-p <= 2 * q) by {
            if 2 * q < -p {
                assert(2 * q <= -p - 1);
                assert(512 * q <= 256 * (-p - 1)) by {
                    vstd::arithmetic::mul::lemma_mul_inequality(2 * q, -p - 1, 256);
                }
            }
        }
        lemma_signed_len_le(q, k - 1);
    }
}

/// Properties of the dropped trailing zero bytes of a float payload.
proof fn lemma_trailing_zeros(v: int, max: int)
    requires
        v >= 0,
        max >= 0,
    ensures
        0 <= spec_trailing_zeros(v, max) <= max,
        v % spec_pow256(spec_trailing_zeros(v, max)) == 0,
        v == spec_pow256(spec_trailing_zeros(v, max)) * (v / spec_pow256(
            spec_trailing_zeros(v, max),
        )),
    decreases max,
{
    let z = spec_trailing_zeros(v, max);
    if max <= 0 || v % 256 != 0 {
        assert(v % 1 == 0 && v / 1 == v) by {
            vstd::arithmetic::div_mod::lemma_fundamental_div_mod_converse(v, 1, v, 0);
        }
    } else {
        lemma_trailing_zeros(v / 256, max - 1);
        let z1 = spec_trailing_zeros(v / 256, max - 1);
        let p1 = spec_pow256(z1);
        lemma_pow256_pos(z1);
        assert(v == 256 * (v / 256)) by {
            vstd::arithmetic::div_mod::lemma_fundamental_div_mod(v, 256);
        }
        let q = (v / 256) / p1;
        assert(v / 256 == p1 * q);
        assert(v == 256 * (p1 * q));
        assert(v == (256 * p1) * q) by {
            vstd::arithmetic::mul::lemma_mul_is_associative(256, p1, q);
        }
        assert(spec_pow256(z) == 256 * p1);
        assert(v == q * (256 * p1)) by {
            vstd::arithmetic::mul::lemma_mul_is_commutative(256 * p1, q);
        }
        assert(v % spec_pow256(z) == 0 && v / spec_pow256(z) == q) by {
            vstd::arithmetic::div_mod::lemma_fundamental_div_mod_converse(
                v,
                256 * p1,
                q,
                0,
            );
        }
    }
}

/// A quotient by 256^z of a value under 256^t stays under 256^(t-z).
proof fn lemma_div_pow_bound(v: int, z: int, t: int)
    requires
        0 <= v < spec_pow256(t),
        0 <= z <= t,
    ensures
        0 <= v / spec_pow256(z) < spec_pow256(t - z),
    decreases z,
{
    lemma_pow256_pos(z);
    if z == 0 {
        assert(v / 1 == v) by {
            vstd::arithmetic::div_mod::lemma_fundamental_div_mod_converse(v, 1, v, 0);
        }
    } else {
        let p = spec_pow256(z);
        let w = v / p;
        lemma_pow256_pos(z - 1);
        assert(p >= 1);
        vstd::arithmetic::div_mod::lemma_div_pos_is_pos(v, p);
        if w >= spec_pow256(t - z) {
            assert(p * w >= p * spec_pow256(t - z)) by {
                vstd::arithmetic::mul::lemma_mul_inequality(spec_pow256(t - z), w, p);
                vstd::arithmetic::mul::lemma_mul_is_commutative(p, w);
                vstd::arithmetic::mul::lemma_mul_is_commutative(p, spec_pow256(t - z));
            }
            assert(spec_pow256(z) * spec_pow256(t - z) == spec_pow256(t)) by {
                lemma_pow256_mul(z, t - z);
            }
            assert(v >= p * w) by {
                vstd::arithmetic::div_mod::lemma_fundamental_div_mod(v, p);
            }
        }
    }
}

proof fn lemma_pow256_mul(a: int, b: int)
    requires
        a >= 0,
        b >= 0,
    ensures
        spec_pow256(a) * spec_pow256(b) == spec_pow256(a + b),
    decreases a,
{
    if a == 0 {
        assert(spec_pow256(0) == 1);
    } else {
        lemma_pow256_mul(a - 1, b);
        assert(spec_pow256(a) * spec_pow256(b) == (256 * spec_pow256(a - 1)) * spec_pow256(b));
        assert((256 * spec_pow256(a - 1)) * spec_pow256(b) == 256 * (spec_pow256(a - 1)
            * spec_pow256(b))) by {
            vstd::arithmetic::mul::lemma_mul_is_associative(256, spec_pow256(a - 1), spec_pow256(b));
        }
    }
}

proof fn lemma_value_depth_pos(v: EncodedValueV)
    ensures
        spec_value_depth(v) >= 1,
    decreases v, 0int,
{
    match v {
        EncodedValueV::Array(vs) => {
            lemma_values_depth_nonneg(vs);
        },
        EncodedValueV::Annotation(a) => {
            lemma_elements_depth_nonneg(a.elements);
        },
        _ => {},
    }
}

proof fn lemma_values_depth_nonneg(s: Seq<EncodedValueV>)
    ensures
        spec_values_depth(s) >= 0,
        s.len() != 0 ==> spec_values_depth(s) >= 1,
    decreases s, 1int,
{
    if s.len() != 0 {
        lemma_value_depth_pos(s[0]);
        lemma_values_depth_nonneg(s.skip(1));
    }
}

proof fn lemma_elements_depth_nonneg(s: Seq<AnnotationElementV>)
    ensures
        spec_elements_depth(s) >= 0,
        s.len() != 0 ==> spec_elements_depth(s) >= 1,
    decreases s, 1int,
{
    if s.len() != 0 {
        lemma_value_depth_pos(s[0].value);
        lemma_elements_depth_nonneg(s.skip(1));
    }
}

proof fn lemma_region_split(d: Seq<u8>, pos: int, a: Seq<u8>, b: Seq<u8>)
    requires
        0 <= pos,
        pos + a.len() + b.len() <= d.len(),
        d.subrange(pos, pos + a.len() + b.len()) == a + b,
    ensures
        d.subrange(pos, pos + a.len() as int) == a,
        d.subrange(pos + a.len(), pos + a.len() + b.len()) == b,
{
    assert(d.subrange(pos, pos + a.len() as int) =~= (a + b).subrange(0, a.len() as int));
    assert((a + b).subrange(0, a.len() as int) =~= a);
    assert(d.subrange(pos + a.len(), pos + a.len() + b.len()) =~= (a + b).subrange(
        a.len() as int,
        (a + b).len() as int,
    ));
    assert((a + b).subrange(a.len() as int, (a + b).len() as int) =~= b);
}

/// The tag byte and payload of a canonically encoded scalar decode to the
/// written argument and the written value modulo the payload width.
proof fn lemma_rt_scalar(d: Seq<u8>, pos: int, tag: int, n: int, w: int)
    requires
        0 <= pos,
        0 <= tag < 32,
        1 <= n <= 8,
        pos + 1 + n <= d.len(),
        d[pos] as int == tag + 32 * (n - 1),
        d.subrange(pos + 1, pos + 1 + n) == spec_le_of(w, n),
    ensures
        d[pos] as int % 32 == tag,
        d[pos] as int / 32 == n - 1,
        spec_payload(d, pos + 1, n) == Ok::<(int, int), DexError>(
            (w % spec_pow256(n), pos + 1 + n),
        ),
{
    assert(d[pos] as int == (n - 1) * 32 + tag);
    vstd::arithmetic::div_mod::lemma_fundamental_div_mod_converse(
        d[pos] as int,
        32,
        n - 1,
        tag,
    );
    lemma_le_bytes_of(d, pos + 1, w, n);
}

/// Round trip of one value: decoding its canonical encoding, with enough
/// nesting budget, yields the value back and consumes exactly its bytes.
pub proof fn lemma_encoded_value_round_trip(d: Seq<u8>, pos: int, v: EncodedValueV, depth: nat)
    requires
        spec_value_wf(v),
        spec_value_depth(v) <= depth,
        0 <= pos,
        d.len() <= usize::MAX,
        pos + spec_encode_value(v).len() <= d.len(),
        d.subrange(pos, pos + spec_encode_value(v).len() as int) == spec_encode_value(v),
    ensures
        spec_decode_value(d, pos, depth) == Ok::<(EncodedValueV, int), DexError>(
            (v, pos + spec_encode_value(v).len()),
        ),
    decreases v, 0int,
{
    lemma_pow256_vals();
    let e = spec_encode_value(v);
    match v {
        EncodedValueV::Byte(x) => {
            assert((x as int) % 256 == x as int) by {
                vstd::arithmetic::div_mod::lemma_fundamental_div_mod_converse(
                    x as int,
                    256,
                    0,
                    x as int,
                );
            }
            lemma_le_of_len(x as int, 1);
            assert(spec_le_of(x as int, 1) =~= seq![x]);
            assert(e =~= seq![0x00u8] + spec_le_of(x as int, 1));
            lemma_region_split(d, pos, seq![0x00u8], spec_le_of(x as int, 1));
            assert(d[pos + 0] == seq![0x00u8][0]);
            lemma_rt_scalar(d, pos, 0x00, 1, x as int);
            assert((x as int) % spec_pow256(1) == x as int) by {
                vstd::arithmetic::div_mod::lemma_fundamental_div_mod_converse(
                    x as int,
                    spec_pow256(1),
                    0,
                    x as int,
                );
            }
        },
        EncodedValueV::Short(x) => {
            let n = spec_signed_len(x as int);
            lemma_signed_len_bounds(x as int);
            lemma_signed_len_le(x as int, 2);
            lemma_le_of_len(x as int, n);
            lemma_region_split(d, pos, seq![(0x02 + (n - 1) * 32) as u8], spec_le_of(x as int, n));
            assert(d[pos + 0] == seq![(0x02 + (n - 1) * 32) as u8][0]);
            lemma_rt_scalar(d, pos, 0x02, n, x as int);
            lemma_sign_ext_round(x as int, n);
        },
        EncodedValueV::Char(x) => {
            let n = spec_unsigned_len(x as int);
            lemma_unsigned_len_bounds(x as int);
            lemma_unsigned_len_le(x as int, 2);
            lemma_le_of_len(x as int, n);
            lemma_region_split(d, pos, seq![(0x03 + (n - 1) * 32) as u8], spec_le_of(x as int, n));
            assert(d[pos + 0] == seq![(0x03 + (n - 1) * 32) as u8][0]);
            lemma_rt_scalar(d, pos, 0x03, n, x as int);
            vstd::arithmetic::div_mod::lemma_fundamental_div_mod_converse(
                x as int,
                spec_pow256(n),
                0,
                x as int,
            );
        },
        EncodedValueV::Int(x) => {
            let n = spec_signed_len(x as int);
            lemma_signed_len_bounds(x as int);
            lemma_signed_len_le(x as int, 4);
            lemma_le_of_len(x as int, n);
            lemma_region_split(d, pos, seq![(0x04 + (n - 1) * 32) as u8], spec_le_of(x as int, n));
            assert(d[pos + 0] == seq![(0x04 + (n - 1) * 32) as u8][0]);
            lemma_rt_scalar(d, pos, 0x04, n, x as int);
            lemma_sign_ext_round(x as int, n);
        },
        EncodedValueV::Long(x) => {
            let n = spec_signed_len(x as int);
            lemma_signed_len_bounds(x as int);
            lemma_signed_len_le(x as int, 8);
            lemma_le_of_len(x as int, n);
            lemma_region_split(d, pos, seq![(0x06 + (n - 1) * 32) as u8], spec_le_of(x as int, n));
            assert(d[pos + 0] == seq![(0x06 + (n - 1) * 32) as u8][0]);
            lemma_rt_scalar(d, pos, 0x06, n, x as int);
            lemma_sign_ext_round(x as int, n);
        },
        EncodedValueV::Float(x) => {
            let z = spec_trailing_zeros(x as int, 3);
            let n = 4 - z;
            let w = x as int / spec_pow256(z);
            lemma_trailing_zeros(x as int, 3);
            lemma_div_pow_bound(x as int, z, 4);
            lemma_le_of_len(w, n);
            lemma_region_split(d, pos, seq![(0x10 + (n - 1) * 32) as u8], spec_le_of(w, n));
            assert(d[pos + 0] == seq![(0x10 + (n - 1) * 32) as u8][0]);
            lemma_rt_scalar(d, pos, 0x10, n, w);
            vstd::arithmetic::div_mod::lemma_fundamental_div_mod_converse(
                w,
                spec_pow256(n),
                0,
                w,
            );
            assert(w * spec_pow256(z) == spec_pow256(z) * w) by {
                vstd::arithmetic::mul::lemma_mul_is_commutative(w, spec_pow256(z));
            }
            assert(w * spec_pow256(3 - (n - 1)) == x as int);
        },
        EncodedValueV::Double(x) => {
            let z = spec_trailing_zeros(x as int, 7);
            let n = 8 - z;
            let w = x as int / spec_pow256(z);
            lemma_trailing_zeros(x as int, 7);
            lemma_div_pow_bound(x as int, z, 8);
            lemma_le_of_len(w, n);
            lemma_region_split(d, pos, seq![(0x11 + (n - 1) * 32) as u8], spec_le_of(w, n));
            assert(d[pos + 0] == seq![(0x11 + (n - 1) * 32) as u8][0]);
            lemma_rt_scalar(d, pos, 0x11, n, w);
            vstd::arithmetic::div_mod::lemma_fundamental_div_mod_converse(
                w,
                spec_pow256(n),
                0,
                w,
            );
            assert(w * spec_pow256(z) == spec_pow256(z) * w) by {
                vstd::arithmetic::mul::lemma_mul_is_commutative(w, spec_pow256(z));
            }
            assert(w * spec_pow256(7 - (n - 1)) == x as int);
        },
        EncodedValueV::MethodType(x) => {
            let n = spec_unsigned_len(x as int);
            lemma_unsigned_len_bounds(x as int);
            lemma_unsigned_len_le(x as int, 4);
            lemma_le_of_len(x as int, n);
            lemma_region_split(d, pos, seq![(0x15 + (n - 1) * 32) as u8], spec_le_of(x as int, n));
            assert(d[pos + 0] == seq![(0x15 + (n - 1) * 32) as u8][0]);
            lemma_rt_u32_kind(d, pos, 0x15, x);
        },
        EncodedValueV::MethodHandle(x) => {
            let n = spec_unsigned_len(x as int);
            lemma_unsigned_len_bounds(x as int);
            lemma_unsigned_len_le(x as int, 4);
            lemma_le_of_len(x as int, n);
            lemma_region_split(d, pos, seq![(0x16 + (n - 1) * 32) as u8], spec_le_of(x as int, n));
            assert(d[pos + 0] == seq![(0x16 + (n - 1) * 32) as u8][0]);
            lemma_rt_u32_kind(d, pos, 0x16, x);
        },
        EncodedValueV::String(x) => {
            let n = spec_unsigned_len(x as int);
            lemma_unsigned_len_bounds(x as int);
            lemma_unsigned_len_le(x as int, 4);
            lemma_le_of_len(x as int, n);
            lemma_region_split(d, pos, seq![(0x17 + (n - 1) * 32) as u8], spec_le_of(x as int, n));
            assert(d[pos + 0] == seq![(0x17 + (n - 1) * 32) as u8][0]);
            lemma_rt_u32_kind(d, pos, 0x17, x);
        },
        EncodedValueV::Type(x) => {
            let n = spec_unsigned_len(x as int);
            lemma_unsigned_len_bounds(x as int);
            lemma_unsigned_len_le(x as int, 4);
            lemma_le_of_len(x as int, n);
            lemma_region_split(d, pos, seq![(0x18 + (n - 1) * 32) as u8], spec_le_of(x as int, n));
            assert(d[pos + 0] == seq![(0x18 + (n - 1) * 32) as u8][0]);
            lemma_rt_u32_kind(d, pos, 0x18, x);
        },
        EncodedValueV::Field(x) => {
            let n = spec_unsigned_len(x as int);
            lemma_unsigned_len_bounds(x as int);
            lemma_unsigned_len_le(x as int, 4);
            lemma_le_of_len(x as int, n);
            lemma_region_split(d, pos, seq![(0x19 + (n - 1) * 32) as u8], spec_le_of(x as int, n));
            assert(d[pos + 0] == seq![(0x19 + (n - 1) * 32) as u8][0]);
            lemma_rt_u32_kind(d, pos, 0x19, x);
        },
        EncodedValueV::Method(x) => {
            let n = spec_unsigned_len(x as int);
            lemma_unsigned_len_bounds(x as int);
            lemma_unsigned_len_le(x as int, 4);
            lemma_le_of_len(x as int, n);
            lemma_region_split(d, pos, seq![(0x1a + (n - 1) * 32) as u8], spec_le_of(x as int, n));
            assert(d[pos + 0] == seq![(0x1a + (n - 1) * 32) as u8][0]);
            lemma_rt_u32_kind(d, pos, 0x1a, x);
        },
        EncodedValueV::Enum(x) => {
            let n = spec_unsigned_len(x as int);
            lemma_unsigned_len_bounds(x as int);
            lemma_unsigned_len_le(x as int, 4);
            lemma_le_of_len(x as int, n);
            lemma_region_split(d, pos, seq![(0x1b + (n - 1) * 32) as u8], spec_le_of(x as int, n));
            assert(d[pos + 0] == seq![(0x1b + (n - 1) * 32) as u8][0]);
            lemma_rt_u32_kind(d, pos, 0x1b, x);
        },
        EncodedValueV::Array(vs) => {
            let ul = crate::leb128::spec_encode_uleb128(vs.len() as int);
            let ev = spec_encode_values(vs);
            assert(e == seq![0x1cu8] + (ul + ev)) by {
                assert((seq![0x1cu8] + ul) + ev =~= seq![0x1cu8] + (ul + ev));
            }
            lemma_region_split(d, pos, seq![0x1cu8], ul + ev);
            assert(d[pos + 0] == seq![0x1cu8][0]);
            lemma_region_split(d, pos + 1, ul, ev);
            crate::leb128::lemma_uleb128_round_trip(d, pos + 1, vs.len() as u64);
            lemma_encoded_values_round_trip(d, pos + 1 + ul.len(), vs, depth);
        },
        EncodedValueV::Annotation(a) => {
            let ea = spec_encode_annotation(a);
            lemma_region_split(d, pos, seq![0x1du8], ea);
            assert(d[pos + 0] == seq![0x1du8][0]);
            lemma_encoded_annotation_round_trip(d, pos + 1, a, depth);
        },
        EncodedValueV::Null => {
            assert(d[pos + 0] == e[0]);
        },
        EncodedValueV::Boolean(b) => {
            assert(d[pos + 0] == e[0]);
            if b {
                assert(d[pos] as int == 0x3f);
                vstd::arithmetic::div_mod::lemma_fundamental_div_mod_converse(0x3f, 32, 1, 0x1f);
            } else {
                assert(d[pos] as int == 0x1f);
            }
        },
    }
}

/// The scalar round trip shared by the seven index-carrying kinds.
proof fn lemma_rt_u32_kind(d: Seq<u8>, pos: int, tag: int, x: u32)
    requires
        0x15 <= tag <= 0x1b,
        0 <= pos,
        pos + 1 + spec_unsigned_len(x as int) <= d.len(),
        d[pos] as int == tag + 32 * (spec_unsigned_len(x as int) - 1),
        d.subrange(pos + 1, pos + 1 + spec_unsigned_len(x as int)) == spec_le_of(
            x as int,
            spec_unsigned_len(x as int),
        ),
    ensures
        d[pos] as int % 32 == tag,
        d[pos] as int / 32 == spec_unsigned_len(x as int) - 1,
        spec_unsigned_len(x as int) <= 4,
        spec_payload(d, pos + 1, spec_unsigned_len(x as int)) == Ok::<(int, int), DexError>(
            (x as int, pos + 1 + spec_unsigned_len(x as int)),
        ),
{
    lemma_pow256_vals();
    let n = spec_unsigned_len(x as int);
    lemma_unsigned_len_bounds(x as int);
    lemma_unsigned_len_le(x as int, 4);
    lemma_rt_scalar(d, pos, tag, n, x as int);
    vstd::arithmetic::div_mod::lemma_fundamental_div_mod_converse(
        x as int,
        spec_pow256(n),
        0,
        x as int,
    );
}

/// Round trip of a run of values.
pub proof fn lemma_encoded_values_round_trip(d: Seq<u8>, pos: int, s: Seq<EncodedValueV>, depth: nat)
    requires
        spec_values_wf(s),
        s.len() != 0 ==> spec_values_depth(s) < depth,
        0 <= pos,
        d.len() <= usize::MAX,
        pos + spec_encode_values(s).len() <= d.len(),
        d.subrange(pos, pos + spec_encode_values(s).len() as int) == spec_encode_values(s),
    ensures
        spec_decode_values(d, pos, s.len() as int, depth) == Ok::<
            (Seq<EncodedValueV>, int),
            DexError,
        >((s, pos + spec_encode_values(s).len())),
    decreases s, 1int,
{
    if s.len() != 0 {
        let h = spec_encode_value(s[0]);
        let t = spec_encode_values(s.skip(1));
        lemma_region_split(d, pos, h, t);
        lemma_values_depth_nonneg(s);
        lemma_value_depth_pos(s[0]);
        assert(spec_value_depth(s[0]) <= spec_values_depth(s));
        assert(spec_values_depth(s.skip(1)) <= spec_values_depth(s));
        lemma_encoded_value_round_trip(d, pos, s[0], (depth - 1) as nat);
        lemma_encoded_values_round_trip(d, pos + h.len(), s.skip(1), depth);
        assert(seq![s[0]] + s.skip(1) =~= s);
    } else {
        assert(s =~= Seq::<EncodedValueV>::empty());
    }
}

/// Round trip of an annotation body.
pub proof fn lemma_encoded_annotation_round_trip(
    d: Seq<u8>,
    pos: int,
    a: EncodedAnnotationV,
    depth: nat,
)
    requires
        a.elements.len() <= u64::MAX,
        spec_elements_wf(a.elements),
        a.elements.len() != 0 ==> spec_elements_depth(a.elements) < depth,
        0 <= pos,
        d.len() <= usize::MAX,
        pos + spec_encode_annotation(a).len() <= d.len(),
        d.subrange(pos, pos + spec_encode_annotation(a).len() as int) == spec_encode_annotation(a),
    ensures
        spec_decode_annotation(d, pos, depth) == Ok::<(EncodedAnnotationV, int), DexError>(
            (a, pos + spec_encode_annotation(a).len()),
        ),
    decreases a, 1int,
{
    let u1 = crate::leb128::spec_encode_uleb128(a.type_idx as int);
    let u2 = crate::leb128::spec_encode_uleb128(a.elements.len() as int);
    let els = spec_encode_elements(a.elements);
    assert(spec_encode_annotation(a) == u1 + (u2 + els)) by {
        assert((u1 + u2) + els =~= u1 + (u2 + els));
    }
    lemma_region_split(d, pos, u1, u2 + els);
    lemma_region_split(d, pos + u1.len(), u2, els);
    crate::leb128::lemma_uleb128_round_trip(d, pos, a.type_idx);
    crate::leb128::lemma_uleb128_round_trip(d, pos + u1.len(), a.elements.len() as u64);
    lemma_encoded_elements_round_trip(d, pos + u1.len() + u2.len(), a.elements, depth);
}

/// Round trip of a run of annotation elements.
pub proof fn lemma_encoded_elements_round_trip(
    d: Seq<u8>,
    pos: int,
    s: Seq<AnnotationElementV>,
    depth: nat,
)
    requires
        spec_elements_wf(s),
        s.len() != 0 ==> spec_elements_depth(s) < depth,
        0 <= pos,
        d.len() <= usize::MAX,
        pos + spec_encode_elements(s).len() <= d.len(),
        d.subrange(pos, pos + spec_encode_elements(s).len() as int) == spec_encode_elements(s),
    ensures
        spec_decode_elements(d, pos, s.len() as int, depth) == Ok::<
            (Seq<AnnotationElementV>, int),
            DexError,
        >((s, pos + spec_encode_elements(s).len())),
    decreases s, 2int,
{
    if s.len() != 0 {
        let u1 = crate::leb128::spec_encode_uleb128(s[0].name_idx as int);
        let h = spec_encode_value(s[0].value);
        let t = spec_encode_elements(s.skip(1));
        assert(spec_encode_elements(s) == u1 + (h + t)) by {
            assert((u1 + h) + t =~= u1 + (h + t));
        }
        lemma_region_split(d, pos, u1, h + t);
        lemma_region_split(d, pos + u1.len(), h, t);
        crate::leb128::lemma_uleb128_round_trip(d, pos, s[0].name_idx);
        lemma_elements_depth_nonneg(s);
        lemma_value_depth_pos(s[0].value);
        assert(spec_value_depth(s[0].value) <= spec_elements_depth(s));
        assert(spec_elements_depth(s.skip(1)) <= spec_elements_depth(s));
        assert(decreases_to!(s => s[0]));
        lemma_encoded_value_round_trip(d, pos + u1.len(), s[0].value, (depth - 1) as nat);
        lemma_encoded_elements_round_trip(d, pos + u1.len() + h.len(), s.skip(1), depth);
        assert(seq![AnnotationElementV { name_idx: s[0].name_idx, value: s[0].value }] + s.skip(1)
            =~= s);
    } else {
        assert(s =~= Seq::<AnnotationElementV>::empty());
    }
}

proof fn lemma_evs_view_props(s: Seq<EncodedValue>)
    ensures
        evs_view(s).len() == s.len(),
        forall|i: int| 0 <= i < s.len() ==> evs_view(s)[i] == ev_view(s[i]),
    decreases s,
{
    if s.len() != 0 {
        lemma_evs_view_props(s.skip(1));
        assert forall|i: int| 0 <= i < s.len() implies evs_view(s)[i] == ev_view(s[i]) by {
            if i > 0 {
                assert(evs_view(s)[i] == evs_view(s.skip(1))[i - 1]);
                assert(s.skip(1)[i - 1] == s[i]);
            }
        }
    }
}

proof fn lemma_els_view_props(s: Seq<AnnotationElement>)
    ensures
        els_view(s).len() == s.len(),
        forall|i: int|
            0 <= i < s.len() ==> els_view(s)[i] == (AnnotationElementV {
                name_idx: s[i].name_idx,
                value: ev_view(s[i].value),
            }),
    decreases s,
{
    if s.len() != 0 {
        lemma_els_view_props(s.skip(1));
        assert forall|i: int|
            0 <= i < s.len() implies els_view(s)[i] == (AnnotationElementV {
                name_idx: s[i].name_idx,
                value: ev_view(s[i].value),
            }) by {
            if i > 0 {
                assert(els_view(s)[i] == els_view(s.skip(1))[i - 1]);
                assert(s.skip(1)[i - 1] == s[i]);
            }
        }
    }
}

/// The Euclidean quotient of `v` by 256; for a negative `v` this is the
/// arithmetic shift the encoders need.
fn div256_floor(v: i64) -> (q: i64)
    ensures
        q as int == (v as int) / 256,
{
    if v >= 0 {
        v / 256
    } else {
        let m: u64 = (-(v + 1)) as u64;
        proof {
            vstd::arithmetic::div_mod::lemma_fundamental_div_mod(m as int, 256);
            vstd::arithmetic::div_mod::lemma_fundamental_div_mod_converse(
                v as int,
                256,
                -((m as int) / 256) - 1,
                255 - (m as int) % 256,
            );
        }
        -((m / 256) as i64) - 1
    }
}

/// The low byte of `v` in two's complement: its Euclidean remainder by 256.
fn low_byte(v: i64) -> (b: u8)
    ensures
        b as int == (v as int) % 256,
{
    if v >= 0 {
        (v % 256) as u8
    } else {
        let m: u64 = (-(v + 1)) as u64;
        proof {
            vstd::arithmetic::div_mod::lemma_fundamental_div_mod(m as int, 256);
            vstd::arithmetic::div_mod::lemma_fundamental_div_mod_converse(
                v as int,
                256,
                -((m as int) / 256) - 1,
                255 - (m as int) % 256,
            );
        }
        255 - (m % 256) as u8
    }
}

/// The minimal unsigned payload width of `v`.
fn unsigned_len_exec(v: u64) -> (n: u8)
    ensures
        n as int == spec_unsigned_len(v as int),
        1 <= n <= 8,
    decreases v,
{
    proof {
        lemma_pow256_vals();
        lemma_unsigned_len_bounds(v as int);
        lemma_unsigned_len_le(v as int, 8);
    }
    if v < 256 {
        1
    } else {
        1 + unsigned_len_exec(v / 256)
    }
}

/// The minimal signed payload width of `v`.
fn signed_len_exec(v: i64) -> (n: u8)
    ensures
        n as int == spec_signed_len(v as int),
        1 <= n <= 8,
    decreases (if v >= 0 { v as int } else { -(v as int + 1) }),
{
    proof {
        lemma_pow256_vals();
        lemma_signed_len_bounds(v as int);
        lemma_signed_len_le(v as int, 8);
    }
    if -128 <= v && v < 128 {
        1
    } else {
        1 + signed_len_exec(div256_floor(v))
    }
}

/// How many trailing zero bytes a right-extended payload carries, capped.
fn trailing_zeros_exec(v: u64, max: u8) -> (z: u8)
    ensures
        z as int == spec_trailing_zeros(v as int, max as int),
        z <= max,
    decreases max,
{
    if max == 0 || v % 256 != 0 {
        0
    } else {
        1 + trailing_zeros_exec(v / 256, max - 1)
    }
}

/// Appends the `n`-byte little-endian image of `v`.
fn write_le_unsigned(out: &mut Vec<u8>, v: u64, n: u8)
    ensures
        final(out)@ == old(out)@ + spec_le_of(v as int, n as int),
    decreases n,
{
    if n == 0 {
        proof {
            assert(out@ =~= out@ + spec_le_of(v as int, 0));
        }
    } else {
        out.push((v % 256) as u8);
        write_le_unsigned(out, v / 256, n - 1);
        proof {
            assert(old(out)@ + spec_le_of(v as int, n as int) =~= (old(out)@ + seq![
                ((v as int) % 256) as u8,
            ]) + spec_le_of(v as int / 256, n as int - 1));
        }
    }
}

/// Appends the `n`-byte little-endian two's-complement image of `v`.
fn write_le_signed(out: &mut Vec<u8>, v: i64, n: u8)
    ensures
        final(out)@ == old(out)@ + spec_le_of(v as int, n as int),
    decreases n,
{
    if n == 0 {
        proof {
            assert(out@ =~= out@ + spec_le_of(v as int, 0));
        }
    } else {
        let b = low_byte(v);
        let q = div256_floor(v);
        out.push(b);
        write_le_signed(out, q, n - 1);
        proof {
            assert(old(out)@ + spec_le_of(v as int, n as int) =~= (old(out)@ + seq![
                ((v as int) % 256) as u8,
            ]) + spec_le_of(v as int / 256, n as int - 1));
        }
    }
}

/// Encodes one value canonically: the minimal argument for scalars, trailing
/// zero bytes dropped for floats.
pub fn encode_value(v: &EncodedValue) -> (out: Vec<u8>)
    ensures
        out@ == spec_encode_value(v@),
    decreases v, 1int,
{
    proof {
        lemma_pow256_vals();
    }
    match v {
        EncodedValue::Byte(x) => {
            let mut out: Vec<u8> = Vec::new();
            out.push(0x00);
            out.push(*x);
            proof {
                assert(out@ =~= spec_encode_value(v@));
            }
            out
        },
        EncodedValue::Short(x) => {
            let n = signed_len_exec(*x as i64);
            let mut out: Vec<u8> = Vec::new();
            out.push(0x02 + (n - 1) * 32);
            write_le_signed(&mut out, *x as i64, n);
            proof {
                assert(out@ =~= spec_encode_value(v@));
            }
            out
        },
        EncodedValue::Char(x) => {
            let n = unsigned_len_exec(*x as u64);
            let mut out: Vec<u8> = Vec::new();
            out.push(0x03 + (n - 1) * 32);
            write_le_unsigned(&mut out, *x as u64, n);
            proof {
                assert(out@ =~= spec_encode_value(v@));
            }
            out
        },
        EncodedValue::Int(x) => {
            let n = signed_len_exec(*x as i64);
            let mut out: Vec<u8> = Vec::new();
            out.push(0x04 + (n - 1) * 32);
            write_le_signed(&mut out, *x as i64, n);
            proof {
                assert(out@ =~= spec_encode_value(v@));
            }
            out
        },
        EncodedValue::Long(x) => {
            let n = signed_len_exec(*x);
            let mut out: Vec<u8> = Vec::new();
            out.push(0x06 + (n - 1) * 32);
            write_le_signed(&mut out, *x, n);
            proof {
                assert(out@ =~= spec_encode_value(v@));
            }
            out
        },
        EncodedValue::Float(x) => {
            let z = trailing_zeros_exec(*x as u64, 3);
            let n: u8 = 4 - z;
            let div: u64 = match z {
                0 => 1,
                1 => 0x100,
                2 => 0x1_0000,
                _ => 0x100_0000,
            };
            let w = *x as u64 / div;
            let mut out: Vec<u8> = Vec::new();
            out.push(0x10 + (n - 1) * 32);
            write_le_unsigned(&mut out, w, n);
            proof {
                assert(out@ =~= spec_encode_value(v@));
            }
            out
        },
        EncodedValue::Double(x) => {
            let z = trailing_zeros_exec(*x, 7);
            let n: u8 = 8 - z;
            let div: u64 = match z {
                0 => 1,
                1 => 0x100,
                2 => 0x1_0000,
                3 => 0x100_0000,
                4 => 0x1_0000_0000,
                5 => 0x100_0000_0000,
                6 => 0x1_0000_0000_0000,
                _ => 0x100_0000_0000_0000,
            };
            let w = *x / div;
            let mut out: Vec<u8> = Vec::new();
            out.push(0x11 + (n - 1) * 32);
            write_le_unsigned(&mut out, w, n);
            proof {
                assert(out@ =~= spec_encode_value(v@));
            }
            out
        },
        EncodedValue::MethodType(x) => {
            encode_u32_kind(0x15, *x)
        },
        EncodedValue::MethodHandle(x) => {
            encode_u32_kind(0x16, *x)
        },
        EncodedValue::String(x) => {
            encode_u32_kind(0x17, *x)
        },
        EncodedValue::Type(x) => {
            encode_u32_kind(0x18, *x)
        },
        EncodedValue::Field(x) => {
            encode_u32_kind(0x19, *x)
        },
        EncodedValue::Method(x) => {
            encode_u32_kind(0x1a, *x)
        },
        EncodedValue::Enum(x) => {
            encode_u32_kind(0x1b, *x)
        },
        EncodedValue::Array(vs) => {
            let ghost vsv = evs_view(vs@);
            proof {
                lemma_evs_view_props(vs@);
            }
            let mut out: Vec<u8> = Vec::new();
            out.push(0x1c);
            let mut ul = crate::leb128::encode_uleb128(vs.len() as u64);
            out.append(&mut ul);
            let n = vs.len();
            let mut i: usize = 0;
            proof {
                assert(out@ + spec_encode_values(vsv.skip(0)) == seq![0x1cu8]
                    + crate::leb128::spec_encode_uleb128(vsv.len() as int) + spec_encode_values(
                    vsv,
                )) by {
                    assert(vsv.skip(0) =~= vsv);
                    assert(out@ =~= seq![0x1cu8] + crate::leb128::spec_encode_uleb128(
                        vsv.len() as int,
                    ));
                }
            }
            while i < n
                invariant
                    *v == EncodedValue::Array(*vs),
                    i <= n,
                    n == vs.len(),
                    vsv == evs_view(vs@),
                    evs_view(vs@).len() == vs@.len(),
                    forall|j: int| 0 <= j < vs@.len() ==> evs_view(vs@)[j] == ev_view(vs@[j]),
                    out@ + spec_encode_values(vsv.skip(i as int)) == seq![0x1cu8]
                        + crate::leb128::spec_encode_uleb128(vsv.len() as int)
                        + spec_encode_values(vsv),
                decreases n - i,
            {
                proof {
                    assert(decreases_to!(*v => (*v)->Array_0));
                    assert((*v)->Array_0 == *vs);
                    assert(decreases_to!(*vs => vs@));
                    assert(decreases_to!(vs@ => vs@[i as int]));
                }
                let mut e = encode_value(&vs[i]);
                proof {
                    assert(vsv.skip(i as int)[0] == vsv[i as int]);
                    assert(vsv.skip(i as int).skip(1) =~= vsv.skip(i as int + 1));
                    assert((out@ + e@) + spec_encode_values(vsv.skip(i as int + 1)) =~= out@ + (e@
                        + spec_encode_values(vsv.skip(i as int + 1))));
                }
                out.append(&mut e);
                i = i + 1;
            }
            proof {
                assert(spec_encode_values(vsv.skip(n as int)) =~= Seq::<u8>::empty());
                assert(out@ + Seq::<u8>::empty() =~= out@);
            }
            out
        },
        EncodedValue::Annotation(a) => {
            let mut out: Vec<u8> = Vec::new();
            out.push(0x1d);
            proof {
                assert(decreases_to!(*v => (*v)->Annotation_0));
                assert((*v)->Annotation_0 == *a);
            }
            let mut body = encode_annotation(a);
            out.append(&mut body);
            proof {
                assert(seq![0x1du8] + spec_encode_annotation(ea_view(*a)) =~= out@);
            }
            out
        },
        EncodedValue::Null => {
            let mut out: Vec<u8> = Vec::new();
            out.push(0x1e);
            proof {
                assert(out@ =~= spec_encode_value(v@));
            }
            out
        },
        EncodedValue::Boolean(b) => {
            let mut out: Vec<u8> = Vec::new();
            out.push(if *b { 0x3f } else { 0x1f });
            proof {
                assert(out@ =~= spec_encode_value(v@));
            }
            out
        },
    }
}

/// Encodes one of the seven index-carrying kinds.
fn encode_u32_kind(tag: u8, x: u32) -> (out: Vec<u8>)
    requires
        0x15 <= tag <= 0x1b,
    ensures
        out@ == seq![(tag + (spec_unsigned_len(x as int) - 1) * 32) as u8] + spec_le_of(
            x as int,
            spec_unsigned_len(x as int),
        ),
{
    let n = unsigned_len_exec(x as u64);
    let mut out: Vec<u8> = Vec::new();
    out.push(tag + (n - 1) * 32);
    write_le_unsigned(&mut out, x as u64, n);
    proof {
        assert(out@ =~= seq![(tag + (spec_unsigned_len(x as int) - 1) * 32) as u8] + spec_le_of(
            x as int,
            spec_unsigned_len(x as int),
        ));
    }
    out
}

/// Encodes an annotation body canonically.
pub fn encode_annotation(a: &EncodedAnnotation) -> (out: Vec<u8>)
    ensures
        out@ == spec_encode_annotation(a@),
    decreases a, 0int,
{
    let ghost elsv = els_view(a.elements@);
    proof {
        lemma_els_view_props(a.elements@);
    }
    let mut out = crate::leb128::encode_uleb128(a.type_idx);
    let mut cnt = crate::leb128::encode_uleb128(a.elements.len() as u64);
    out.append(&mut cnt);
    let n = a.elements.len();
    let mut i: usize = 0;
    proof {
        assert(out@ + spec_encode_elements(elsv.skip(0)) == spec_encode_annotation(ea_view(*a)))
            by {
            assert(elsv.skip(0) =~= elsv);
        }
    }
    while i < n
        invariant
            i <= n,
            n == a.elements.len(),
            elsv == els_view(a.elements@),
            els_view(a.elements@).len() == a.elements@.len(),
            forall|j: int|
                0 <= j < a.elements@.len() ==> els_view(a.elements@)[j] == (AnnotationElementV {
                    name_idx: a.elements@[j].name_idx,
                    value: ev_view(a.elements@[j].value),
                }),
            out@ + spec_encode_elements(elsv.skip(i as int)) == spec_encode_annotation(
                ea_view(*a),
            ),
        decreases n - i,
    {
        let mut nm = crate::leb128::encode_uleb128(a.elements[i].name_idx);
        proof {
            assert(decreases_to!(*a => a.elements));
            assert(decreases_to!(a.elements => a.elements@));
            assert(decreases_to!(a.elements@ => a.elements@[i as int]));
        }
        let mut ev = encode_value(&a.elements[i].value);
        proof {
            assert(elsv.skip(i as int)[0] == elsv[i as int]);
            assert(elsv.skip(i as int).skip(1) =~= elsv.skip(i as int + 1));
            assert(((out@ + nm@) + ev@) + spec_encode_elements(elsv.skip(i as int + 1)) =~= out@
                + ((nm@ + ev@) + spec_encode_elements(elsv.skip(i as int + 1))));
            assert((nm@ + ev@) + spec_encode_elements(elsv.skip(i as int + 1)) =~= nm@ + (ev@
                + spec_encode_elements(elsv.skip(i as int + 1))));
        }
        out.append(&mut nm);
        out.append(&mut ev);
        i = i + 1;
    }
    proof {
        assert(spec_encode_elements(elsv.skip(n as int)) =~= Seq::<u8>::empty());
        assert(out@ + Seq::<u8>::empty() =~= out@);
    }
    out
}

/// The byte-level round trip on canonical encodings: decoding such a region
/// and re-encoding what was decoded yields the original bytes.
pub proof fn lemma_encoded_value_reencode(d: Seq<u8>, pos: int, v: EncodedValueV, depth: nat)
    requires
        spec_value_wf(v),
        spec_value_depth(v) <= depth,
        0 <= pos,
        d.len() <= usize::MAX,
        pos + spec_encode_value(v).len() <= d.len(),
        d.subrange(pos, pos + spec_encode_value(v).len() as int) == spec_encode_value(v),
    ensures
        spec_decode_value(d, pos, depth) matches Ok(p) && spec_encode_value(p.0) == d.subrange(
            pos,
            pos + spec_encode_value(v).len() as int,
        ),
{
    lemma_encoded_value_round_trip(d, pos, v, depth);
}

} // verus!
