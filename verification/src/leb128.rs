//! The LEB128 codec: unsigned and signed variable-width integers, seven data
//! bits per byte, least significant group first, continuation bit in the top
//! bit.
//!
//! A value occupies at most ten bytes; the tenth may carry nothing beyond what
//! completes 64 bits, so decoding never leaves the range of `u64` or `i64`.
//! The encoders emit the minimum-length form, and the round-trip lemmas at the
//! end state that decoding an encoding yields the value back and that no
//! shorter encoding exists.

use vstd::prelude::*;

use crate::err::{derr, DexError, DexErrorKind};

verus! {

/// The largest value an unsigned decode can yield when `left` bytes may still
/// be read; with all ten bytes it is exactly `u64::MAX`.
pub open spec fn spec_uleb_bound(left: nat) -> int
    decreases left,
{
    if left <= 1 {
        1
    } else {
        127 + 128 * spec_uleb_bound((left - 1) as nat)
    }
}

/// Magnitude bound for a signed decode with `left` bytes still readable: the
/// value lies in `[-bound, bound - 1]`; with all ten bytes the bound is 2^63.
pub open spec fn spec_sleb_bound(left: nat) -> int
    decreases left,
{
    if left <= 1 {
        1
    } else {
        128 * spec_sleb_bound((left - 1) as nat)
    }
}

/// Unsigned decode with `left` bytes still allowed to be read. The byte read
/// when `left == 1` is the tenth overall: it must be `0x00` or `0x01`, else
/// the value cannot fit 64 bits.
pub open spec fn spec_uleb_rec(d: Seq<u8>, pos: int, left: nat) -> Result<(int, int), DexError>
    decreases left,
{
    if left == 0 {
        Err(derr(DexErrorKind::LebOverflow, pos))
    } else if pos < 0 || pos >= d.len() {
        Err(derr(DexErrorKind::Truncated, pos))
    } else {
        let b = d[pos] as int;
        if left == 1 && b > 1 {
            Err(derr(DexErrorKind::LebOverflow, pos))
        } else if b < 128 {
            Ok((b, pos + 1))
        } else {
            match spec_uleb_rec(d, pos + 1, (left - 1) as nat) {
                Ok((v, end)) => Ok((b - 128 + 128 * v, end)),
                Err(e) => Err(e),
            }
        }
    }
}

/// Signed decode with `left` bytes still allowed to be read. A terminal byte
/// is interpreted as a 7-bit two's-complement group; the byte read when
/// `left == 1` must be `0x00` or `0x7f`.
pub open spec fn spec_sleb_rec(d: Seq<u8>, pos: int, left: nat) -> Result<(int, int), DexError>
    decreases left,
{
    if left == 0 {
        Err(derr(DexErrorKind::LebOverflow, pos))
    } else if pos < 0 || pos >= d.len() {
        Err(derr(DexErrorKind::Truncated, pos))
    } else {
        let b = d[pos] as int;
        if left == 1 && !(b == 0x00 || b == 0x7f) {
            Err(derr(DexErrorKind::LebOverflow, pos))
        } else if b < 128 {
            Ok((if b >= 64 { b - 128 } else { b }, pos + 1))
        } else {
            match spec_sleb_rec(d, pos + 1, (left - 1) as nat) {
                Ok((v, end)) => Ok((b - 128 + 128 * v, end)),
                Err(e) => Err(e),
            }
        }
    }
}

/// What `read_uleb128` returns on `d` at `pos`.
pub open spec fn spec_read_uleb128(d: Seq<u8>, pos: int) -> Result<(u64, usize), DexError> {
    match spec_uleb_rec(d, pos, 10) {
        Ok((v, end)) => Ok((v as u64, end as usize)),
        Err(e) => Err(e),
    }
}

/// What `read_sleb128` returns on `d` at `pos`.
pub open spec fn spec_read_sleb128(d: Seq<u8>, pos: int) -> Result<(i64, usize), DexError> {
    match spec_sleb_rec(d, pos, 10) {
        Ok((v, end)) => Ok((v as i64, end as usize)),
        Err(e) => Err(e),
    }
}

/// What `read_uleb128p1` returns: the unsigned value minus one, rejecting
/// values that do not fit `i64` after the shift.
pub open spec fn spec_read_uleb128p1(d: Seq<u8>, pos: int) -> Result<(i64, usize), DexError> {
    match spec_uleb_rec(d, pos, 10) {
        Ok((v, end)) => if v > i64::MAX as int {
            Err(derr(DexErrorKind::LebOverflow, pos))
        } else {
            Ok(((v - 1) as i64, end as usize))
        },
        Err(e) => Err(e),
    }
}

proof fn lemma_uleb_bound_at_least(left: nat)
    ensures
        spec_uleb_bound(left) >= 1,
        spec_sleb_bound(left) >= 1,
    decreases left,
{
    if left > 1 {
        lemma_uleb_bound_at_least((left - 1) as nat);
    }
}

/// Both decode bounds fit the machine words when at most ten bytes remain.
proof fn lemma_leb_bound_fits(left: nat)
    requires
        1 <= left <= 10,
    ensures
        spec_uleb_bound(left) <= u64::MAX as int,
        spec_sleb_bound(left) <= 0x8000_0000_0000_0000,
    decreases left,
{
    assert(spec_uleb_bound(10) == u64::MAX as int && spec_sleb_bound(10)
        == 0x8000_0000_0000_0000) by {
        reveal_with_fuel(spec_uleb_bound, 11);
        reveal_with_fuel(spec_sleb_bound, 11);
    }
    if left < 10 {
        lemma_uleb_bound_monotone(left, 10);
    }
}

proof fn lemma_uleb_bound_monotone(a: nat, b: nat)
    requires
        1 <= a <= b,
    ensures
        spec_uleb_bound(a) <= spec_uleb_bound(b),
        spec_sleb_bound(a) <= spec_sleb_bound(b),
    decreases b,
{
    if a < b {
        lemma_uleb_bound_monotone(a, (b - 1) as nat);
        lemma_uleb_bound_at_least((b - 1) as nat);
    }
}

/// Every successful unsigned decode stays within the bound for its budget.
proof fn lemma_uleb_rec_bound(d: Seq<u8>, pos: int, left: nat)
    ensures
        spec_uleb_rec(d, pos, left) matches Ok(p) ==> 0 <= p.0 <= spec_uleb_bound(left) && pos
            < p.1 <= d.len(),
    decreases left,
{
    if left > 1 {
        lemma_uleb_bound_at_least((left - 1) as nat);
        if 0 <= pos < d.len() && d[pos] as int >= 128 {
            lemma_uleb_rec_bound(d, pos + 1, (left - 1) as nat);
        }
    }
}

/// Every successful signed decode stays within the magnitude bound for its
/// budget.
proof fn lemma_sleb_rec_bound(d: Seq<u8>, pos: int, left: nat)
    ensures
        spec_sleb_rec(d, pos, left) matches Ok(p) ==> -spec_sleb_bound(left) <= p.0
            < spec_sleb_bound(left) && pos < p.1 <= d.len(),
    decreases left,
{
    if left > 1 {
        lemma_uleb_bound_at_least((left - 1) as nat);
        if 0 <= pos < d.len() && d[pos] as int >= 128 {
            lemma_sleb_rec_bound(d, pos + 1, (left - 1) as nat);
        }
    }
}

fn uleb_rec(data: &[u8], pos: usize, left: u8) -> (r: Result<(u64, usize), DexError>)
    requires
        1 <= left <= 10,
    ensures
        match spec_uleb_rec(data@, pos as int, left as nat) {
            Ok(p) => r == Ok::<(u64, usize), DexError>((p.0 as u64, p.1 as usize)),
            Err(e) => r == Err::<(u64, usize), DexError>(e),
        },
    decreases left,
{
    proof {
        lemma_uleb_rec_bound(data@, pos as int, left as nat);
        lemma_leb_bound_fits(left as nat);
    }
    if pos >= data.len() {
        return Err(DexError::new(DexErrorKind::Truncated, pos));
    }
    let b = data[pos];
    if left == 1 && b > 1 {
        return Err(DexError::new(DexErrorKind::LebOverflow, pos));
    }
    if b < 128 {
        Ok((b as u64, pos + 1))
    } else {
        proof {
            lemma_uleb_rec_bound(data@, pos as int + 1, (left - 1) as nat);
            lemma_leb_bound_fits((left - 1) as nat);
        }
        match uleb_rec(data, pos + 1, left - 1) {
            Ok((v, end)) => Ok(((b - 128) as u64 + 128 * v, end)),
            Err(e) => Err(e),
        }
    }
}

fn sleb_rec(data: &[u8], pos: usize, left: u8) -> (r: Result<(i64, usize), DexError>)
    requires
        1 <= left <= 10,
    ensures
        match spec_sleb_rec(data@, pos as int, left as nat) {
            Ok(p) => r == Ok::<(i64, usize), DexError>((p.0 as i64, p.1 as usize)),
            Err(e) => r == Err::<(i64, usize), DexError>(e),
        },
    decreases left,
{
    proof {
        lemma_sleb_rec_bound(data@, pos as int, left as nat);
        lemma_leb_bound_fits(left as nat);
    }
    if pos >= data.len() {
        return Err(DexError::new(DexErrorKind::Truncated, pos));
    }
    let b = data[pos];
    if left == 1 && !(b == 0x00 || b == 0x7f) {
        return Err(DexError::new(DexErrorKind::LebOverflow, pos));
    }
    if b < 128 {
        let v: i64 = if b >= 64 {
            b as i64 - 128
        } else {
            b as i64
        };
        Ok((v, pos + 1))
    } else {
        proof {
            lemma_sleb_rec_bound(data@, pos as int + 1, (left - 1) as nat);
            lemma_leb_bound_fits((left - 1) as nat);
        }
        match sleb_rec(data, pos + 1, left - 1) {
            Ok((v, end)) => Ok((b as i64 - 128 + 128 * v, end)),
            Err(e) => Err(e),
        }
    }
}

/// Reads an unsigned LEB128 value at `pos`: up to ten bytes, seven bits each.
pub fn read_uleb128(data: &[u8], pos: usize) -> (r: Result<(u64, usize), DexError>)
    ensures
        r == spec_read_uleb128(data@, pos as int),
{
    proof {
        lemma_uleb_rec_bound(data@, pos as int, 10);
        lemma_leb_bound_fits(10);
    }
    uleb_rec(data, pos, 10)
}

/// Reads a signed LEB128 value at `pos`, sign-extended from the final group's
/// bit 6.
pub fn read_sleb128(data: &[u8], pos: usize) -> (r: Result<(i64, usize), DexError>)
    ensures
        r == spec_read_sleb128(data@, pos as int),
{
    proof {
        lemma_sleb_rec_bound(data@, pos as int, 10);
        lemma_leb_bound_fits(10);
    }
    sleb_rec(data, pos, 10)
}

/// Reads an unsigned LEB128 value and subtracts one, so that a stored `0`
/// yields `-1`, the "absent" marker for optional indices.
pub fn read_uleb128p1(data: &[u8], pos: usize) -> (r: Result<(i64, usize), DexError>)
    ensures
        r == spec_read_uleb128p1(data@, pos as int),
{
    proof {
        lemma_uleb_rec_bound(data@, pos as int, 10);
        lemma_leb_bound_fits(10);
    }
    match uleb_rec(data, pos, 10) {
        Ok((v, end)) => {
            if v > i64::MAX as u64 {
                Err(DexError::new(DexErrorKind::LebOverflow, pos))
            } else {
                Ok((v as i64 - 1, end))
            }
        },
        Err(e) => Err(e),
    }
}

/// The minimum-length unsigned LEB128 encoding of `v`.
pub open spec fn spec_encode_uleb128(v: int) -> Seq<u8>
    recommends
        v >= 0,
    decreases v,
{
    if v < 0x80 {
        seq![v as u8]
    } else {
        seq![(v % 128 + 128) as u8] + spec_encode_uleb128(v / 128)
    }
}

/// The minimum-length signed LEB128 encoding of `v`: groups of seven bits,
/// stopping once the remaining value is pure sign extension.
pub open spec fn spec_encode_sleb128(v: int) -> Seq<u8>
    decreases (if v >= 0 { v } else { -(v + 1) }),
{
    if -64 <= v < 64 {
        seq![(v % 128) as u8]
    } else {
        seq![(v % 128 + 128) as u8] + spec_encode_sleb128(v / 128)
    }
}

/// Encodes `v` as unsigned LEB128, least significant group first.
pub fn encode_uleb128(v: u64) -> (out: Vec<u8>)
    ensures
        out@ == spec_encode_uleb128(v as int),
{
    let mut out: Vec<u8> = Vec::new();
    let mut cur: u64 = v;
    while cur >= 0x80
        invariant
            out@ + spec_encode_uleb128(cur as int) == spec_encode_uleb128(v as int),
        decreases cur,
    {
        out.push((cur % 128 + 128) as u8);
        cur = cur / 128;
    }
    out.push(cur as u8);
    proof {
        assert(out@ =~= spec_encode_uleb128(v as int));
    }
    out
}

/// Encodes `v` as signed LEB128, least significant group first.
pub fn encode_sleb128(v: i64) -> (out: Vec<u8>)
    ensures
        out@ == spec_encode_sleb128(v as int),
{
    let mut out: Vec<u8> = Vec::new();
    let mut cur: i64 = v;
    while !(-64 <= cur && cur < 64)
        invariant
            out@ + spec_encode_sleb128(cur as int) == spec_encode_sleb128(v as int),
        decreases (if cur >= 0 { cur as int } else { -(cur as int + 1) }),
    {
        if cur >= 0 {
            out.push((cur % 128 + 128) as u8);
            cur = cur / 128;
        } else {
            // For negative values, derive the Euclidean group and quotient
            // from the magnitude m where cur == -(m + 1).
            let m: u64 = (-(cur + 1)) as u64;
            let low: u64 = 127 - m % 128;
            proof {
                assert(low == (cur as int) % 128 + 0) by {
                    vstd::arithmetic::div_mod::lemma_fundamental_div_mod(m as int, 128);
                    vstd::arithmetic::div_mod::lemma_fundamental_div_mod_converse(
                        cur as int,
                        128,
                        -((m as int) / 128) - 1,
                        127 - (m as int) % 128,
                    );
                }
                assert((cur as int) / 128 == -((m as int) / 128) - 1) by {
                    vstd::arithmetic::div_mod::lemma_fundamental_div_mod(m as int, 128);
                    vstd::arithmetic::div_mod::lemma_fundamental_div_mod_converse(
                        cur as int,
                        128,
                        -((m as int) / 128) - 1,
                        127 - (m as int) % 128,
                    );
                }
            }
            out.push((low + 128) as u8);
            cur = -((m / 128) as i64) - 1;
        }
    }
    let last: u8 = if cur >= 0 {
        cur as u8
    } else {
        (cur + 128) as u8
    };
    out.push(last);
    proof {
        assert(out@ =~= spec_encode_sleb128(v as int));
    }
    out
}

/// Unsigned round trip, generalized over the remaining byte budget.
proof fn lemma_uleb_round_trip_rec(d: Seq<u8>, pos: int, v: int, left: nat)
    requires
        0 <= v <= spec_uleb_bound(left),
        1 <= left <= 10,
        0 <= pos,
        pos + spec_encode_uleb128(v).len() <= d.len(),
        d.subrange(pos, pos + spec_encode_uleb128(v).len() as int) == spec_encode_uleb128(v),
    ensures
        spec_uleb_rec(d, pos, left) == Ok::<(int, int), DexError>(
            (v, pos + spec_encode_uleb128(v).len()),
        ),
    decreases v,
{
    let e = spec_encode_uleb128(v);
    assert(d[pos] == e[0]);
    if v < 0x80 {
        assert(e.len() == 1);
        if left == 1 {
            assert(v <= 1);
        }
    } else {
        let rest = spec_encode_uleb128(v / 128);
        assert(e == seq![(v % 128 + 128) as u8] + rest);
        assert(d[pos] as int == v % 128 + 128);
        assert(left >= 2) by {
            if left == 1 {
                assert(spec_uleb_bound(1) == 1);
            }
        }
        assert(v / 128 <= spec_uleb_bound((left - 1) as nat)) by {
            assert(spec_uleb_bound(left) == 127 + 128 * spec_uleb_bound((left - 1) as nat));
        }
        assert(d.subrange(pos + 1, pos + 1 + rest.len() as int) == rest) by {
            assert(d.subrange(pos + 1, pos + 1 + rest.len() as int) =~= e.subrange(
                1,
                e.len() as int,
            ));
            assert(e.subrange(1, e.len() as int) =~= rest);
        }
        lemma_uleb_round_trip_rec(d, pos + 1, v / 128, (left - 1) as nat);
        assert(d[pos] as int - 128 + 128 * (v / 128) == v) by {
            vstd::arithmetic::div_mod::lemma_fundamental_div_mod(v, 128);
        }
    }
}

/// LEB128 round trip for `u64`: decoding the encoding of any value yields the
/// value back and consumes exactly the encoding's bytes.
pub proof fn lemma_uleb128_round_trip(d: Seq<u8>, pos: int, v: u64)
    requires
        0 <= pos,
        pos + spec_encode_uleb128(v as int).len() <= d.len(),
        d.subrange(pos, pos + spec_encode_uleb128(v as int).len() as int) == spec_encode_uleb128(
            v as int,
        ),
    ensures
        spec_read_uleb128(d, pos) == Ok::<(u64, usize), DexError>(
            (v, (pos + spec_encode_uleb128(v as int).len()) as usize),
        ),
{
    assert(spec_uleb_bound(10) == u64::MAX as int) by {
        reveal_with_fuel(spec_uleb_bound, 11);
    }
    lemma_uleb_round_trip_rec(d, pos, v as int, 10);
}

/// Signed round trip, generalized over the remaining byte budget.
proof fn lemma_sleb_round_trip_rec(d: Seq<u8>, pos: int, v: int, left: nat)
    requires
        -spec_sleb_bound(left) <= v < spec_sleb_bound(left),
        1 <= left <= 10,
        0 <= pos,
        pos + spec_encode_sleb128(v).len() <= d.len(),
        d.subrange(pos, pos + spec_encode_sleb128(v).len() as int) == spec_encode_sleb128(v),
    ensures
        spec_sleb_rec(d, pos, left) == Ok::<(int, int), DexError>(
            (v, pos + spec_encode_sleb128(v).len()),
        ),
    decreases (if v >= 0 { v } else { -(v + 1) }),
{
    let e = spec_encode_sleb128(v);
    assert(d[pos] == e[0]);
    if -64 <= v < 64 {
        assert(e.len() == 1);
        assert(d[pos] as int == v % 128);
        if v < 0 {
            assert(v % 128 == v + 128) by {
                vstd::arithmetic::div_mod::lemma_fundamental_div_mod_converse(v, 128, -1, v + 128);
            }
        } else {
            assert(v % 128 == v) by {
                vstd::arithmetic::div_mod::lemma_fundamental_div_mod_converse(v, 128, 0, v);
            }
        }
        if left == 1 {
            assert(-1 <= v <= 0);
        }
    } else {
        let rest = spec_encode_sleb128(v / 128);
        assert(e == seq![(v % 128 + 128) as u8] + rest);
        vstd::arithmetic::div_mod::lemma_fundamental_div_mod(v, 128);
        assert(d[pos] as int == v % 128 + 128);
        assert(left >= 2) by {
            if left == 1 {
                assert(spec_sleb_bound(1) == 1);
            }
        }
        assert(-spec_sleb_bound((left - 1) as nat) <= v / 128 < spec_sleb_bound((left - 1) as nat))
            by {
            assert(spec_sleb_bound(left) == 128 * spec_sleb_bound((left - 1) as nat));
        }
        assert(d.subrange(pos + 1, pos + 1 + rest.len() as int) == rest) by {
            assert(d.subrange(pos + 1, pos + 1 + rest.len() as int) =~= e.subrange(
                1,
                e.len() as int,
            ));
            assert(e.subrange(1, e.len() as int) =~= rest);
        }
        lemma_sleb_round_trip_rec(d, pos + 1, v / 128, (left - 1) as nat);
    }
}

/// LEB128 round trip for `i64`: decoding the encoding of any value yields the
/// value back and consumes exactly the encoding's bytes.
pub proof fn lemma_sleb128_round_trip(d: Seq<u8>, pos: int, v: i64)
    requires
        0 <= pos,
        pos + spec_encode_sleb128(v as int).len() <= d.len(),
        d.subrange(pos, pos + spec_encode_sleb128(v as int).len() as int) == spec_encode_sleb128(
            v as int,
        ),
    ensures
        spec_read_sleb128(d, pos) == Ok::<(i64, usize), DexError>(
            (v, (pos + spec_encode_sleb128(v as int).len()) as usize),
        ),
{
    assert(spec_sleb_bound(10) == 0x8000_0000_0000_0000) by {
        reveal_with_fuel(spec_sleb_bound, 11);
    }
    lemma_sleb_round_trip_rec(d, pos, v as int, 10);
}

proof fn lemma_uleb_minimal_rec(d: Seq<u8>, pos: int, left: nat)
    ensures
        spec_uleb_rec(d, pos, left) matches Ok(p) ==> p.1 - pos >= spec_encode_uleb128(
            p.0,
        ).len(),
    decreases left,
{
    if left >= 1 && 0 <= pos < d.len() && d[pos] as int >= 128 && left > 1 {
        lemma_uleb_minimal_rec(d, pos + 1, (left - 1) as nat);
        match spec_uleb_rec(d, pos + 1, (left - 1) as nat) {
            Ok(q) => {
                lemma_uleb_rec_bound(d, pos + 1, (left - 1) as nat);
                let b = d[pos] as int;
                let v = b - 128 + 128 * q.0;
                if v >= 0x80 {
                    assert(v / 128 == q.0 && v % 128 == b - 128) by {
                        vstd::arithmetic::div_mod::lemma_fundamental_div_mod_converse(
                            v,
                            128,
                            q.0,
                            b - 128,
                        );
                    }
                }
            },
            Err(_) => {},
        }
    }
}

/// The unsigned encoder is minimal: any byte sequence that decodes to `v` is
/// at least as long as `spec_encode_uleb128(v)`.
pub proof fn lemma_uleb128_minimal(d: Seq<u8>, pos: int, v: u64, end: usize)
    requires
        d.len() <= usize::MAX,
        spec_read_uleb128(d, pos) == Ok::<(u64, usize), DexError>((v, end)),
    ensures
        end - pos >= spec_encode_uleb128(v as int).len(),
{
    lemma_uleb_minimal_rec(d, pos, 10);
    lemma_uleb_rec_bound(d, pos, 10);
    lemma_leb_bound_fits(10);
    match spec_uleb_rec(d, pos, 10) {
        Ok(p) => {
            assert(p.0 == v as int && p.1 == end as int);
        },
        Err(_) => {},
    }
}

proof fn lemma_sleb_minimal_rec(d: Seq<u8>, pos: int, left: nat)
    ensures
        spec_sleb_rec(d, pos, left) matches Ok(p) ==> p.1 - pos >= spec_encode_sleb128(
            p.0,
        ).len(),
    decreases left,
{
    if left >= 1 && 0 <= pos < d.len() && d[pos] as int >= 128 && left > 1 {
        lemma_sleb_minimal_rec(d, pos + 1, (left - 1) as nat);
        match spec_sleb_rec(d, pos + 1, (left - 1) as nat) {
            Ok(q) => {
                lemma_sleb_rec_bound(d, pos + 1, (left - 1) as nat);
                let b = d[pos] as int;
                let v = b - 128 + 128 * q.0;
                if !(-64 <= v < 64) {
                    assert(v / 128 == q.0 && v % 128 == b - 128) by {
                        vstd::arithmetic::div_mod::lemma_fundamental_div_mod_converse(
                            v,
                            128,
                            q.0,
                            b - 128,
                        );
                    }
                }
            },
            Err(_) => {},
        }
    }
}

/// The signed encoder is minimal: any byte sequence that decodes to `v` is at
/// least as long as `spec_encode_sleb128(v)`.
pub proof fn lemma_sleb128_minimal(d: Seq<u8>, pos: int, v: i64, end: usize)
    requires
        d.len() <= usize::MAX,
        spec_read_sleb128(d, pos) == Ok::<(i64, usize), DexError>((v, end)),
    ensures
        end - pos >= spec_encode_sleb128(v as int).len(),
{
    lemma_sleb_minimal_rec(d, pos, 10);
    lemma_sleb_rec_bound(d, pos, 10);
    lemma_leb_bound_fits(10);
    match spec_sleb_rec(d, pos, 10) {
        Ok(p) => {
            assert(p.0 == v as int && p.1 == end as int);
        },
        Err(_) => {},
    }
}

/// A successful unsigned decode moves forward and stays inside the image.
pub proof fn lemma_uleb128_bounds(d: Seq<u8>, pos: int)
    requires
        d.len() <= usize::MAX,
    ensures
        spec_read_uleb128(d, pos) matches Ok(p) ==> pos < p.1 <= d.len(),
{
    lemma_uleb_rec_bound(d, pos, 10);
}

/// A successful shifted decode moves forward and stays inside the image.
pub proof fn lemma_uleb128p1_bounds(d: Seq<u8>, pos: int)
    requires
        d.len() <= usize::MAX,
    ensures
        spec_read_uleb128p1(d, pos) matches Ok(p) ==> pos < p.1 <= d.len(),
{
    lemma_uleb_rec_bound(d, pos, 10);
}

/// A successful signed decode moves forward and stays inside the image.
pub proof fn lemma_sleb128_bounds(d: Seq<u8>, pos: int)
    requires
        d.len() <= usize::MAX,
    ensures
        spec_read_sleb128(d, pos) matches Ok(p) ==> pos < p.1 <= d.len(),
{
    lemma_sleb_rec_bound(d, pos, 10);
}

} // verus!
