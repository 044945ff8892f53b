//! Positioned reads of fixed-width little- or big-endian integers from a byte
//! image.
//!
//! Every reader takes the image and an absolute position and returns the value
//! together with the position just past it, or a `Truncated` error at the
//! position where the read was attempted.

use vstd::prelude::*;

use crate::err::{derr, DexError, DexErrorKind};

verus! {

/// The byte order selected once from the header's endian tag.
#[derive(Clone, Copy, Debug, PartialEq, Eq, Structural)]
pub enum Endian {
    Little,
    Big,
}

/// The 16-bit value stored at `pos` in byte order `e`.
pub open spec fn spec_u16_at(d: Seq<u8>, pos: int, e: Endian) -> u16
    recommends
        0 <= pos,
        pos + 2 <= d.len(),
{
    match e {
        Endian::Little => (d[pos] as int + d[pos + 1] as int * 0x100) as u16,
        Endian::Big => (d[pos + 1] as int + d[pos] as int * 0x100) as u16,
    }
}

/// The 32-bit value stored at `pos` in byte order `e`.
pub open spec fn spec_u32_at(d: Seq<u8>, pos: int, e: Endian) -> u32
    recommends
        0 <= pos,
        pos + 4 <= d.len(),
{
    match e {
        Endian::Little => (d[pos] as int + d[pos + 1] as int * 0x100 + d[pos + 2] as int * 0x10000
            + d[pos + 3] as int * 0x1000000) as u32,
        Endian::Big => (d[pos + 3] as int + d[pos + 2] as int * 0x100 + d[pos + 1] as int * 0x10000
            + d[pos] as int * 0x1000000) as u32,
    }
}

/// Reads the byte at `pos`.
pub fn read_u8(data: &[u8], pos: usize) -> (r: Result<(u8, usize), DexError>)
    ensures
        pos + 1 <= data@.len() ==> r == Ok::<(u8, usize), DexError>((data@[pos as int], (pos + 1)
            as usize)),
        pos + 1 > data@.len() ==> r == Err::<(u8, usize), DexError>(
            derr(DexErrorKind::Truncated, pos as int),
        ),
{
    if pos < data.len() {
        Ok((data[pos], pos + 1))
    } else {
        Err(DexError::new(DexErrorKind::Truncated, pos))
    }
}

/// Reads the 16-bit value at `pos` in byte order `e`.
pub fn read_u16(data: &[u8], pos: usize, e: Endian) -> (r: Result<(u16, usize), DexError>)
    ensures
        pos + 2 <= data@.len() ==> r == Ok::<(u16, usize), DexError>(
            (spec_u16_at(data@, pos as int, e), (pos + 2) as usize),
        ),
        pos + 2 > data@.len() ==> r == Err::<(u16, usize), DexError>(
            derr(DexErrorKind::Truncated, pos as int),
        ),
{
    if pos < data.len() && data.len() - pos >= 2 {
        let b0 = data[pos];
        let b1 = data[pos + 1];
        let v: u16 = match e {
            Endian::Little => b0 as u16 + b1 as u16 * 0x100,
            Endian::Big => b1 as u16 + b0 as u16 * 0x100,
        };
        Ok((v, pos + 2))
    } else {
        Err(DexError::new(DexErrorKind::Truncated, pos))
    }
}

/// Reads the 32-bit value at `pos` in byte order `e`.
pub fn read_u32(data: &[u8], pos: usize, e: Endian) -> (r: Result<(u32, usize), DexError>)
    ensures
        pos + 4 <= data@.len() ==> r == Ok::<(u32, usize), DexError>(
            (spec_u32_at(data@, pos as int, e), (pos + 4) as usize),
        ),
        pos + 4 > data@.len() ==> r == Err::<(u32, usize), DexError>(
            derr(DexErrorKind::Truncated, pos as int),
        ),
{
    if pos < data.len() && data.len() - pos >= 4 {
        let b0 = data[pos];
        let b1 = data[pos + 1];
        let b2 = data[pos + 2];
        let b3 = data[pos + 3];
        let v: u32 = match e {
            Endian::Little => b0 as u32 + b1 as u32 * 0x100 + b2 as u32 * 0x10000 + b3 as u32
                * 0x1000000,
            Endian::Big => b3 as u32 + b2 as u32 * 0x100 + b1 as u32 * 0x10000 + b0 as u32
                * 0x1000000,
        };
        Ok((v, pos + 4))
    } else {
        Err(DexError::new(DexErrorKind::Truncated, pos))
    }
}

} // verus!
