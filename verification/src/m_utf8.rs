//! The MUTF-8 decoder: a zero-terminated modified-UTF-8 byte stream becomes a
//! sequence of UTF-16 code units, and those become text.
//!
//! Modified UTF-8 differs from UTF-8 in that `U+0000` is stored as the two
//! bytes `C0 80` (so `0x00` can serve as the terminator) and supplementary
//! code points are stored as a surrogate pair, each half encoded on three
//! bytes. Each decoded group therefore yields exactly one UTF-16 code unit.
//!
//! The encoder emits the canonical group for each code unit, and the lemmas at
//! the end state the round trip: decoding an encoded unit sequence yields the
//! units back, and re-encoding what was decoded from a canonical stream yields
//! the original bytes up to the terminator.

use vstd::prelude::*;

verus! {

/// Why a byte group could not be decoded.
#[derive(Clone, Copy, Debug, PartialEq, Eq, Structural)]
pub enum MUtf8ParseError {
    /// The lead byte matches no defined group shape.
    BadByte,
    /// The second byte of a two-byte group is not a continuation byte.
    BadSecondByte,
    /// The second or third byte of a three-byte group is not a continuation
    /// byte.
    BadSecondThirdByte,
}

/// Why a whole string could not be loaded.
#[derive(Clone, Copy, Debug, PartialEq, Eq, Structural)]
pub enum LoadMUtf8StringError {
    /// A byte group was malformed.
    DecodeError(MUtf8ParseError),
    /// The stream ended before the terminator.
    ReadError,
    /// The decoded code units contain a lone surrogate.
    Utf16ToStringError,
}

/// The decoded UTF-16 code units of the zero-terminated MUTF-8 stream at
/// `pos`, with the position just past the terminator.
pub open spec fn spec_mutf8_decode(d: Seq<u8>, pos: int) -> Result<
    (Seq<u16>, int),
    LoadMUtf8StringError,
>
    decreases d.len() - pos,
{
    if pos < 0 || pos >= d.len() {
        Err(LoadMUtf8StringError::ReadError)
    } else {
        let a = d[pos] as int;
        if a == 0 {
            Ok((Seq::empty(), pos + 1))
        } else if a < 0x80 {
            match spec_mutf8_decode(d, pos + 1) {
                Ok((s, end)) => Ok((seq![a as u16] + s, end)),
                Err(e) => Err(e),
            }
        } else if 0xc0 <= a < 0xe0 {
            if pos + 1 >= d.len() {
                Err(LoadMUtf8StringError::ReadError)
            } else {
                let b = d[pos + 1] as int;
                if !(0x80 <= b < 0xc0) {
                    Err(LoadMUtf8StringError::DecodeError(MUtf8ParseError::BadSecondByte))
                } else {
                    match spec_mutf8_decode(d, pos + 2) {
                        Ok((s, end)) => Ok(
                            (seq![((a - 0xc0) * 0x40 + (b - 0x80)) as u16] + s, end),
                        ),
                        Err(e) => Err(e),
                    }
                }
            }
        } else if 0xe0 <= a < 0xf0 {
            if pos + 2 >= d.len() {
                Err(LoadMUtf8StringError::ReadError)
            } else {
                let b = d[pos + 1] as int;
                let c = d[pos + 2] as int;
                if !(0x80 <= b < 0xc0) || !(0x80 <= c < 0xc0) {
                    Err(LoadMUtf8StringError::DecodeError(MUtf8ParseError::BadSecondThirdByte))
                } else {
                    match spec_mutf8_decode(d, pos + 3) {
                        Ok((s, end)) => Ok(
                            (
                                seq![((a - 0xe0) * 0x1000 + (b - 0x80) * 0x40 + (c - 0x80)) as u16]
                                    + s,
                                end,
                            ),
                        ),
                        Err(e) => Err(e),
                    }
                }
            }
        } else {
            Err(LoadMUtf8StringError::DecodeError(MUtf8ParseError::BadByte))
        }
    }
}

/// Decodes the zero-terminated MUTF-8 stream at `pos` into UTF-16 code units.
pub fn decode_mutf8(data: &[u8], pos: usize) -> (r: Result<
    (Vec<u16>, usize),
    LoadMUtf8StringError,
>)
    ensures
        match spec_mutf8_decode(data@, pos as int) {
            Ok((s, end)) => r matches Ok(p) && p.0@ == s && p.1 == end,
            Err(e) => r == Err::<(Vec<u16>, usize), LoadMUtf8StringError>(e),
        },
{
    let ghost d = data@;
    let mut units: Vec<u16> = Vec::new();
    let mut cur: usize = pos;
    loop
        invariant
            pos <= cur,
            match spec_mutf8_decode(d, pos as int) {
                Ok((s, end)) => match spec_mutf8_decode(d, cur as int) {
                    Ok((s2, end2)) => s == units@ + s2 && end == end2,
                    Err(e2) => false,
                },
                Err(e) => match spec_mutf8_decode(d, cur as int) {
                    Ok((s2, end2)) => false,
                    Err(e2) => e == e2,
                },
            },
            d == data@,
        decreases d.len() - cur,
    {
        if cur >= data.len() {
            return Err(LoadMUtf8StringError::ReadError);
        }
        let a = data[cur];
        if a == 0 {
            proof {
                assert(units@ + Seq::<u16>::empty() =~= units@);
            }
            return Ok((units, cur + 1));
        } else if a < 0x80 {
            let u: u16 = a as u16;
            proof {
                if let Ok((s2, _)) = spec_mutf8_decode(d, cur as int + 1) {
                    assert(units@ + (seq![u] + s2) =~= (units@ + seq![u]) + s2);
                }
            }
            units.push(u);
            cur = cur + 1;
        } else if 0xc0 <= a && a < 0xe0 {
            if data.len() - cur < 2 {
                return Err(LoadMUtf8StringError::ReadError);
            }
            let b = data[cur + 1];
            if !(0x80 <= b && b < 0xc0) {
                return Err(LoadMUtf8StringError::DecodeError(MUtf8ParseError::BadSecondByte));
            }
            let u: u16 = (a as u16 - 0xc0) * 0x40 + (b as u16 - 0x80);
            proof {
                if let Ok((s2, _)) = spec_mutf8_decode(d, cur as int + 2) {
                    assert(units@ + (seq![u] + s2) =~= (units@ + seq![u]) + s2);
                }
            }
            units.push(u);
            cur = cur + 2;
        } else if 0xe0 <= a && a < 0xf0 {
            if data.len() - cur < 3 {
                return Err(LoadMUtf8StringError::ReadError);
            }
            let b = data[cur + 1];
            let c = data[cur + 2];
            if !(0x80 <= b && b < 0xc0) || !(0x80 <= c && c < 0xc0) {
                return Err(
                    LoadMUtf8StringError::DecodeError(MUtf8ParseError::BadSecondThirdByte),
                );
            }
            let u: u16 = (a as u16 - 0xe0) * 0x1000 + (b as u16 - 0x80) * 0x40 + (c as u16 - 0x80);
            proof {
                if let Ok((s2, _)) = spec_mutf8_decode(d, cur as int + 3) {
                    assert(units@ + (seq![u] + s2) =~= (units@ + seq![u]) + s2);
                }
            }
            units.push(u);
            cur = cur + 3;
        } else {
            return Err(LoadMUtf8StringError::DecodeError(MUtf8ParseError::BadByte));
        }
    }
}

/// The canonical MUTF-8 group for one UTF-16 code unit.
pub open spec fn spec_mutf8_encode_one(u: u16) -> Seq<u8> {
    if u == 0 {
        seq![0xc0u8, 0x80u8]
    } else if u < 0x80 {
        seq![u as u8]
    } else if u < 0x800 {
        seq![(0xc0 + u / 0x40) as u8, (0x80 + u % 0x40) as u8]
    } else {
        seq![
            (0xe0 + u / 0x1000) as u8,
            (0x80 + (u / 0x40) % 0x40) as u8,
            (0x80 + u % 0x40) as u8,
        ]
    }
}

/// The canonical MUTF-8 encoding of a unit sequence, without the terminator.
pub open spec fn spec_mutf8_encode(units: Seq<u16>) -> Seq<u8>
    decreases units.len(),
{
    if units.len() == 0 {
        Seq::empty()
    } else {
        spec_mutf8_encode_one(units[0]) + spec_mutf8_encode(units.skip(1))
    }
}

proof fn lemma_mutf8_encode_snoc(units: Seq<u16>, u: u16)
    ensures
        spec_mutf8_encode(units.push(u)) == spec_mutf8_encode(units) + spec_mutf8_encode_one(u),
    decreases units.len(),
{
    reveal_with_fuel(spec_mutf8_encode, 3);
    if units.len() == 0 {
        assert(units.push(u).skip(1) =~= Seq::<u16>::empty());
        assert(units.push(u)[0] == u);
        assert(spec_mutf8_encode(units.push(u)) =~= spec_mutf8_encode_one(u));
        assert(spec_mutf8_encode(units) + spec_mutf8_encode_one(u) =~= spec_mutf8_encode_one(u));
    } else {
        lemma_mutf8_encode_snoc(units.skip(1), u);
        assert(units.push(u).skip(1) =~= units.skip(1).push(u));
        assert(spec_mutf8_encode_one(units[0]) + (spec_mutf8_encode(units.skip(1))
            + spec_mutf8_encode_one(u)) =~= (spec_mutf8_encode_one(units[0])
            + spec_mutf8_encode(units.skip(1))) + spec_mutf8_encode_one(u));
    }
}

/// Encodes UTF-16 code units as canonical MUTF-8, without the terminator.
pub fn encode_mutf8(units: &Vec<u16>) -> (out: Vec<u8>)
    ensures
        out@ == spec_mutf8_encode(units@),
{
    let mut out: Vec<u8> = Vec::new();
    let n = units.len();
    let mut i: usize = 0;
    while i < n
        invariant
            i <= n,
            n == units.len(),
            out@ == spec_mutf8_encode(units@.take(i as int)),
        decreases n - i,
    {
        let u = units[i];
        if u == 0 {
            out.push(0xc0);
            out.push(0x80);
        } else if u < 0x80 {
            out.push(u as u8);
        } else if u < 0x800 {
            out.push((0xc0 + u / 0x40) as u8);
            out.push((0x80 + u % 0x40) as u8);
        } else {
            out.push((0xe0 + u / 0x1000) as u8);
            out.push((0x80 + (u / 0x40) % 0x40) as u8);
            out.push((0x80 + u % 0x40) as u8);
        }
        proof {
            lemma_mutf8_encode_snoc(units@.take(i as int), u);
            assert(units@.take(i as int).push(u) =~= units@.take(i as int + 1));
            assert(out@ =~= spec_mutf8_encode(units@.take(i as int)) + spec_mutf8_encode_one(u));
        }
        i = i + 1;
    }
    proof {
        assert(units@.take(n as int) =~= units@);
    }
    out
}

/// MUTF-8 round trip: a canonically encoded, zero-terminated unit sequence
/// decodes to exactly those units, consuming the encoding and its terminator.
pub proof fn lemma_mutf8_round_trip(d: Seq<u8>, pos: int, units: Seq<u16>)
    requires
        0 <= pos,
        pos + spec_mutf8_encode(units).len() + 1 <= d.len(),
        d.subrange(pos, pos + spec_mutf8_encode(units).len() as int) == spec_mutf8_encode(units),
        d[pos + spec_mutf8_encode(units).len() as int] == 0u8,
    ensures
        spec_mutf8_decode(d, pos) == Ok::<(Seq<u16>, int), LoadMUtf8StringError>(
            (units, pos + spec_mutf8_encode(units).len() + 1),
        ),
    decreases units.len(),
{
    let e = spec_mutf8_encode(units);
    if units.len() == 0 {
        assert(units =~= Seq::<u16>::empty());
        assert(d[pos] == 0u8);
    } else {
        let u = units[0];
        let g = spec_mutf8_encode_one(u);
        let rest = spec_mutf8_encode(units.skip(1));
        assert(e == g + rest);
        assert forall|k: int| 0 <= k < g.len() implies d[pos + k] == g[k] by {
            assert(e[k] == d.subrange(pos, pos + e.len() as int)[k]);
            assert(e[k] == (g + rest)[k]);
        }
        assert(d.subrange(pos + g.len(), pos + e.len() as int) == rest) by {
            assert(d.subrange(pos + g.len(), pos + e.len() as int) =~= e.subrange(
                g.len() as int,
                e.len() as int,
            ));
            assert(e.subrange(g.len() as int, e.len() as int) =~= rest);
        }
        lemma_mutf8_round_trip(d, pos + g.len(), units.skip(1));
        assert(d[pos + 0] == g[0]);
        if g.len() >= 2 {
            assert(d[pos + 1] == g[1]);
        }
        if g.len() >= 3 {
            assert(d[pos + 2] == g[2]);
        }
        if u == 0 {
            assert(d[pos] == 0xc0u8 && d[pos + 1] == 0x80u8);
            assert(seq![0u16] + units.skip(1) =~= units);
        } else if u < 0x80 {
            assert(d[pos] == u as u8);
            assert(seq![u] + units.skip(1) =~= units);
        } else if u < 0x800 {
            assert(d[pos] as int == 0xc0 + u / 0x40 && d[pos + 1] as int == 0x80 + u % 0x40);
            assert(0xc0 <= d[pos] as int && (d[pos] as int) < 0xe0) by {
                assert(2 <= u / 0x40 && u / 0x40 < 0x20);
            }
            assert((d[pos] as int - 0xc0) * 0x40 + (d[pos + 1] as int - 0x80) == u as int) by {
                vstd::arithmetic::div_mod::lemma_fundamental_div_mod(u as int, 0x40);
            }
            assert(seq![u] + units.skip(1) =~= units);
        } else {
            assert(d[pos] as int == 0xe0 + u / 0x1000 && d[pos + 1] as int == 0x80 + (u / 0x40)
                % 0x40 && d[pos + 2] as int == 0x80 + u % 0x40);
            assert(0xe0 <= d[pos] as int && (d[pos] as int) < 0xf0) by {
                assert(u / 0x1000 < 0x10);
            }
            assert((d[pos] as int - 0xe0) * 0x1000 + (d[pos + 1] as int - 0x80) * 0x40 + (d[pos + 2]
                as int - 0x80) == u as int) by {
                vstd::arithmetic::div_mod::lemma_fundamental_div_mod(u as int, 0x40);
                vstd::arithmetic::div_mod::lemma_fundamental_div_mod(u as int / 0x40, 0x40);
                assert((u as int / 0x40) / 0x40 == u as int / 0x1000) by {
                    vstd::arithmetic::div_mod::lemma_div_denominator(u as int, 0x40, 0x40);
                }
            }
            assert(seq![u] + units.skip(1) =~= units);
        }
    }
}

/// The byte-level MUTF-8 round trip on canonical streams: re-encoding the
/// units decoded from a canonically encoded stream yields the original bytes,
/// up to the terminator.
pub proof fn lemma_mutf8_reencode(d: Seq<u8>, pos: int, units: Seq<u16>)
    requires
        0 <= pos,
        pos + spec_mutf8_encode(units).len() + 1 <= d.len(),
        d.subrange(pos, pos + spec_mutf8_encode(units).len() as int) == spec_mutf8_encode(units),
        d[pos + spec_mutf8_encode(units).len() as int] == 0u8,
    ensures
        spec_mutf8_decode(d, pos) matches Ok(p) && spec_mutf8_encode(p.0) == d.subrange(
            pos,
            pos + spec_mutf8_encode(units).len() as int,
        ),
{
    lemma_mutf8_round_trip(d, pos, units);
}

/// A UTF-16 code unit that opens a surrogate pair.
pub open spec fn spec_is_high_surrogate(u: u16) -> bool {
    0xD800 <= u < 0xDC00
}

/// A UTF-16 code unit that closes a surrogate pair.
pub open spec fn spec_is_low_surrogate(u: u16) -> bool {
    0xDC00 <= u < 0xE000
}

/// True when the unit sequence is well-formed UTF-16: every high surrogate is
/// followed by a low one, and no low surrogate stands alone.
pub open spec fn spec_utf16_valid(u: Seq<u16>) -> bool
    decreases u.len(),
{
    if u.len() == 0 {
        true
    } else if spec_is_high_surrogate(u[0]) {
        u.len() >= 2 && spec_is_low_surrogate(u[1]) && spec_utf16_valid(u.skip(2))
    } else if spec_is_low_surrogate(u[0]) {
        false
    } else {
        spec_utf16_valid(u.skip(1))
    }
}

/// The characters denoted by a well-formed UTF-16 unit sequence: surrogate
/// pairs re-assemble into one supplementary code point, all other units stand
/// for themselves.
pub open spec fn spec_utf16_decode(u: Seq<u16>) -> Seq<char>
    recommends
        spec_utf16_valid(u),
    decreases u.len(),
{
    if u.len() == 0 {
        Seq::empty()
    } else if spec_is_high_surrogate(u[0]) {
        if u.len() >= 2 && spec_is_low_surrogate(u[1]) {
            seq![((0x10000 + (u[0] - 0xD800) * 0x400 + (u[1] - 0xDC00)) as u32) as char]
                + spec_utf16_decode(u.skip(2))
        } else {
            Seq::empty()
        }
    } else {
        seq![(u[0] as u32) as char] + spec_utf16_decode(u.skip(1))
    }
}

/// Relies on `String::from_utf16`: it decodes UTF-16, re-assembling surrogate
/// pairs, and fails exactly when the units hold a lone surrogate.
#[verifier::external_body]
fn utf16_to_string(units: &Vec<u16>) -> (r: Option<String>)
    ensures
        r matches Some(s) ==> spec_utf16_valid(units@) && s@ == spec_utf16_decode(units@),
        r is None ==> !spec_utf16_valid(units@),
{
    match String::from_utf16(units.as_slice()) {
        Ok(s) => Some(s),
        Err(_) => None,
    }
}

/// Loads the zero-terminated MUTF-8 string at `pos` as text, returning it
/// with the position just past the terminator.
///
/// The declared code-unit count that precedes a string in the image is not
/// needed here: decoding stops at the terminator, and a count mismatch is
/// tolerated, per the format's soft-length rule.
pub fn to_string(data: &[u8], pos: usize) -> (r: Result<(String, usize), LoadMUtf8StringError>)
    ensures
        match spec_mutf8_decode(data@, pos as int) {
            Ok((units, end)) => if spec_utf16_valid(units) {
                r matches Ok(p) && p.0@ == spec_utf16_decode(units) && p.1 == end
            } else {
                r == Err::<(String, usize), LoadMUtf8StringError>(
                    LoadMUtf8StringError::Utf16ToStringError,
                )
            },
            Err(e) => r == Err::<(String, usize), LoadMUtf8StringError>(e),
        },
{
    let (units, end) = match decode_mutf8(data, pos) {
        Ok(p) => p,
        Err(e) => {
            return Err(e);
        },
    };
    match utf16_to_string(&units) {
        Some(s) => Ok((s, end)),
        None => Err(LoadMUtf8StringError::Utf16ToStringError),
    }
}

} // verus!
