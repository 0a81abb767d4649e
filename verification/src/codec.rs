//! Byte-level value codec: raw big-endian buffers to and from typed tag
//! values, and the single-bit operations the write engines build on.

use vstd::prelude::*;

use crate::types::CodecError;
use crate::types::ETagValue;
use crate::types::ETagtype;
use crate::types::S7Address;

verus! {

/// Value of the first two bytes read big-endian, as an unsigned integer.
pub open spec fn be16_val(b: Seq<u8>) -> int
    recommends
        b.len() >= 2,
{
    b[0] * 256 + b[1]
}

/// Value of the first four bytes read big-endian, as an unsigned integer.
pub open spec fn be32_val(b: Seq<u8>) -> int
    recommends
        b.len() >= 4,
{
    ((b[0] * 256 + b[1]) * 256 + b[2]) * 256 + b[3]
}

/// Two's-complement reading of a 16-bit unsigned value.
pub open spec fn signed16(w: int) -> int {
    if w >= 0x8000 {
        w - 0x10000
    } else {
        w
    }
}

/// Two's-complement reading of a 32-bit unsigned value.
pub open spec fn signed32(w: int) -> int {
    if w >= 0x8000_0000 {
        w - 0x1_0000_0000
    } else {
        w
    }
}

/// The single-bit mask for a bit offset.  Offset 0 addresses the
/// most-significant (left-most) bit of the byte, offset 7 the
/// least-significant, matching the controller's native bit ordering.
pub open spec fn bit_mask(bit: u8) -> u8
    recommends
        bit <= 7,
{
    1u8 << ((7 - bit) as u8)
}

/// The bit at a bit offset within one byte.
pub open spec fn bit_of(byte: u8, bit: u8) -> bool
    recommends
        bit <= 7,
{
    byte & bit_mask(bit) != 0
}

/// One byte with the bit at the given offset forced to `v` and the other
/// seven bits kept.
pub open spec fn set_bit(byte: u8, bit: u8, v: bool) -> u8
    recommends
        bit <= 7,
{
    if v {
        byte | bit_mask(bit)
    } else {
        byte & !bit_mask(bit)
    }
}

/// What decoding a raw buffer yields: a 16- or 32-bit big-endian signed
/// integer widened to 64 bits, the four raw bytes of an IEEE-754 single
/// precision bit pattern, or one bit of the first byte.  Only a bit offset
/// beyond 7 is rejected.
pub open spec fn conv_value_spec(b: Seq<u8>, t: ETagtype, bit: u8) -> Result<
    ETagValue,
    CodecError,
> {
    match t {
        ETagtype::INT => Ok(ETagValue::Int(signed16(be16_val(b)) as i64)),
        ETagtype::DINT => Ok(ETagValue::Int(signed32(be32_val(b)) as i64)),
        ETagtype::REAL => Ok(ETagValue::Real(be32_val(b) as u32)),
        ETagtype::BOOL => if bit > 7 {
            Err(CodecError::BitIndexOutOfRange)
        } else {
            Ok(ETagValue::Bool(bit_of(b[0], bit)))
        },
    }
}

/// The low 16 bits of a 64-bit value (two's-complement truncation).
pub open spec fn low16(v: i64) -> u16 {
    v as u16
}

/// The low 32 bits of a 64-bit value (two's-complement truncation).
pub open spec fn low32(v: i64) -> u32 {
    v as u32
}

/// Big-endian bytes of a 16-bit value.
pub open spec fn be16_bytes(w: u16) -> Seq<u8> {
    seq![((w >> 8) & 0xFF) as u8, (w & 0xFF) as u8]
}

/// Big-endian bytes of a 32-bit value.
pub open spec fn be32_bytes(w: u32) -> Seq<u8> {
    seq![
        ((w >> 24) & 0xFF) as u8,
        ((w >> 16) & 0xFF) as u8,
        ((w >> 8) & 0xFF) as u8,
        (w & 0xFF) as u8,
    ]
}

/// What encoding a value for a resolved address yields.
///
/// Integers are truncated to the wire width before serialization: the
/// truncation is silent by design and a potential loss of range, not an
/// error.  A boolean needs the byte already present in controller memory to
/// preserve its seven neighbours; without it the result is an all-zero
/// placeholder that a batched writer replaces after its own merge step.  A
/// value whose variant does not agree with the address's declared type is
/// rejected.
pub open spec fn conv_buf_spec(write: ETagValue, addr: S7Address, current: Option<u8>) -> Result<
    Seq<u8>,
    CodecError,
> {
    match addr.datatype {
        ETagtype::INT => match write {
            ETagValue::Int(v) => Ok(be16_bytes(low16(v))),
            _ => Err(CodecError::InvalidValueForType),
        },
        ETagtype::DINT => match write {
            ETagValue::Int(v) => Ok(be32_bytes(low32(v))),
            _ => Err(CodecError::InvalidValueForType),
        },
        ETagtype::REAL => match write {
            ETagValue::Real(bits) => Ok(be32_bytes(bits)),
            _ => Err(CodecError::InvalidValueForType),
        },
        ETagtype::BOOL => match write {
            ETagValue::Bool(v) => match current {
                Some(c) => Ok(seq![set_bit(c, addr.bit, v)]),
                None => Ok(Seq::new(addr.size as nat, |i: int| 0u8)),
            },
            _ => Err(CodecError::InvalidValueForType),
        },
    }
}

/// An executable buffer result agrees with a specification-level one.
pub open spec fn buf_result_matches(
    r: Result<Vec<u8>, CodecError>,
    s: Result<Seq<u8>, CodecError>,
) -> bool {
    match (r, s) {
        (Ok(v), Ok(b)) => v@ == b,
        (Err(e1), Err(e2)) => e1 == e2,
        _ => false,
    }
}

/// Decodes a raw buffer into a typed value: exactly `conv_value_spec`.
pub fn conv_value(buf: &Vec<u8>, datatype: &ETagtype, bit: u8) -> (r: Result<
    ETagValue,
    CodecError,
>)
    requires
        buf@.len() >= datatype.spec_size(),
    ensures
        r == conv_value_spec(buf@, *datatype, bit),
{
    match datatype {
        ETagtype::INT => {
            let w: u32 = (buf[0] as u32) * 256 + (buf[1] as u32);
            let v: i64 = if w >= 0x8000 {
                w as i64 - 0x10000
            } else {
                w as i64
            };
            Ok(ETagValue::Int(v))
        },
        ETagtype::DINT => {
            let w: u64 = (((buf[0] as u64) * 256 + (buf[1] as u64)) * 256 + (buf[2] as u64)) * 256
                + (buf[3] as u64);
            let v: i64 = if w >= 0x8000_0000 {
                w as i64 - 0x1_0000_0000
            } else {
                w as i64
            };
            Ok(ETagValue::Int(v))
        },
        ETagtype::REAL => {
            let w: u32 = (((buf[0] as u32) * 256 + (buf[1] as u32)) * 256 + (buf[2] as u32)) * 256
                + (buf[3] as u32);
            Ok(ETagValue::Real(w))
        },
        ETagtype::BOOL => {
            if bit > 7 {
                Err(CodecError::BitIndexOutOfRange)
            } else {
                let mask: u8 = 1u8 << (7 - bit);
                Ok(ETagValue::Bool(buf[0] & mask != 0))
            }
        },
    }
}

/// Encodes a typed value for a resolved address: exactly `conv_buf_spec`.
pub fn conv_buf(write: ETagValue, addr: &S7Address, current: Option<u8>) -> (r: Result<
    Vec<u8>,
    CodecError,
>)
    requires
        addr.wf(),
    ensures
        buf_result_matches(r, conv_buf_spec(write, *addr, current)),
{
    match addr.datatype {
        ETagtype::INT => {
            if let ETagValue::Int(v) = write {
                let w: u16 = #[verifier::truncate] (v as u16);
                let b0: u8 = ((w >> 8) & 0xFF) as u8;
                let b1: u8 = (w & 0xFF) as u8;
                let out = vec![b0, b1];
                proof {
                    assert(out@ =~= be16_bytes(low16(v)));
                }
                Ok(out)
            } else {
                Err(CodecError::InvalidValueForType)
            }
        },
        ETagtype::DINT => {
            if let ETagValue::Int(v) = write {
                let w: u32 = #[verifier::truncate] (v as u32);
                let b0: u8 = ((w >> 24) & 0xFF) as u8;
                let b1: u8 = ((w >> 16) & 0xFF) as u8;
                let b2: u8 = ((w >> 8) & 0xFF) as u8;
                let b3: u8 = (w & 0xFF) as u8;
                let out = vec![b0, b1, b2, b3];
                proof {
                    assert(out@ =~= be32_bytes(low32(v)));
                }
                Ok(out)
            } else {
                Err(CodecError::InvalidValueForType)
            }
        },
        ETagtype::REAL => {
            if let ETagValue::Real(bits) = write {
                let b0: u8 = ((bits >> 24) & 0xFF) as u8;
                let b1: u8 = ((bits >> 16) & 0xFF) as u8;
                let b2: u8 = ((bits >> 8) & 0xFF) as u8;
                let b3: u8 = (bits & 0xFF) as u8;
                let out = vec![b0, b1, b2, b3];
                proof {
                    assert(out@ =~= be32_bytes(bits));
                }
                Ok(out)
            } else {
                Err(CodecError::InvalidValueForType)
            }
        },
        ETagtype::BOOL => {
            if let ETagValue::Bool(v) = write {
                match current {
                    Some(c) => {
                        let mask: u8 = 1u8 << (7 - addr.bit);
                        let merged: u8 = if v {
                            c | mask
                        } else {
                            c & !mask
                        };
                        let out = vec![merged];
                        proof {
                            assert(out@ =~= seq![set_bit(c, addr.bit, v)]);
                        }
                        Ok(out)
                    },
                    None => {
                        let mut out: Vec<u8> = Vec::new();
                        out.push(0);
                        proof {
                            assert(out@ =~= Seq::new(addr.size as nat, |i: int| 0u8));
                        }
                        Ok(out)
                    },
                }
            } else {
                Err(CodecError::InvalidValueForType)
            }
        },
    }
}

/// Encoding then decoding a 16-bit integer returns the value unchanged
/// whenever it lies within the 16-bit signed range.
pub proof fn lemma_round_trip_int16(v: i64, addr: S7Address, current: Option<u8>)
    requires
        addr.datatype is INT,
        -0x8000 <= v <= 0x7FFF,
    ensures
        conv_buf_spec(ETagValue::Int(v), addr, current) matches Ok(b) && conv_value_spec(
            b,
            ETagtype::INT,
            0,
        ) == Ok::<ETagValue, CodecError>(ETagValue::Int(v)),
{
    let w = low16(v);
    assert(w as int == if v >= 0 {
        v as int
    } else {
        v + 0x10000
    }) by (bit_vector)
        requires
            -0x8000 <= v <= 0x7FFF,
            w == v as u16,
    ;
    assert((((w >> 8) & 0xFF) as u8) * 256 + ((w & 0xFF) as u8) == w) by (bit_vector);
}

/// Encoding then decoding a 32-bit integer returns the value unchanged
/// whenever it lies within the 32-bit signed range.
pub proof fn lemma_round_trip_int32(v: i64, addr: S7Address, current: Option<u8>)
    requires
        addr.datatype is DINT,
        -0x8000_0000 <= v <= 0x7FFF_FFFF,
    ensures
        conv_buf_spec(ETagValue::Int(v), addr, current) matches Ok(b) && conv_value_spec(
            b,
            ETagtype::DINT,
            0,
        ) == Ok::<ETagValue, CodecError>(ETagValue::Int(v)),
{
    let w = low32(v);
    assert(w as int == if v >= 0 {
        v as int
    } else {
        v + 0x1_0000_0000
    }) by (bit_vector)
        requires
            -0x8000_0000 <= v <= 0x7FFF_FFFF,
            w == v as u32,
    ;
    assert((((((w >> 24) & 0xFF) as u8) * 256 + (((w >> 16) & 0xFF) as u8)) * 256 + (((w >> 8)
        & 0xFF) as u8)) * 256 + ((w & 0xFF) as u8) == w) by (bit_vector);
}

/// Encoding then decoding a single-precision bit pattern returns it
/// unchanged: the crate's own round trip never touches the 32 bits.
pub proof fn lemma_round_trip_real32(bits: u32, addr: S7Address, current: Option<u8>)
    requires
        addr.datatype is REAL,
    ensures
        conv_buf_spec(ETagValue::Real(bits), addr, current) matches Ok(b) && conv_value_spec(
            b,
            ETagtype::REAL,
            0,
        ) == Ok::<ETagValue, CodecError>(ETagValue::Real(bits)),
{
    assert((((((bits >> 24) & 0xFF) as u8) * 256 + (((bits >> 16) & 0xFF) as u8)) * 256 + (((bits
        >> 8) & 0xFF) as u8)) * 256 + ((bits & 0xFF) as u8) == bits) by (bit_vector);
}

/// Encoding a boolean against a known current byte and reading the same bit
/// offset back returns the boolean unchanged.
pub proof fn lemma_round_trip_bool(v: bool, c: u8, addr: S7Address)
    requires
        addr.datatype is BOOL,
        addr.bit <= 7,
    ensures
        conv_buf_spec(ETagValue::Bool(v), addr, Some(c)) matches Ok(b) && conv_value_spec(
            b,
            ETagtype::BOOL,
            addr.bit,
        ) == Ok::<ETagValue, CodecError>(ETagValue::Bool(v)),
{
    let bit = addr.bit;
    assert(((if v {
        c | (1u8 << ((7 - bit) as u8))
    } else {
        c & !(1u8 << ((7 - bit) as u8))
    }) & (1u8 << ((7 - bit) as u8)) != 0) == v) by (bit_vector)
        requires
            bit <= 7,
    ;
}

/// Forcing one bit leaves every other bit of the byte unchanged.  This is
/// what lets independent single-bit writes into one byte be merged in any
/// order without contradicting each other.
pub proof fn lemma_set_bit_preserves_others(byte: u8, i: u8, j: u8, v: bool)
    requires
        i <= 7,
        j <= 7,
        i != j,
    ensures
        bit_of(set_bit(byte, i, v), j) == bit_of(byte, j),
{
    assert(((if v {
        byte | (1u8 << ((7 - i) as u8))
    } else {
        byte & !(1u8 << ((7 - i) as u8))
    }) & (1u8 << ((7 - j) as u8)) != 0) == (byte & (1u8 << ((7 - j) as u8)) != 0)) by (bit_vector)
        requires
            i <= 7,
            j <= 7,
            i != j,
    ;
}

/// Forcing one bit makes that bit read back as the forced value.
pub proof fn lemma_set_bit_reads_back(byte: u8, i: u8, v: bool)
    requires
        i <= 7,
    ensures
        bit_of(set_bit(byte, i, v), i) == v,
{
    assert(((if v {
        byte | (1u8 << ((7 - i) as u8))
    } else {
        byte & !(1u8 << ((7 - i) as u8))
    }) & (1u8 << ((7 - i) as u8)) != 0) == v) by (bit_vector)
        requires
            i <= 7,
    ;
}

} // verus!
