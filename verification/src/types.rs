//! Data model: tag types, tag values, symbolic tags, resolved addresses and
//! the error taxonomy.

use vstd::prelude::*;

verus! {

/// Declared type of a tag.  The wire size is fixed per type: `BOOL` occupies
/// one byte (bit-addressed within it), `INT` two bytes, `DINT` and `REAL`
/// four bytes.
#[derive(Copy, Clone, Debug, PartialEq, Eq, Structural)]
pub enum ETagtype {
    BOOL,
    INT,
    DINT,
    REAL,
}

impl ETagtype {
    /// Number of bytes a value of this type occupies on the wire.
    pub open spec fn spec_size(self) -> u8 {
        match self {
            ETagtype::BOOL => 1,
            ETagtype::INT => 2,
            ETagtype::DINT => 4,
            ETagtype::REAL => 4,
        }
    }

    /// Wire size of this type, in bytes.
    pub fn size(&self) -> (r: u8)
        ensures
            r == self.spec_size(),
    {
        match self {
            ETagtype::BOOL => 1,
            ETagtype::INT => 2,
            ETagtype::DINT => 4,
            ETagtype::REAL => 4,
        }
    }

    /// True exactly for the boolean (bit-addressed) tag type.
    pub fn is_bool(&self) -> (r: bool)
        ensures
            r == (self is BOOL),
    {
        match self {
            ETagtype::BOOL => true,
            _ => false,
        }
    }
}

/// A typed tag value.
///
/// `Int` carries both 16-bit and 32-bit integers widened to 64 bits.  `Real`
/// carries the IEEE-754 single-precision bit pattern of the value: the crate
/// never computes with floating point itself, it moves the 32 bits between
/// the wire and the caller unchanged, and callers widen or narrow to native
/// floats at the boundary.
#[derive(Copy, Clone, Debug, PartialEq, Eq, Structural)]
pub enum ETagValue {
    Bool(bool),
    Int(i64),
    Real(u32),
}

/// Whether the active variant of a value agrees with a declared tag type.
pub open spec fn value_matches(v: ETagValue, t: ETagtype) -> bool {
    match t {
        ETagtype::BOOL => v is Bool,
        ETagtype::INT => v is Int,
        ETagtype::DINT => v is Int,
        ETagtype::REAL => v is Real,
    }
}

/// A named, typed reference to one logical value inside controller memory.
/// The name is a caller-defined label and plays no part in addressing.
#[derive(Debug)]
pub struct ETag {
    pub name: String,
    pub address: String,
    pub datatype: ETagtype,
}

/// A controller memory area: process inputs, process outputs, bit memory
/// (merkers), or a numbered data block.
#[derive(Copy, Clone, Debug, PartialEq, Eq, Structural)]
pub enum S7Area {
    PE,
    PA,
    MK,
    DB,
}

impl S7Area {
    /// Numeric area code the transport expects.
    pub open spec fn spec_code(self) -> u8 {
        match self {
            S7Area::PE => 0x81,
            S7Area::PA => 0x82,
            S7Area::MK => 0x83,
            S7Area::DB => 0x84,
        }
    }

    /// Numeric area code the transport expects.
    pub fn code(&self) -> (r: u8)
        ensures
            r == self.spec_code(),
    {
        match self {
            S7Area::PE => 0x81,
            S7Area::PA => 0x82,
            S7Area::MK => 0x83,
            S7Area::DB => 0x84,
        }
    }
}

/// Transport word-length selector.  The engines always transfer whole bytes,
/// so only `S7WLByte` is used by this crate; the other selectors are kept for
/// callers that talk to the transport directly.
#[derive(Copy, Clone, Debug, PartialEq, Eq, Structural)]
pub enum S7WL {
    S7WLBit,
    S7WLByte,
    S7WLWord,
    S7WLDWord,
    S7WLReal,
}

impl S7WL {
    /// Numeric word-length code the transport expects.
    pub open spec fn spec_code(self) -> u8 {
        match self {
            S7WL::S7WLBit => 0x01,
            S7WL::S7WLByte => 0x02,
            S7WL::S7WLWord => 0x04,
            S7WL::S7WLDWord => 0x06,
            S7WL::S7WLReal => 0x08,
        }
    }

    /// Numeric word-length code the transport expects.
    pub fn code(&self) -> (r: u8)
        ensures
            r == self.spec_code(),
    {
        match self {
            S7WL::S7WLBit => 0x01,
            S7WL::S7WLByte => 0x02,
            S7WL::S7WLWord => 0x04,
            S7WL::S7WLDWord => 0x06,
            S7WL::S7WLReal => 0x08,
        }
    }
}

/// A validated low-level address: area, data-block number (0 outside data
/// blocks), starting byte, bit offset (0 for non-bit types), wire size and
/// the declared type.
#[derive(Copy, Clone, Debug, PartialEq, Eq, Structural)]
pub struct S7Address {
    pub area: S7Area,
    pub dbnb: u8,
    pub bit: u8,
    pub start: u8,
    pub size: u8,
    pub datatype: ETagtype,
}

impl S7Address {
    /// Well-formedness invariant.  Resolution establishes it and every engine
    /// operation preserves it: the size agrees with the declared type, the
    /// bit offset stays within one byte and is zero for non-bit types, and
    /// the block number is zero outside data blocks.
    pub open spec fn wf(self) -> bool {
        &&& self.size == self.datatype.spec_size()
        &&& self.bit <= 7
        &&& (self.datatype is BOOL || self.bit == 0)
        &&& (self.area is DB || self.dbnb == 0)
    }
}

/// Rejection of a symbolic address string, before any transport activity.
#[derive(Copy, Clone, Debug, PartialEq, Eq, Structural)]
pub enum AddressError {
    /// The string does not match the address grammar.
    Malformed,
    /// The string matches the grammar, but its suffix does not agree with
    /// the declared tag type.
    TypeMismatch,
}

/// Failure of a byte-level value conversion.
#[derive(Copy, Clone, Debug, PartialEq, Eq, Structural)]
pub enum CodecError {
    /// The value's variant does not agree with the tag's declared type.
    InvalidValueForType,
    /// A bit offset beyond 7 was asked of a single byte.
    BitIndexOutOfRange,
}

/// A transport call failed: the native status code, with its resolved
/// human-readable text.
#[derive(Debug)]
pub struct TransportError {
    pub code: i32,
    pub text: String,
}

/// Failure of a single-tag operation.
#[derive(Debug)]
pub enum TagError {
    Address(AddressError),
    Codec(CodecError),
    Transport(TransportError),
}

/// Batch-wide failure: either some address failed to resolve (no transport
/// activity took place) or a chunk-level transport call failed (results of
/// earlier chunks are discarded).
#[derive(Debug)]
pub enum BatchError {
    Address(AddressError),
    Transport(TransportError),
}

} // verus!
