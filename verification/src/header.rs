//! The decoded header record and its field enumerations.

use vstd::prelude::*;

verus! {

/// Kind of query, from the 4-bit opcode field. The assigned values are 0
/// (standard query), 1 (inverse query) and 2 (server status request); every
/// other 4-bit value is reserved for future use and is kept verbatim in the
/// catch-all variant rather than rejected.
#[derive(Debug, Clone, Copy, PartialEq, Eq)]
pub enum Opcode {
    QUERY,
    IQUERY,
    STATUS,
    ERR(u8),
}

/// Response status, from the 4-bit rcode field. The assigned values are 0
/// (no error) through 5 (refused); every other 4-bit value is reserved for
/// future use and is kept verbatim in the catch-all variant.
#[derive(Debug, Clone, Copy, PartialEq, Eq)]
pub enum Rcode {
    NoErr,
    FormatErr,
    ServerErr,
    NameErr,
    NoImpl,
    Refused,
    Reserved(u8),
}

/// Why a buffer failed to decode.
#[derive(Debug, Clone, Copy, PartialEq, Eq)]
pub enum DecodeError {
    /// Fewer bytes were supplied than the fixed header occupies; carries the
    /// number of bits the header needs and the number that were available.
    Truncated { bits_needed: u32, bits_available: u32 },
    /// The 3-bit reserved zone held a non-zero value; carries the offending
    /// bit pattern and the bit offset of the zone within the header.
    MalformedHeader { bits: u8, bit_offset: u32 },
}

/// The decoded fixed-size prefix of a name-resolution message: a pure decode
/// result, constructed once per call and never mutated.
#[derive(Debug, Clone, Copy, PartialEq, Eq)]
pub struct Header {
    /// Opaque correlation identifier, copied verbatim between query and
    /// response.
    pub id: u16,
    /// `false` for a query, `true` for a response.
    pub qr: bool,
    /// Kind of query.
    pub opcode: Opcode,
    /// Authoritative answer.
    pub aa: bool,
    /// Truncation.
    pub tc: bool,
    /// Recursion desired.
    pub rd: bool,
    /// Recursion available.
    pub ra: bool,
    /// Response status.
    pub rcode: Rcode,
    /// Declared number of entries in the question section.
    pub qdcount: u16,
    /// Declared number of resource records in the answer section.
    pub ancount: u16,
    /// Declared number of name-server records in the authority section.
    pub nscount: u16,
    /// Declared number of resource records in the additional section.
    pub arcount: u16,
}

impl Opcode {
    /// The variant denoted by a raw opcode value; total over the whole input
    /// domain, with unassigned values collapsing to the catch-all.
    pub open spec fn from_raw(v: u8) -> Opcode {
        if v == 0 {
            Opcode::QUERY
        } else if v == 1 {
            Opcode::IQUERY
        } else if v == 2 {
            Opcode::STATUS
        } else {
            Opcode::ERR(v)
        }
    }

    /// The raw value this variant stands for on the wire.
    pub open spec fn raw(self) -> u8 {
        match self {
            Opcode::QUERY => 0,
            Opcode::IQUERY => 1,
            Opcode::STATUS => 2,
            Opcode::ERR(v) => v,
        }
    }

    /// A catch-all variant only ever carries one of the raw values that are
    /// actually unassigned, so the whole opcode fits its 4-bit field.
    pub open spec fn wf(self) -> bool {
        match self {
            Opcode::ERR(v) => 3 <= v < 16,
            _ => true,
        }
    }

    /// Maps a raw opcode value to its variant. The mapping is total, so this
    /// never returns an error.
    pub fn get_val(v: u8) -> (r: Result<Opcode, DecodeError>)
        ensures
            r == Ok::<Opcode, DecodeError>(Opcode::from_raw(v)),
    {
        let oc = match v {
            0 => Opcode::QUERY,
            1 => Opcode::IQUERY,
            2 => Opcode::STATUS,
            _ => Opcode::ERR(v),
        };
        Ok(oc)
    }

    /// The raw value this variant stands for on the wire.
    pub fn to_raw(&self) -> (r: u8)
        ensures
            r == self.raw(),
    {
        match self {
            Opcode::QUERY => 0,
            Opcode::IQUERY => 1,
            Opcode::STATUS => 2,
            Opcode::ERR(v) => *v,
        }
    }

    /// Raw-value round trip: a well-formed variant is exactly the one its own
    /// raw value denotes, and that value fits the 4-bit field.
    pub proof fn lemma_raw_roundtrip(self)
        requires
            self.wf(),
        ensures
            Opcode::from_raw(self.raw()) == self,
            self.raw() < 16,
    {
    }
}

impl Rcode {
    /// The variant denoted by a raw rcode value; total over the whole input
    /// domain, with unassigned values collapsing to the catch-all.
    pub open spec fn from_raw(v: u8) -> Rcode {
        if v == 0 {
            Rcode::NoErr
        } else if v == 1 {
            Rcode::FormatErr
        } else if v == 2 {
            Rcode::ServerErr
        } else if v == 3 {
            Rcode::NameErr
        } else if v == 4 {
            Rcode::NoImpl
        } else if v == 5 {
            Rcode::Refused
        } else {
            Rcode::Reserved(v)
        }
    }

    /// The raw value this variant stands for on the wire.
    pub open spec fn raw(self) -> u8 {
        match self {
            Rcode::NoErr => 0,
            Rcode::FormatErr => 1,
            Rcode::ServerErr => 2,
            Rcode::NameErr => 3,
            Rcode::NoImpl => 4,
            Rcode::Refused => 5,
            Rcode::Reserved(v) => v,
        }
    }

    /// A catch-all variant only ever carries one of the raw values that are
    /// actually unassigned, so the whole rcode fits its 4-bit field.
    pub open spec fn wf(self) -> bool {
        match self {
            Rcode::Reserved(v) => 6 <= v < 16,
            _ => true,
        }
    }

    /// Maps a raw rcode value to its variant. The mapping is total, so this
    /// never returns an error.
    pub fn get_val(v: u8) -> (r: Result<Rcode, DecodeError>)
        ensures
            r == Ok::<Rcode, DecodeError>(Rcode::from_raw(v)),
    {
        let rc = match v {
            0 => Rcode::NoErr,
            1 => Rcode::FormatErr,
            2 => Rcode::ServerErr,
            3 => Rcode::NameErr,
            4 => Rcode::NoImpl,
            5 => Rcode::Refused,
            _ => Rcode::Reserved(v),
        };
        Ok(rc)
    }

    /// The raw value this variant stands for on the wire.
    pub fn to_raw(&self) -> (r: u8)
        ensures
            r == self.raw(),
    {
        match self {
            Rcode::NoErr => 0,
            Rcode::FormatErr => 1,
            Rcode::ServerErr => 2,
            Rcode::NameErr => 3,
            Rcode::NoImpl => 4,
            Rcode::Refused => 5,
            Rcode::Reserved(v) => *v,
        }
    }

    /// Raw-value round trip: a well-formed variant is exactly the one its own
    /// raw value denotes, and that value fits the 4-bit field.
    pub proof fn lemma_raw_roundtrip(self)
        requires
            self.wf(),
        ensures
            Rcode::from_raw(self.raw()) == self,
            self.raw() < 16,
    {
    }
}

impl Header {
    /// Both enumeration fields carry raw values that fit their 4-bit fields;
    /// every header the decoder produces satisfies this, and it is all the
    /// encoder needs.
    pub open spec fn wf(self) -> bool {
        self.opcode.wf() && self.rcode.wf()
    }
}

} // verus!
