//! Decoding and encoding of the fixed 96-bit header.
//!
//! The wire layout, most significant bit first:
//!
//! ```text
//!   0                   1
//!   0 1 2 3 4 5 6 7 8 9 0 1 2 3 4 5
//!  +--+--+--+--+--+--+--+--+--+--+--+--+--+--+--+--+
//!  |                      ID                       |
//!  +--+--+--+--+--+--+--+--+--+--+--+--+--+--+--+--+
//!  |QR|   Opcode  |AA|TC|RD|RA|   Z    |   RCODE   |
//!  +--+--+--+--+--+--+--+--+--+--+--+--+--+--+--+--+
//!  |                    QDCOUNT                    |
//!  +--+--+--+--+--+--+--+--+--+--+--+--+--+--+--+--+
//!  |                    ANCOUNT                    |
//!  +--+--+--+--+--+--+--+--+--+--+--+--+--+--+--+--+
//!  |                    NSCOUNT                    |
//!  +--+--+--+--+--+--+--+--+--+--+--+--+--+--+--+--+
//!  |                    ARCOUNT                    |
//!  +--+--+--+--+--+--+--+--+--+--+--+--+--+--+--+--+
//! ```
//!
//! So, counting bits from the start of the buffer: ID at 0, QR at 16, the
//! opcode at 17, AA/TC/RD/RA at 21 through 24, the reserved zone Z at 25, the
//! rcode at 28, and the four section counts at 32, 48, 64 and 80. The header
//! is exactly 96 bits (12 bytes); everything after it is returned unconsumed.

use crate::bits::bit_at;
use crate::bits::bits_at;
use crate::bits::lemma_bits_at_bound;
use crate::bits::lemma_bits_at_single;
use crate::bits::read_bits;
use crate::bits::write_bits;
use crate::header::DecodeError;
use crate::header::Header;
use crate::header::Opcode;
use crate::header::Rcode;
use vstd::arithmetic::power2::lemma2_to64;
use vstd::prelude::*;
use vstd::slice::slice_subrange;

verus! {

/// The header whose fields are the bit ranges of `bytes` at their documented
/// offsets and widths, each taken most significant bit first.
pub open spec fn spec_header(bytes: Seq<u8>) -> Header {
    Header {
        id: bits_at(bytes, 0, 16) as u16,
        qr: bit_at(bytes, 16),
        opcode: Opcode::from_raw(bits_at(bytes, 17, 4) as u8),
        aa: bit_at(bytes, 21),
        tc: bit_at(bytes, 22),
        rd: bit_at(bytes, 23),
        ra: bit_at(bytes, 24),
        rcode: Rcode::from_raw(bits_at(bytes, 28, 4) as u8),
        qdcount: bits_at(bytes, 32, 16) as u16,
        ancount: bits_at(bytes, 48, 16) as u16,
        nscount: bits_at(bytes, 64, 16) as u16,
        arcount: bits_at(bytes, 80, 16) as u16,
    }
}

/// What decoding a buffer yields: the only failures are a buffer shorter than
/// 12 bytes and a non-zero reserved zone; any other buffer decodes to its
/// header and its byte-aligned remainder.
pub open spec fn spec_decode(bytes: Seq<u8>) -> Result<(Header, Seq<u8>), DecodeError> {
    if bytes.len() < 12 {
        Err(
            DecodeError::Truncated {
                bits_needed: 96,
                bits_available: (8 * bytes.len()) as u32,
            },
        )
    } else if bits_at(bytes, 25, 3) != 0 {
        Err(
            DecodeError::MalformedHeader { bits: bits_at(bytes, 25, 3) as u8, bit_offset: 25 },
        )
    } else {
        Ok((spec_header(bytes), bytes.subrange(12, bytes.len() as int)))
    }
}

/// Decodes the 12-byte header prefix of `input` and returns it together with
/// the unconsumed remainder of the buffer. A pure function of its input: the
/// result is exactly what [`spec_decode`] states, so decoding is deterministic
/// and the same buffer always yields the same header and remainder.
pub fn decode<'a>(input: &'a [u8]) -> (r: Result<(Header, &'a [u8]), DecodeError>)
    ensures
        match r {
            Ok(ok) => spec_decode(input@) == Ok::<(Header, Seq<u8>), DecodeError>((ok.0, ok.1@)),
            Err(e) => spec_decode(input@) == Err::<(Header, Seq<u8>), DecodeError>(e),
        },
{
    if input.len() < 12 {
        let available: u32 = 8 * (input.len() as u32);
        return Err(DecodeError::Truncated { bits_needed: 96, bits_available: available });
    }
    let id = read_bits(input, 0, 16);
    let qr = read_bits(input, 16, 1) == 1;
    let opraw = read_bits(input, 17, 4);
    let aa = read_bits(input, 21, 1) == 1;
    let tc = read_bits(input, 22, 1) == 1;
    let rd = read_bits(input, 23, 1) == 1;
    let ra = read_bits(input, 24, 1) == 1;
    let z = read_bits(input, 25, 3);
    if z != 0 {
        return Err(DecodeError::MalformedHeader { bits: z as u8, bit_offset: 25 });
    }
    let rcraw = read_bits(input, 28, 4);
    let qdcount = read_bits(input, 32, 16);
    let ancount = read_bits(input, 48, 16);
    let nscount = read_bits(input, 64, 16);
    let arcount = read_bits(input, 80, 16);
    let opcode = match Opcode::get_val(opraw as u8) {
        Ok(oc) => oc,
        Err(e) => {
            return Err(e);
        },
    };
    let rcode = match Rcode::get_val(rcraw as u8) {
        Ok(rc) => rc,
        Err(e) => {
            return Err(e);
        },
    };
    let header = Header {
        id,
        qr,
        opcode,
        aa,
        tc,
        rd,
        ra,
        rcode,
        qdcount,
        ancount,
        nscount,
        arcount,
    };
    let rest = slice_subrange(input, 12, input.len());
    proof {
        lemma_bits_at_single(input@, 16);
        lemma_bits_at_single(input@, 21);
        lemma_bits_at_single(input@, 22);
        lemma_bits_at_single(input@, 23);
        lemma_bits_at_single(input@, 24);
        assert(header == spec_header(input@));
    }
    Ok((header, rest))
}

/// Encodes a header back to its 12-byte wire form: every field lands at its
/// documented offset and width, the reserved zone is zero, and decoding the
/// result restores the header exactly.
pub fn encode(h: &Header) -> (out: Vec<u8>)
    requires
        h.wf(),
    ensures
        out@.len() == 12,
        spec_header(out@) == *h,
        bits_at(out@, 25, 3) == 0,
        spec_decode(out@) == Ok::<(Header, Seq<u8>), DecodeError>((*h, Seq::<u8>::empty())),
{
    let mut out: Vec<u8> = Vec::new();
    let mut k: usize = 0;
    while k < 12
        invariant
            out@.len() == k,
            k <= 12,
        decreases 12 - k,
    {
        out.push(0);
        k = k + 1;
    }
    proof {
        lemma2_to64();
    }
    write_bits(&mut out, 0, 16, h.id);
    write_bits(
        &mut out,
        16,
        1,
        if h.qr {
            1
        } else {
            0
        },
    );
    let opraw = h.opcode.to_raw();
    proof {
        h.opcode.lemma_raw_roundtrip();
    }
    write_bits(&mut out, 17, 4, opraw as u16);
    write_bits(
        &mut out,
        21,
        1,
        if h.aa {
            1
        } else {
            0
        },
    );
    write_bits(
        &mut out,
        22,
        1,
        if h.tc {
            1
        } else {
            0
        },
    );
    write_bits(
        &mut out,
        23,
        1,
        if h.rd {
            1
        } else {
            0
        },
    );
    write_bits(
        &mut out,
        24,
        1,
        if h.ra {
            1
        } else {
            0
        },
    );
    write_bits(&mut out, 25, 3, 0);
    let rcraw = h.rcode.to_raw();
    proof {
        h.rcode.lemma_raw_roundtrip();
    }
    write_bits(&mut out, 28, 4, rcraw as u16);
    write_bits(&mut out, 32, 16, h.qdcount);
    write_bits(&mut out, 48, 16, h.ancount);
    write_bits(&mut out, 64, 16, h.nscount);
    write_bits(&mut out, 80, 16, h.arcount);
    proof {
        assert(bits_at(out@, 0, 16) == h.id as nat);
        assert(bits_at(out@, 16, 1) == (if h.qr {
            1nat
        } else {
            0nat
        }));
        assert(bits_at(out@, 17, 4) == opraw as nat);
        assert(bits_at(out@, 21, 1) == (if h.aa {
            1nat
        } else {
            0nat
        }));
        assert(bits_at(out@, 22, 1) == (if h.tc {
            1nat
        } else {
            0nat
        }));
        assert(bits_at(out@, 23, 1) == (if h.rd {
            1nat
        } else {
            0nat
        }));
        assert(bits_at(out@, 24, 1) == (if h.ra {
            1nat
        } else {
            0nat
        }));
        assert(bits_at(out@, 25, 3) == 0);
        assert(bits_at(out@, 28, 4) == rcraw as nat);
        assert(bits_at(out@, 32, 16) == h.qdcount as nat);
        assert(bits_at(out@, 48, 16) == h.ancount as nat);
        assert(bits_at(out@, 64, 16) == h.nscount as nat);
        assert(bits_at(out@, 80, 16) == h.arcount as nat);
        lemma_bits_at_single(out@, 16);
        lemma_bits_at_single(out@, 21);
        lemma_bits_at_single(out@, 22);
        lemma_bits_at_single(out@, 23);
        lemma_bits_at_single(out@, 24);
        assert(spec_header(out@) == *h);
        assert(out@.subrange(12, 12) =~= Seq::<u8>::empty());
    }
    out
}

/// On every buffer of at least 12 bytes whose reserved zone is zero, decoding
/// succeeds, and each field of the result is exactly the value packed most
/// significant bit first at its documented offset and width.
pub proof fn lemma_decode_complete(bytes: Seq<u8>)
    requires
        bytes.len() >= 12,
        bits_at(bytes, 25, 3) == 0,
    ensures
        spec_decode(bytes) == Ok::<(Header, Seq<u8>), DecodeError>(
            (spec_header(bytes), bytes.subrange(12, bytes.len() as int)),
        ),
        spec_header(bytes).id == bits_at(bytes, 0, 16),
        spec_header(bytes).qr == bit_at(bytes, 16),
        spec_header(bytes).opcode == Opcode::from_raw(bits_at(bytes, 17, 4) as u8),
        spec_header(bytes).aa == bit_at(bytes, 21),
        spec_header(bytes).tc == bit_at(bytes, 22),
        spec_header(bytes).rd == bit_at(bytes, 23),
        spec_header(bytes).ra == bit_at(bytes, 24),
        spec_header(bytes).rcode == Rcode::from_raw(bits_at(bytes, 28, 4) as u8),
        spec_header(bytes).qdcount == bits_at(bytes, 32, 16),
        spec_header(bytes).ancount == bits_at(bytes, 48, 16),
        spec_header(bytes).nscount == bits_at(bytes, 64, 16),
        spec_header(bytes).arcount == bits_at(bytes, 80, 16),
{
    lemma2_to64();
    lemma_bits_at_bound(bytes, 0, 16);
    lemma_bits_at_bound(bytes, 32, 16);
    lemma_bits_at_bound(bytes, 48, 16);
    lemma_bits_at_bound(bytes, 64, 16);
    lemma_bits_at_bound(bytes, 80, 16);
}

/// Every header that decoding can produce is well formed: its opcode and
/// rcode carry only values that fit their 4-bit fields, so it can always be
/// encoded again.
pub proof fn lemma_decoded_wf(bytes: Seq<u8>)
    ensures
        spec_header(bytes).wf(),
{
    lemma2_to64();
    lemma_bits_at_bound(bytes, 17, 4);
    lemma_bits_at_bound(bytes, 28, 4);
}

/// Round trip: a 12-byte buffer that carries a well-formed header `h` — its
/// fields at their offsets and a zero reserved zone, which is exactly what
/// [`encode`] produces from `h` — decodes back to `h` itself, with nothing
/// left over. This holds for every combination of opcode, rcode and flag
/// values, the reserved catch-all variants included.
pub proof fn lemma_round_trip(h: Header, bytes: Seq<u8>)
    requires
        h.wf(),
        bytes.len() == 12,
        spec_header(bytes) == h,
        bits_at(bytes, 25, 3) == 0,
    ensures
        spec_decode(bytes) == Ok::<(Header, Seq<u8>), DecodeError>((h, Seq::<u8>::empty())),
{
    assert(bytes.subrange(12, 12) =~= Seq::<u8>::empty());
}

/// Every buffer shorter than 12 bytes — 0 to 11 bytes inclusive — fails to
/// decode with `Truncated`, reporting 96 bits needed against the bits that
/// were available; no field is produced.
pub proof fn lemma_decode_truncated(bytes: Seq<u8>)
    requires
        bytes.len() < 12,
    ensures
        spec_decode(bytes) == Err::<(Header, Seq<u8>), DecodeError>(
            (DecodeError::Truncated {
                bits_needed: 96,
                bits_available: (8 * bytes.len()) as u32,
            }),
        ),
{
}

/// Every buffer of full length whose 3-bit reserved zone is not all zero
/// fails to decode with `MalformedHeader`, reporting the offending bit
/// pattern and the zone's bit offset; no field is produced.
pub proof fn lemma_decode_malformed(bytes: Seq<u8>)
    requires
        bytes.len() >= 12,
        bits_at(bytes, 25, 3) != 0,
    ensures
        spec_decode(bytes) == Err::<(Header, Seq<u8>), DecodeError>(
            (DecodeError::MalformedHeader { bits: bits_at(bytes, 25, 3) as u8, bit_offset: 25 }),
        ),
{
}

} // verus!
