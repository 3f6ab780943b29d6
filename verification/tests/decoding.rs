use dns_header::codec::decode;
use dns_header::header::DecodeError;
use dns_header::header::Header;
use dns_header::header::Opcode;
use dns_header::header::Rcode;

/// A complete captured response message: a 12-byte header followed by a
/// question section and three resource records.
fn sample_message() -> Vec<u8> {
    vec![
        0x65, 0x8c, 0x81, 0x80, 0x00, 0x01, 0x00, 0x01, 0x00, 0x00, 0x00, 0x01, 0x07, 0x74, 0x77,
        0x69, 0x74, 0x74, 0x65, 0x72, 0x03, 0x63, 0x6f, 0x6d, 0x00, 0x00, 0x01, 0x00, 0x01, 0xc0,
        0x0c, 0x00, 0x01, 0x00, 0x01, 0x00, 0x00, 0x01, 0xd8, 0x00, 0x04, 0x68, 0xf4, 0x2a, 0x41,
        0x00, 0x00, 0x29, 0x10, 0x00, 0x00, 0x00, 0x00, 0x00, 0x00, 0x00,
    ]
}

#[test]
fn decodes_sample_header() {
    let data = sample_message();
    let (header, rest) = decode(&data).expect("a well-formed header must decode");
    assert_eq!(header.id, 0x658c);
    assert_eq!(header.qr, true);
    assert_eq!(header.opcode, Opcode::QUERY);
    assert_eq!(header.aa, false);
    assert_eq!(header.tc, false);
    assert_eq!(header.rd, true);
    assert_eq!(header.ra, true);
    assert_eq!(header.rcode, Rcode::NoErr);
    assert_eq!(header.qdcount, 1);
    assert_eq!(header.ancount, 1);
    assert_eq!(header.nscount, 0);
    assert_eq!(header.arcount, 1);
    assert_eq!(rest, &data[12..]);
}

#[test]
fn decodes_all_ones_counters() {
    // Every field at its maximum, reserved zone still zero:
    // 0xff 0xff | 1 1111 1 1 1 1 000 1111 | four counters of 0xffff.
    let data = vec![
        0xff, 0xff, 0xff, 0x8f, 0xff, 0xff, 0xff, 0xff, 0xff, 0xff, 0xff, 0xff,
    ];
    let (header, rest) = decode(&data).expect("reserved zone is zero, so this must decode");
    assert_eq!(header.id, 0xffff);
    assert_eq!(header.qr, true);
    assert_eq!(header.opcode, Opcode::ERR(0xf));
    assert_eq!(header.aa, true);
    assert_eq!(header.tc, true);
    assert_eq!(header.rd, true);
    assert_eq!(header.ra, true);
    assert_eq!(header.rcode, Rcode::Reserved(0xf));
    assert_eq!(header.qdcount, 0xffff);
    assert_eq!(header.ancount, 0xffff);
    assert_eq!(header.nscount, 0xffff);
    assert_eq!(header.arcount, 0xffff);
    assert!(rest.is_empty());
}

#[test]
fn decodes_fields_that_cross_byte_boundaries() {
    // Second 16-bit word 0x15 0x03, read as 0 0010 1 0 1 | 0 000 0011: a
    // status request with aa and rd set and a name-error rcode, exercising
    // the sub-byte field boundaries.
    let data = vec![
        0x12, 0x34, 0x15, 0x03, 0x00, 0x02, 0x01, 0x00, 0x00, 0x03, 0x00, 0x04,
    ];
    let (header, rest) = decode(&data).expect("reserved zone is zero, so this must decode");
    assert_eq!(header.id, 0x1234);
    assert_eq!(header.qr, false);
    assert_eq!(header.opcode, Opcode::STATUS);
    assert_eq!(header.aa, true);
    assert_eq!(header.tc, false);
    assert_eq!(header.rd, true);
    assert_eq!(header.ra, false);
    assert_eq!(header.rcode, Rcode::NameErr);
    assert_eq!(header.qdcount, 2);
    assert_eq!(header.ancount, 0x0100);
    assert_eq!(header.nscount, 3);
    assert_eq!(header.arcount, 4);
    assert!(rest.is_empty());
}

#[test]
fn truncated_ten_bytes() {
    let data = &sample_message()[..10];
    let err = decode(data).expect_err("ten bytes cannot hold the header");
    assert_eq!(
        err,
        DecodeError::Truncated { bits_needed: 96, bits_available: 80 }
    );
}

#[test]
fn truncated_every_short_length() {
    let message = sample_message();
    for len in 0..12usize {
        let err = decode(&message[..len]).expect_err("fewer than twelve bytes cannot decode");
        assert_eq!(
            err,
            DecodeError::Truncated {
                bits_needed: 96,
                bits_available: 8 * len as u32,
            }
        );
    }
}

#[test]
fn malformed_reserved_zone_full_pattern() {
    let mut data = sample_message();
    data[3] = 0x80 | 0x70; // all three reserved bits set
    let err = decode(&data).expect_err("a non-zero reserved zone must be rejected");
    assert_eq!(err, DecodeError::MalformedHeader { bits: 0b111, bit_offset: 25 });
}

#[test]
fn malformed_reserved_zone_single_bits() {
    for (mask, pattern) in [(0x40u8, 0b100u8), (0x20, 0b010), (0x10, 0b001)] {
        let mut data = sample_message();
        data[3] |= mask;
        let err = decode(&data).expect_err("a non-zero reserved zone must be rejected");
        assert_eq!(err, DecodeError::MalformedHeader { bits: pattern, bit_offset: 25 });
    }
}

#[test]
fn decode_twice_yields_identical_results() {
    let data = sample_message();
    let first = decode(&data).expect("the sample must decode");
    let second = decode(&data).expect("the sample must decode");
    assert_eq!(first.0, second.0);
    assert_eq!(first.1, second.1);
}

#[test]
fn opcode_get_val_assigned_and_reserved() {
    assert_eq!(Opcode::get_val(0), Ok(Opcode::QUERY));
    assert_eq!(Opcode::get_val(1), Ok(Opcode::IQUERY));
    assert_eq!(Opcode::get_val(2), Ok(Opcode::STATUS));
    assert_eq!(Opcode::get_val(3), Ok(Opcode::ERR(3)));
    assert_eq!(Opcode::get_val(15), Ok(Opcode::ERR(15)));
}

#[test]
fn rcode_get_val_assigned_and_reserved() {
    assert_eq!(Rcode::get_val(0), Ok(Rcode::NoErr));
    assert_eq!(Rcode::get_val(1), Ok(Rcode::FormatErr));
    assert_eq!(Rcode::get_val(2), Ok(Rcode::ServerErr));
    assert_eq!(Rcode::get_val(3), Ok(Rcode::NameErr));
    assert_eq!(Rcode::get_val(4), Ok(Rcode::NoImpl));
    assert_eq!(Rcode::get_val(5), Ok(Rcode::Refused));
    assert_eq!(Rcode::get_val(6), Ok(Rcode::Reserved(6)));
    assert_eq!(Rcode::get_val(15), Ok(Rcode::Reserved(15)));
}

#[test]
fn header_is_plain_data() {
    let data = sample_message();
    let (header, _) = decode(&data).expect("the sample must decode");
    let copy: Header = header;
    assert_eq!(copy, header);
}
