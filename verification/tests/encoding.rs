use dns_header::bits::read_bits;
use dns_header::bits::write_bits;
use dns_header::codec::decode;
use dns_header::codec::encode;
use dns_header::header::Header;
use dns_header::header::Opcode;
use dns_header::header::Rcode;

fn header(id: u16, qr: bool, opcode: Opcode, rcode: Rcode) -> Header {
    Header {
        id,
        qr,
        opcode,
        aa: qr,
        tc: !qr,
        rd: true,
        ra: false,
        rcode,
        qdcount: 1,
        ancount: 0,
        nscount: 0xffff,
        arcount: 0x1234,
    }
}

#[test]
fn encodes_sample_header_to_exact_bytes() {
    let h = Header {
        id: 0x658c,
        qr: true,
        opcode: Opcode::QUERY,
        aa: false,
        tc: false,
        rd: true,
        ra: true,
        rcode: Rcode::NoErr,
        qdcount: 1,
        ancount: 1,
        nscount: 0,
        arcount: 1,
    };
    let wire = encode(&h);
    assert_eq!(
        wire,
        vec![0x65, 0x8c, 0x81, 0x80, 0x00, 0x01, 0x00, 0x01, 0x00, 0x00, 0x00, 0x01]
    );
}

#[test]
fn round_trip_over_enum_and_flag_combinations() {
    let opcodes = [
        Opcode::QUERY,
        Opcode::IQUERY,
        Opcode::STATUS,
        Opcode::ERR(3),
        Opcode::ERR(9),
        Opcode::ERR(15),
    ];
    let rcodes = [
        Rcode::NoErr,
        Rcode::FormatErr,
        Rcode::ServerErr,
        Rcode::NameErr,
        Rcode::NoImpl,
        Rcode::Refused,
        Rcode::Reserved(6),
        Rcode::Reserved(11),
        Rcode::Reserved(15),
    ];
    for &opcode in &opcodes {
        for &rcode in &rcodes {
            for &qr in &[false, true] {
                let h = header(0xa5c3, qr, opcode, rcode);
                let wire = encode(&h);
                assert_eq!(wire.len(), 12);
                let (decoded, rest) = decode(&wire).expect("an encoded header must decode");
                assert_eq!(decoded, h);
                assert!(rest.is_empty());
            }
        }
    }
}

#[test]
fn round_trip_keeps_extreme_counters() {
    let h = Header {
        id: 0,
        qr: false,
        opcode: Opcode::QUERY,
        aa: false,
        tc: false,
        rd: false,
        ra: false,
        rcode: Rcode::NoErr,
        qdcount: 0,
        ancount: 0xffff,
        nscount: 0,
        arcount: 0xffff,
    };
    let wire = encode(&h);
    let (decoded, rest) = decode(&wire).expect("an encoded header must decode");
    assert_eq!(decoded, h);
    assert!(rest.is_empty());
}

#[test]
fn read_bits_is_msb_first_at_any_alignment() {
    // 0xb4 0x3c = 1011 0100 0011 1100
    let data: Vec<u8> = vec![0xb4, 0x3c];
    assert_eq!(read_bits(&data, 0, 8), 0xb4);
    assert_eq!(read_bits(&data, 8, 8), 0x3c);
    assert_eq!(read_bits(&data, 0, 16), 0xb43c);
    assert_eq!(read_bits(&data, 0, 1), 1);
    assert_eq!(read_bits(&data, 1, 1), 0);
    assert_eq!(read_bits(&data, 2, 4), 0b1101);
    assert_eq!(read_bits(&data, 6, 5), 0b00001);
    assert_eq!(read_bits(&data, 12, 4), 0b1100);
    assert_eq!(read_bits(&data, 5, 0), 0);
}

#[test]
fn write_bits_fills_the_named_range_and_nothing_else() {
    let mut buf: Vec<u8> = vec![0x00, 0xff];
    write_bits(&mut buf, 6, 5, 0b10110);
    // Bits 6..11 become 1 0110; bits 0..6 stay 0 and bits 11..16 stay 1.
    assert_eq!(buf, vec![0b0000_0010, 0b1101_1111]);
    write_bits(&mut buf, 0, 0, 0);
    assert_eq!(buf, vec![0b0000_0010, 0b1101_1111]);
    write_bits(&mut buf, 0, 16, 0x9e71);
    assert_eq!(buf, vec![0x9e, 0x71]);
}
