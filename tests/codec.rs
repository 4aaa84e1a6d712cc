use digger::{
    build_dns_request, decode_name, encode_name, parse_message, parse_response, DiggerError,
    DnsClass, DnsHeader, DnsOperations, DnsType, Message, Reader, Record, Writer, HEADER_LEN,
};

const EXAMPLE_QUESTION: [u8; 17] = [
    0x07, 0x65, 0x78, 0x61, 0x6D, 0x70, 0x6C, 0x65, 0x03, 0x63, 0x6F, 0x6D, 0x00, 0x00, 0x01,
    0x00, 0x01,
];

fn example_response(id: u16, flags: u16, ancount: u16, answers: usize) -> Vec<u8> {
    let mut v = vec![
        (id >> 8) as u8,
        id as u8,
        (flags >> 8) as u8,
        flags as u8,
        0x00,
        0x01,
        (ancount >> 8) as u8,
        ancount as u8,
        0x00,
        0x00,
        0x00,
        0x00,
    ];
    v.extend_from_slice(&EXAMPLE_QUESTION);
    for _ in 0..answers {
        v.extend_from_slice(&[
            0xC0, 0x0C, 0x00, 0x01, 0x00, 0x01, 0x00, 0x00, 0x0E, 0x10, 0x00, 0x04, 0x5D, 0xB8,
            0xD8, 0x22,
        ]);
    }
    v
}

#[test]
fn query_for_example_com_has_exact_bytes() {
    let q = build_dns_request(0x1234, b"example.com", DnsType::Address, DnsClass::Internet)
        .unwrap();
    let mut expected = vec![
        0x12, 0x34, 0x01, 0x00, 0x00, 0x01, 0x00, 0x00, 0x00, 0x00, 0x00, 0x00,
    ];
    expected.extend_from_slice(&EXAMPLE_QUESTION);
    assert_eq!(q, expected);
}

#[test]
fn query_with_bad_name_fails() {
    let long_label = vec![b'a'; 64];
    assert_eq!(
        build_dns_request(1, &long_label, DnsType::Address, DnsClass::Internet),
        Err(DiggerError::LabelTooLong)
    );
}

#[test]
fn crafted_response_decodes_to_address() {
    let buf = example_response(0x1234, 0x8180, 1, 1);
    let m: Message = parse_response(0x1234, &buf).unwrap();
    assert_eq!(m.header.qdcount, 1);
    assert_eq!(m.header.ancount, 1);
    assert_eq!(m.questions.len(), 1);
    assert_eq!(m.questions[0].name, b"example.com".to_vec());
    assert_eq!(m.questions[0].qtype, DnsType::Address);
    assert_eq!(m.questions[0].qclass, DnsClass::Internet);
    assert_eq!(m.answers.len(), 1);
    let a = &m.answers[0];
    assert_eq!(a.name, b"example.com".to_vec());
    assert_eq!(a.ttl, 3600);
    assert_eq!(a.data_offset, buf.len() - 4);
    assert_eq!(a.address(), Some([93, 184, 216, 34]));
    assert_eq!(a.cname(&buf), Ok(None));
}

#[test]
fn fewer_answers_than_declared_is_truncated() {
    let buf = example_response(0x1234, 0x8180, 2, 1);
    assert_eq!(parse_message(&buf), Err(DiggerError::TruncatedMessage));
    assert_eq!(parse_response(0x1234, &buf), Err(DiggerError::TruncatedMessage));
}

#[test]
fn answers_cut_short_are_truncated() {
    let mut buf = example_response(0x1234, 0x8180, 1, 1);
    buf.pop();
    assert_eq!(parse_message(&buf), Err(DiggerError::TruncatedMessage));
}

#[test]
fn bytes_after_declared_entries_are_not_read() {
    let mut buf = example_response(0x1234, 0x8180, 1, 1);
    buf.extend_from_slice(&[0xFF, 0xFF, 0xFF]);
    let m = parse_message(&buf).unwrap();
    assert_eq!(m.answers.len(), 1);
}

#[test]
fn short_header_is_truncated() {
    assert_eq!(parse_message(&[0x12, 0x34, 0x81]), Err(DiggerError::TruncatedMessage));
}

#[test]
fn response_with_other_id_is_mismatch() {
    let buf = example_response(0x4321, 0x8180, 1, 1);
    assert_eq!(parse_response(0x1234, &buf), Err(DiggerError::ResponseMismatch));
}

#[test]
fn query_instead_of_response_is_mismatch() {
    let buf = example_response(0x1234, 0x0100, 1, 1);
    assert_eq!(parse_response(0x1234, &buf), Err(DiggerError::ResponseMismatch));
    assert!(parse_message(&buf).is_ok());
}

#[test]
fn name_round_trip() {
    for name in [&b"www.example.com"[..], b"a", b"x-y.z0.test", b""] {
        let enc = encode_name(name).unwrap();
        let mut rd = Reader::at(&enc, 0);
        let dec = decode_name(&mut rd).unwrap();
        assert_eq!(dec, name.to_vec());
        assert_eq!(rd.position(), enc.len());
    }
}

#[test]
fn root_name_encodes_as_zero_octet() {
    assert_eq!(encode_name(b""), Ok(vec![0]));
}

#[test]
fn label_of_63_octets_is_accepted() {
    let label = vec![b'a'; 63];
    let enc = encode_name(&label).unwrap();
    assert_eq!(enc.len(), 65);
    assert_eq!(enc[0], 63);
}

#[test]
fn label_of_64_octets_is_rejected() {
    let label = vec![b'a'; 64];
    assert_eq!(encode_name(&label), Err(DiggerError::LabelTooLong));
}

#[test]
fn empty_label_is_rejected() {
    assert_eq!(encode_name(b"a..b"), Err(DiggerError::LabelTooLong));
    assert_eq!(encode_name(b"example.com."), Err(DiggerError::LabelTooLong));
    assert_eq!(encode_name(b".com"), Err(DiggerError::LabelTooLong));
}

fn name_of_len(n: usize) -> Vec<u8> {
    let mut v = Vec::new();
    while v.len() < n {
        if !v.is_empty() {
            v.push(b'.');
        }
        let take = std::cmp::min(50, n - v.len());
        v.extend(std::iter::repeat(b'b').take(take));
    }
    v
}

#[test]
fn name_of_253_bytes_encodes_to_255() {
    let name = name_of_len(253);
    assert_eq!(name.len(), 253);
    assert_eq!(encode_name(&name).unwrap().len(), 255);
}

#[test]
fn name_of_254_bytes_is_too_long() {
    let name = name_of_len(254);
    assert_eq!(name.len(), 254);
    assert_eq!(encode_name(&name), Err(DiggerError::NameTooLong));
}

#[test]
fn compression_pointer_is_followed_once() {
    // "example.com" at offset 0, then "www" and a pointer to offset 0.
    let mut buf = encode_name(b"example.com").unwrap();
    let second = buf.len();
    buf.extend_from_slice(&[0x03, b'w', b'w', b'w', 0xC0, 0x00, 0xAA]);
    let mut rd = Reader::at(&buf, second);
    assert_eq!(decode_name(&mut rd).unwrap(), b"www.example.com".to_vec());
    assert_eq!(rd.position(), buf.len() - 1);
}

#[test]
fn pointer_to_itself_is_a_loop() {
    let buf = [0xC0, 0x00];
    let mut rd = Reader::at(&buf, 0);
    assert_eq!(decode_name(&mut rd), Err(DiggerError::CompressionLoop));
}

#[test]
fn pointer_chain_is_a_loop() {
    let buf = [0x01, b'a', 0xC0, 0x04, 0xC0, 0x00];
    let mut rd = Reader::at(&buf, 0);
    assert_eq!(decode_name(&mut rd), Err(DiggerError::CompressionLoop));
}

#[test]
fn pointer_past_end_is_truncated() {
    let buf = [0xC0, 0x10];
    let mut rd = Reader::at(&buf, 0);
    assert_eq!(decode_name(&mut rd), Err(DiggerError::TruncatedMessage));
}

#[test]
fn reserved_label_length_is_rejected() {
    let buf = [0x40, b'a', 0x00];
    let mut rd = Reader::at(&buf, 0);
    assert_eq!(decode_name(&mut rd), Err(DiggerError::LabelTooLong));
}

#[test]
fn label_past_end_is_truncated() {
    let buf = [0x05, b'a', b'b'];
    let mut rd = Reader::at(&buf, 0);
    assert_eq!(decode_name(&mut rd), Err(DiggerError::TruncatedMessage));
}

#[test]
fn cname_target_resolves_pointer() {
    let mut w = Writer::new(512);
    let mut h = DnsHeader::new();
    h.id = 7;
    h.set_qr(true);
    h.ancount = 1;
    h.pack(&mut w).unwrap();
    let rec = Record {
        name: b"www.example.com".to_vec(),
        rtype: DnsType::CName,
        rclass: DnsClass::Internet,
        ttl: 60,
        data: vec![0x07, b'e', b'x', b'a', b'm', b'p', b'l', b'e', 0xC0, 0x10],
        data_offset: 0,
    };
    rec.pack(&mut w).unwrap();
    let buf = w.into_bytes();
    let m = parse_response(7, &buf).unwrap();
    let a = &m.answers[0];
    assert_eq!(a.rtype, DnsType::CName);
    assert_eq!(a.address(), None);
    assert_eq!(a.cname(&buf), Ok(Some(b"example.example.com".to_vec())));
}

#[test]
fn record_pack_then_unpack() {
    let rec = Record {
        name: b"host.test".to_vec(),
        rtype: DnsType::Unrecognized(28),
        rclass: DnsClass::CHAOS,
        ttl: 0xDEADBEEF,
        data: vec![1, 2, 3],
        data_offset: 0,
    };
    let mut w = Writer::new(100);
    rec.pack(&mut w).unwrap();
    let buf = w.into_bytes();
    let mut rd = Reader::at(&buf, 0);
    let back = Record::unpack(&mut rd).unwrap();
    assert_eq!(back.name, rec.name);
    assert_eq!(back.rtype, rec.rtype);
    assert_eq!(back.rclass, rec.rclass);
    assert_eq!(back.ttl, rec.ttl);
    assert_eq!(back.data, rec.data);
    assert_eq!(back.data_offset, buf.len() - 3);
}

#[test]
fn record_pack_without_room_overflows() {
    let rec = Record {
        name: b"a".to_vec(),
        rtype: DnsType::Address,
        rclass: DnsClass::Internet,
        ttl: 1,
        data: vec![1, 2, 3, 4],
        data_offset: 0,
    };
    let mut w = Writer::new(10);
    assert_eq!(rec.pack(&mut w), Err(DiggerError::BufferOverflow));
    assert_eq!(w.len(), 0);
}

#[test]
fn header_round_trip() {
    let mut h = DnsHeader::new();
    h.id = 0xBEEF;
    h.set_qr(true);
    h.set_opcode(DnsOperations::Status);
    h.set_aa(true);
    h.set_tc(false);
    h.set_rd(true);
    h.set_ra(true);
    h.set_rcode(3);
    h.qdcount = 1;
    h.ancount = 2;
    h.nscount = 3;
    h.arcount = 0xFFFF;
    let mut w = Writer::new(HEADER_LEN);
    h.pack(&mut w).unwrap();
    let buf = w.into_bytes();
    assert_eq!(buf.len(), 12);
    let mut rd = Reader::at(&buf, 0);
    let back = DnsHeader::unpack(&mut rd).unwrap();
    assert_eq!(back, h);
    assert!(back.qr());
    assert_eq!(back.opcode(), DnsOperations::Status);
    assert!(back.aa());
    assert!(!back.tc());
    assert!(back.rd());
    assert!(back.ra());
    assert_eq!(back.rcode(), 3);
}

#[test]
fn flag_bits_sit_where_the_wire_format_puts_them() {
    let mut h = DnsHeader::new();
    h.set_qr(true);
    assert_eq!(h.cfg, 0x8000);
    let mut h = DnsHeader::new();
    h.set_aa(true);
    assert_eq!(h.cfg, 0x0400);
    let mut h = DnsHeader::new();
    h.set_tc(true);
    assert_eq!(h.cfg, 0x0200);
    let mut h = DnsHeader::new();
    h.set_rd(true);
    assert_eq!(h.cfg, 0x0100);
    let mut h = DnsHeader::new();
    h.set_ra(true);
    assert_eq!(h.cfg, 0x0080);
    let mut h = DnsHeader::new();
    h.set_opcode(DnsOperations::IQuery);
    assert_eq!(h.cfg, 0x0800);
    let mut h = DnsHeader::new();
    h.set_rcode(0xF);
    assert_eq!(h.cfg, 0x000F);
    h.set_qr(true);
    h.set_qr(false);
    assert_eq!(h.cfg, 0x000F);
}

#[test]
fn cfg_bit_get_and_set() {
    let mut h = DnsHeader::new();
    h.set_cfg_bit(3, true);
    assert!(h.get_cfg_bit(3));
    assert_eq!(h.cfg, 0x0008);
    h.set_cfg_bit(3, false);
    assert!(!h.get_cfg_bit(3));
    assert_eq!(h.cfg, 0);
}

#[test]
fn undefined_opcode_is_kept() {
    let mut h = DnsHeader::new();
    h.cfg = 0x5 << 11;
    assert_eq!(h.opcode(), DnsOperations::Unrecognized(5));
    h.set_opcode(DnsOperations::Query);
    assert_eq!(h.opcode(), DnsOperations::Query);
    assert_eq!(h.cfg, 0);
}

#[test]
fn header_pack_without_room_overflows() {
    let h = DnsHeader::new();
    let mut w = Writer::new(11);
    assert_eq!(h.pack(&mut w), Err(DiggerError::BufferOverflow));
    assert_eq!(w.len(), 0);
}

#[test]
fn type_and_class_codes() {
    assert_eq!(DnsType::Address.to_u8(), 1);
    assert_eq!(DnsType::Text.to_u8(), 16);
    assert_eq!(DnsType::AXFR.to_u16(), 252);
    assert_eq!(DnsType::MAILB.to_u16(), 253);
    assert_eq!(DnsType::MAILA.to_u16(), 254);
    assert_eq!(DnsType::All.to_u16(), 255);
    assert_eq!(DnsType::from_u16(5), DnsType::CName);
    assert_eq!(DnsType::from_u8(15), DnsType::MailExchange);
    assert_eq!(DnsType::from_u16(28), DnsType::Unrecognized(28));
    assert_eq!(DnsType::Unrecognized(257).to_u16(), 257);
    assert_eq!(DnsClass::Internet.to_u8(), 1);
    assert_eq!(DnsClass::Hesiod.to_u8(), 4);
    assert_eq!(DnsClass::from_u16(3), DnsClass::CHAOS);
    assert_eq!(DnsClass::from_u8(2), DnsClass::CSNET);
    assert_eq!(DnsClass::from_u16(254), DnsClass::Unrecognized(254));
}

#[test]
fn long_label_in_long_name_is_a_label_error() {
    let label = vec![b'a'; 300];
    assert_eq!(encode_name(&label), Err(DiggerError::LabelTooLong));
    let mut name = name_of_len(250);
    name.extend_from_slice(b".");
    name.extend(std::iter::repeat(b'c').take(64));
    assert_eq!(encode_name(&name), Err(DiggerError::LabelTooLong));
    assert_eq!(
        build_dns_request(1, &label, DnsType::Address, DnsClass::Internet),
        Err(DiggerError::LabelTooLong)
    );
}

#[test]
fn overlong_name_with_empty_label_is_too_long() {
    let label = vec![b'a'; 50];
    let mut name = vec![b'.'];
    for k in 0..5 {
        if k > 0 {
            name.push(b'.');
        }
        name.extend_from_slice(&label);
    }
    assert_eq!(name.len(), 255);
    assert_eq!(encode_name(&name), Err(DiggerError::NameTooLong));
    assert_eq!(
        build_dns_request(1, &name, DnsType::Address, DnsClass::Internet),
        Err(DiggerError::NameTooLong)
    );
    assert_eq!(encode_name(b".a"), Err(DiggerError::LabelTooLong));
}
