use digger::{
    build_dns_request, parse_resolv_conf, parse_ipv4, DiggerError, DnsClass, DnsType,
    QuerySession, SessionState,
};

fn response(id: u16) -> Vec<u8> {
    let mut v = vec![(id >> 8) as u8, id as u8, 0x81, 0x80, 0, 1, 0, 1, 0, 0, 0, 0];
    v.extend_from_slice(&[
        0x07, 0x65, 0x78, 0x61, 0x6D, 0x70, 0x6C, 0x65, 0x03, 0x63, 0x6F, 0x6D, 0x00, 0x00, 0x01,
        0x00, 0x01,
    ]);
    v.extend_from_slice(&[
        0xC0, 0x0C, 0x00, 0x01, 0x00, 0x01, 0x00, 0x00, 0x0E, 0x10, 0x00, 0x04, 0x5D, 0xB8, 0xD8,
        0x22,
    ]);
    v
}

#[test]
fn session_sends_the_query_once() {
    let mut s = QuerySession::new(0x1234, b"example.com", DnsType::Address, DnsClass::Internet)
        .unwrap();
    assert_eq!(s.state(), SessionState::Idle);
    assert_eq!(s.id(), 0x1234);
    let q = s.start().unwrap();
    assert_eq!(
        q,
        build_dns_request(0x1234, b"example.com", DnsType::Address, DnsClass::Internet).unwrap()
    );
    assert_eq!(s.state(), SessionState::AwaitingResponse);
    assert_eq!(s.start(), None);
}

#[test]
fn session_ignores_other_ids_until_the_answer() {
    let mut s = QuerySession::new(0x1234, b"example.com", DnsType::Address, DnsClass::Internet)
        .unwrap();
    s.start().unwrap();
    assert!(s.on_datagram(&response(0x4321)).is_none());
    assert_eq!(s.state(), SessionState::AwaitingResponse);
    assert!(s.on_datagram(&[1, 2, 3]).is_none());
    assert_eq!(s.state(), SessionState::AwaitingResponse);
    let m = s.on_datagram(&response(0x1234)).unwrap();
    assert_eq!(m.answers[0].address(), Some([93, 184, 216, 34]));
    assert_eq!(s.state(), SessionState::Done);
    assert!(s.on_datagram(&response(0x1234)).is_none());
    assert_eq!(s.on_timeout(), None);
}

#[test]
fn session_times_out_after_a_mismatch() {
    let mut s = QuerySession::new(9, b"example.com", DnsType::Address, DnsClass::Internet)
        .unwrap();
    assert_eq!(s.on_timeout(), None);
    s.start().unwrap();
    assert!(s.on_datagram(&response(10)).is_none());
    assert_eq!(s.on_timeout(), Some(DiggerError::ResolverTimeout));
    assert_eq!(s.state(), SessionState::Done);
}

#[test]
fn session_rejects_bad_name() {
    assert!(matches!(
        QuerySession::new(1, b"a..b", DnsType::Address, DnsClass::Internet),
        Err(DiggerError::LabelTooLong)
    ));
}

#[test]
fn resolver_from_first_nameserver_line() {
    let text = b"# generated\nsearch lan\nnameserver 8.8.4.4\nnameserver 1.1.1.1\n";
    assert_eq!(parse_resolv_conf(text), Ok([8, 8, 4, 4]));
}

#[test]
fn resolver_line_with_blanks() {
    let text = b"nameserver\t 192.168.0.1 \r\n";
    assert_eq!(parse_resolv_conf(text), Ok([192, 168, 0, 1]));
    assert_eq!(parse_resolv_conf(b"options x\nnameserver 10.0.0.53"), Ok([10, 0, 0, 53]));
}

#[test]
fn resolver_not_found() {
    assert_eq!(parse_resolv_conf(b""), Err(DiggerError::ResolverNotFound));
    assert_eq!(parse_resolv_conf(b"search lan\n"), Err(DiggerError::ResolverNotFound));
    assert_eq!(
        parse_resolv_conf(b"# nameserver 1.2.3.4\n"),
        Err(DiggerError::ResolverNotFound)
    );
}

#[test]
fn malformed_first_resolver_is_not_found() {
    assert_eq!(
        parse_resolv_conf(b"nameserver 256.1.1.1\nnameserver 1.1.1.1\n"),
        Err(DiggerError::ResolverNotFound)
    );
    assert_eq!(parse_resolv_conf(b"nameserver ::1\n"), Err(DiggerError::ResolverNotFound));
}

#[test]
fn dotted_quads() {
    assert_eq!(parse_ipv4(b"93.184.216.34"), Some([93, 184, 216, 34]));
    assert_eq!(parse_ipv4(b"0.0.0.0"), Some([0, 0, 0, 0]));
    assert_eq!(parse_ipv4(b"255.255.255.255"), Some([255, 255, 255, 255]));
    assert_eq!(parse_ipv4(b"1.2.3"), None);
    assert_eq!(parse_ipv4(b"1.2.3.4.5"), None);
    assert_eq!(parse_ipv4(b"1.2..4"), None);
    assert_eq!(parse_ipv4(b"1.2.3.a"), None);
    assert_eq!(parse_ipv4(b"1.2.3.1000"), None);
    assert_eq!(parse_ipv4(b""), None);
    assert_eq!(parse_ipv4(b"010.0.0.1"), None);
    assert_eq!(parse_ipv4(b"10.00.0.1"), None);
    assert_eq!(parse_ipv4(b"10.0.0.10"), Some([10, 0, 0, 10]));
}

#[test]
fn error_messages_and_codes_are_distinct() {
    let all = [
        DiggerError::ResolverNotFound,
        DiggerError::NameTooLong,
        DiggerError::LabelTooLong,
        DiggerError::BufferOverflow,
        DiggerError::TruncatedMessage,
        DiggerError::CompressionLoop,
        DiggerError::ResponseMismatch,
        DiggerError::ResolverTimeout,
    ];
    for (i, a) in all.iter().enumerate() {
        assert!(a.exit_code() != 0);
        for b in all.iter().skip(i + 1) {
            assert_ne!(a.to_str(), b.to_str());
            assert_ne!(a.exit_code(), b.exit_code());
        }
    }
    assert_eq!(DiggerError::ResolverNotFound.to_str(), "Could not determine system resolver.");
}

#[test]
fn resolver_token_is_the_first_after_the_keyword() {
    assert_eq!(parse_resolv_conf(b"nameserver 9.9.9.9 # quad nine\n"), Ok([9, 9, 9, 9]));
    assert_eq!(parse_resolv_conf(b"nameserver 9.9.9.9\t1.1.1.1\n"), Ok([9, 9, 9, 9]));
    assert_eq!(parse_resolv_conf(b"nameserver 09.9.9.9\n"), Err(DiggerError::ResolverNotFound));
    assert_eq!(parse_resolv_conf(b"nameserver\n"), Err(DiggerError::ResolverNotFound));
}
