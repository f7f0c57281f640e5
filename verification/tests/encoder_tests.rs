//! Wire encoder behaviour against hand-computed bytes and against the real
//! DNS packet parser.

use dnsserve::encoder::{
    build_dns_response, serialize_name, serialize_resource_record, Address, EncodeError,
};

fn build_query(id: u16, name: &str, qtype: dns_parser::QueryType) -> Vec<u8> {
    let mut b = dns_parser::Builder::new_query(id, true);
    b.add_question(name, false, qtype, dns_parser::QueryClass::IN);
    match b.build() {
        Ok(v) => v,
        Err(v) => v,
    }
}

#[test]
fn name_encodes_as_length_prefixed_labels() {
    let name = b"example.com".to_vec();
    let mut buf: Vec<u8> = Vec::new();
    let r = serialize_name(&name, &mut buf);
    assert!(r.is_ok());
    let mut expected = vec![7u8];
    expected.extend_from_slice(b"example");
    expected.push(3);
    expected.extend_from_slice(b"com");
    expected.push(0);
    assert_eq!(buf, expected);
}

#[test]
fn empty_labels_are_skipped() {
    let name = b".a..b.".to_vec();
    let mut buf: Vec<u8> = Vec::new();
    assert!(serialize_name(&name, &mut buf).is_ok());
    assert_eq!(buf, vec![1, b'a', 1, b'b', 0]);
}

#[test]
fn empty_name_is_just_the_root_octet() {
    let mut buf: Vec<u8> = Vec::new();
    assert!(serialize_name(&Vec::new(), &mut buf).is_ok());
    assert_eq!(buf, vec![0]);
}

#[test]
fn oversized_label_fails_with_no_partial_output() {
    let mut name = b"ok.".to_vec();
    name.extend_from_slice(&[b'x'; 64]);
    let mut buf: Vec<u8> = vec![0xAA, 0xBB];
    let r = serialize_name(&name, &mut buf);
    assert_eq!(r, Err(EncodeError::LabelTooLong));
    assert_eq!(buf, vec![0xAA, 0xBB]);
}

#[test]
fn sixty_three_byte_label_is_accepted() {
    let name = vec![b'y'; 63];
    let mut buf: Vec<u8> = Vec::new();
    assert!(serialize_name(&name, &mut buf).is_ok());
    assert_eq!(buf[0], 63);
    assert_eq!(buf.len(), 65);
}

#[test]
fn record_bytes_are_exact_for_ipv4() {
    let name = b"a.b".to_vec();
    let addr = Address::V4([10, 0, 0, 1]);
    let mut buf: Vec<u8> = Vec::new();
    assert!(serialize_resource_record(&name, &addr, 0x01020304, &mut buf).is_ok());
    let expected = vec![
        1, b'a', 1, b'b', 0, // name
        0, 1, // TYPE A
        0, 1, // CLASS IN
        1, 2, 3, 4, // TTL big-endian
        0, 4, // RDLENGTH backpatched
        10, 0, 0, 1, // address
    ];
    assert_eq!(buf, expected);
}

#[test]
fn record_fails_whole_when_name_fails() {
    let name = vec![b'z'; 70];
    let addr = Address::V4([1, 2, 3, 4]);
    let mut buf: Vec<u8> = vec![9];
    assert_eq!(
        serialize_resource_record(&name, &addr, 60, &mut buf),
        Err(EncodeError::LabelTooLong)
    );
    assert_eq!(buf, vec![9]);
}

#[test]
fn response_echoes_id_and_question_and_appends_record() {
    let query = build_query(0xBEEF, "example.com", dns_parser::QueryType::A);
    let qname = b"example.com".to_vec();
    let addr = Address::V6([0xFE; 16]);
    let resp = build_dns_response(&query, &qname, &addr, 60).unwrap();
    assert_eq!(&resp[..2], &query[..2]);
    assert_eq!(&resp[2..4], &[0x81, 0x80]);
    assert_eq!(&resp[4..6], &query[4..6]);
    assert_eq!(&resp[6..12], &[0, 1, 0, 0, 0, 0]);
    let qsection = &query[12..];
    assert_eq!(&resp[12..12 + qsection.len()], qsection);
    let record = &resp[12 + qsection.len()..];
    assert_eq!(&record[13..15], &[0, 28]); // 13 name bytes, then TYPE AAAA

}

#[test]
fn encoded_response_round_trips_through_the_real_parser() {
    let query = build_query(0x1234, "example.com", dns_parser::QueryType::A);
    let qname = b"example.com".to_vec();
    let addr = Address::V4([1, 2, 3, 4]);
    let resp = build_dns_response(&query, &qname, &addr, 300).unwrap();
    let packet = dns_parser::Packet::parse(&resp).unwrap();
    assert_eq!(packet.header.id, 0x1234);
    assert!(packet.header.query == false);
    assert_eq!(packet.header.answers, 1);
    assert_eq!(packet.answers.len(), 1);
    let answer = &packet.answers[0];
    assert_eq!(answer.name.to_string(), "example.com");
    assert_eq!(answer.ttl, 300);
    match &answer.data {
        dns_parser::RData::A(a) => assert_eq!(a.0.octets(), [1, 2, 3, 4]),
        other => panic!("unexpected record data: {:?}", other),
    }
}

#[test]
fn encoded_v6_response_round_trips_through_the_real_parser() {
    let query = build_query(0x4321, "v6.example", dns_parser::QueryType::AAAA);
    let qname = b"v6.example".to_vec();
    let mut six = [0u8; 16];
    six[15] = 1;
    let resp = build_dns_response(&query, &qname, &Address::V6(six), 60).unwrap();
    let packet = dns_parser::Packet::parse(&resp).unwrap();
    let answer = &packet.answers[0];
    assert_eq!(answer.name.to_string(), "v6.example");
    match &answer.data {
        dns_parser::RData::AAAA(a) => assert_eq!(a.0.octets(), six),
        other => panic!("unexpected record data: {:?}", other),
    }
}
