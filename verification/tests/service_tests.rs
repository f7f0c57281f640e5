//! Serving-step behaviour: garbage datagrams, end-to-end answer shape,
//! cache interplay on the TLS path, framing, and counters.

use dnsserve::cache::Cache;
use dnsserve::encoder::Address;
use dnsserve::metrics::Metrics;
use dnsserve::parser::QType;
use dnsserve::service::{
    frame_length, frame_message, synthesize_tls, synthesize_udp, tls_answer, tls_lookup,
    udp_receive, TlsLookup,
};

fn build_query(id: u16, name: &str, qtype: dns_parser::QueryType) -> Vec<u8> {
    let mut b = dns_parser::Builder::new_query(id, true);
    b.add_question(name, false, qtype, dns_parser::QueryClass::IN);
    match b.build() {
        Ok(v) => v,
        Err(v) => v,
    }
}

#[test]
fn unparseable_datagram_yields_no_reply_and_is_counted() {
    let mut metrics = Metrics::new();
    let garbage = vec![0xFFu8, 0x00, 0x01];
    assert!(udp_receive(&mut metrics, &garbage).is_none());
    assert_eq!(metrics.total_queries, 1);
    assert_eq!(metrics.failed_parses, 1);
    // The next, valid datagram is still answered.
    let query = build_query(0x0042, "example.com", dns_parser::QueryType::A);
    let question = udp_receive(&mut metrics, &query).unwrap();
    assert!(synthesize_udp(&query, &question.qname, None, 60).is_some());
    assert_eq!(metrics.total_queries, 2);
    assert_eq!(metrics.failed_parses, 1);
}

#[test]
fn udp_answer_has_id_qr_bit_ancount_and_a_record() {
    let mut metrics = Metrics::new();
    let query = build_query(0x7777, "example.com", dns_parser::QueryType::A);
    let question = udp_receive(&mut metrics, &query).unwrap();
    assert_eq!(question.qname, b"example.com".to_vec());
    // Resolution found nothing, so the fixed fallback address answers.
    let resp = synthesize_udp(&query, &question.qname, None, 60).unwrap();
    assert_eq!(&resp[..2], &query[..2]);
    assert!(resp[2] & 0x80 != 0); // QR bit: response
    assert_eq!(&resp[6..8], &[0, 1]); // ANCOUNT = 1
    let packet = dns_parser::Packet::parse(&resp).unwrap();
    assert_eq!(packet.header.id, 0x7777);
    assert_eq!(packet.answers.len(), 1);
    // The answer record's name is the one the parser read out of the query.
    assert_eq!(packet.answers[0].name.to_string(), "example.com");
    match &packet.answers[0].data {
        dns_parser::RData::A(a) => assert_eq!(a.0.octets(), [192, 168, 1, 1]),
        other => panic!("unexpected record data: {:?}", other),
    }
}

#[test]
fn udp_synthesis_uses_resolved_address_when_present() {
    let query = build_query(0x0001, "example.com", dns_parser::QueryType::A);
    let qname = b"example.com".to_vec();
    let resolved = Some(Address::V4([9, 9, 9, 9]));
    let resp = synthesize_udp(&query, &qname, resolved, 120).unwrap();
    let packet = dns_parser::Packet::parse(&resp).unwrap();
    match &packet.answers[0].data {
        dns_parser::RData::A(a) => assert_eq!(a.0.octets(), [9, 9, 9, 9]),
        other => panic!("unexpected record data: {:?}", other),
    }
    assert_eq!(packet.answers[0].ttl, 120);
}

#[test]
fn tls_aaaa_answers_fixed_loopback() {
    let query = build_query(0x0002, "six.example", dns_parser::QueryType::AAAA);
    let qname = b"six.example".to_vec();
    let resp = synthesize_tls(&query, &qname, QType::Aaaa, None, 60).unwrap();
    let packet = dns_parser::Packet::parse(&resp).unwrap();
    let mut loopback = [0u8; 16];
    loopback[15] = 1;
    match &packet.answers[0].data {
        dns_parser::RData::AAAA(a) => assert_eq!(a.0.octets(), loopback),
        other => panic!("unexpected record data: {:?}", other),
    }
}

#[test]
fn tls_unsupported_type_is_skipped() {
    let query = build_query(0x0003, "x.example", dns_parser::QueryType::MX);
    let qname = b"x.example".to_vec();
    assert!(synthesize_tls(&query, &qname, QType::Other, None, 60).is_none());
    let mut cache = Cache::new(4);
    let mut metrics = Metrics::new();
    match tls_lookup(&mut cache, &mut metrics, &query) {
        TlsLookup::Miss(q) => {
            assert_eq!(q.qtype, QType::Other);
            assert!(tls_answer(&mut cache, &query, &q, None, 60).is_none());
        },
        other_step => panic!("expected a cache miss, got {}", step_name(&other_step)),
    }
    assert_eq!(metrics.total_queries, 1);
    assert_eq!(metrics.failed_parses, 0);
}

fn step_name(step: &TlsLookup) -> &'static str {
    match step {
        TlsLookup::ParseFailed => "ParseFailed",
        TlsLookup::NoQuestion => "NoQuestion",
        TlsLookup::Cached(_) => "Cached",
        TlsLookup::Miss(_) => "Miss",
    }
}

#[test]
fn tls_answer_is_cached_and_served_from_cache() {
    let mut cache = Cache::new(4);
    let mut metrics = Metrics::new();
    let query = build_query(0x0004, "cached.example", dns_parser::QueryType::A);
    let first = match tls_lookup(&mut cache, &mut metrics, &query) {
        TlsLookup::Miss(q) => tls_answer(&mut cache, &query, &q, None, 60).unwrap(),
        other_step => panic!("expected a cache miss, got {}", step_name(&other_step)),
    };
    // A second message for the same name is served from the cache: even a
    // different transaction id gets the stored bytes back, id included.
    let query2 = build_query(0x9999, "cached.example", dns_parser::QueryType::A);
    let second = match tls_lookup(&mut cache, &mut metrics, &query2) {
        TlsLookup::Cached(bytes) => bytes,
        other_step => panic!("expected a cache hit, got {}", step_name(&other_step)),
    };
    assert_eq!(first, second);
    assert_eq!(&second[..2], &[0x00, 0x04]);
}

#[test]
fn tls_oversized_label_produces_no_reply() {
    // Hand-build a query whose single label claims 64 bytes: whether the
    // parser refuses the label format or the encoder refuses the name, no
    // reply may leave the server.
    let mut query = vec![0x12, 0x34, 0x01, 0x00, 0, 1, 0, 0, 0, 0, 0, 0];
    query.push(64);
    query.extend_from_slice(&[b'x'; 64]);
    query.push(0);
    query.extend_from_slice(&[0, 1, 0, 1]); // QTYPE A, QCLASS IN
    let mut cache = Cache::new(4);
    let mut metrics = Metrics::new();
    let reply = match tls_lookup(&mut cache, &mut metrics, &query) {
        TlsLookup::Miss(q) => tls_answer(&mut cache, &query, &q, None, 60),
        TlsLookup::Cached(bytes) => Some(bytes),
        TlsLookup::ParseFailed | TlsLookup::NoQuestion => None,
    };
    assert!(reply.is_none());
}

#[test]
fn framing_prefixes_the_length_big_endian() {
    let msg = vec![1u8, 2, 3];
    let framed = frame_message(&msg).unwrap();
    assert_eq!(framed, vec![0, 3, 1, 2, 3]);
    assert_eq!(frame_length(framed[0], framed[1]), 3);
    assert_eq!(frame_length(0x12, 0x34), 0x1234);
}

#[test]
fn framing_rejects_messages_longer_than_the_prefix_can_say() {
    let msg = vec![0u8; 65536];
    assert!(frame_message(&msg).is_none());
    let edge = vec![0u8; 65535];
    let framed = frame_message(&edge).unwrap();
    assert_eq!(framed[0], 0xFF);
    assert_eq!(framed[1], 0xFF);
    assert_eq!(framed.len(), 65537);
}
