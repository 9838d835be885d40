use dns_spider::dns::{DnsMessageType, DnsParser, DnsProtocol, DnsRecordType};
use dns_spider::stats::StatsCounter;
use dns_spider::wire::UdpDnsParser;

fn query() -> Vec<u8> {
    vec![
        0x12, 0x34, 0x01, 0x00, 0x00, 0x01, 0x00, 0x00, 0x00, 0x00, 0x00, 0x00, 0x07, 0x65, 0x78,
        0x61, 0x6d, 0x70, 0x6c, 0x65, 0x03, 0x63, 0x6f, 0x6d, 0x00, 0x00, 0x01, 0x00, 0x01,
    ]
}

fn response_with(rtype: u16, rdata: &[u8]) -> Vec<u8> {
    let mut m = query();
    m[2] = 0x81;
    m[3] = 0x80;
    m[7] = 0x01;
    m.extend_from_slice(&[0xc0, 0x0c]);
    m.extend_from_slice(&rtype.to_be_bytes());
    m.extend_from_slice(&[0x00, 0x01, 0x00, 0x00, 0x0e, 0x10]);
    m.extend_from_slice(&(rdata.len() as u16).to_be_bytes());
    m.extend_from_slice(rdata);
    m
}

#[test]
fn minimal_a_query() {
    let mut parser = UdpDnsParser::new(65535);
    let mut stats = StatsCounter::new();
    let m = parser.parse(&query(), &mut stats).unwrap();
    assert_eq!(m.transaction_id, 0x1234);
    assert_eq!(m.message_type, DnsMessageType::Query);
    assert_eq!(m.questions.len(), 1);
    assert_eq!(m.questions[0].name, "example.com");
    assert_eq!(m.questions[0].record_type, DnsRecordType::A);
    assert_eq!(m.questions[0].class, 1);
    assert!(m.answers.is_empty());
    assert_eq!(m.protocol, DnsProtocol::Udp);
    assert_eq!(stats.get("dns.udp.parsed"), 1);
    assert_eq!(stats.get("dns.udp.query"), 1);
    assert_eq!(stats.get("dns.udp.response"), 0);
}

#[test]
fn a_response_with_compression() {
    let parser = UdpDnsParser::new(65535);
    let mut stats = StatsCounter::new();
    let m = parser.decode(&response_with(1, &[93, 184, 216, 34]), &mut stats).unwrap();
    assert_eq!(m.message_type, DnsMessageType::Response);
    assert_eq!(m.answers.len(), 1);
    let a = &m.answers[0];
    assert_eq!(a.name, "example.com");
    assert_eq!(a.record_type, DnsRecordType::A);
    assert_eq!(a.ttl, 3600);
    assert_eq!(a.data, vec![93, 184, 216, 34]);
    assert_eq!(a.data_str, "93.184.216.34");
    assert_eq!(stats.get("dns.udp.response"), 1);
}

#[test]
fn invalid_a_record_length() {
    let parser = UdpDnsParser::new(65535);
    let mut stats = StatsCounter::new();
    let m = parser.decode(&response_with(1, &[1, 2, 3]), &mut stats).unwrap();
    assert_eq!(m.answers[0].data_str, "Invalid A record");
}

#[test]
fn aaaa_record_rendering() {
    let parser = UdpDnsParser::new(65535);
    let mut stats = StatsCounter::new();
    let rdata = [0x20, 0x01, 0x0d, 0xb8, 0, 0, 0, 0, 0, 0, 0, 0, 0, 0, 0x00, 0x01];
    let m = parser.decode(&response_with(28, &rdata), &mut stats).unwrap();
    assert_eq!(m.answers[0].record_type, DnsRecordType::AAAA);
    assert_eq!(m.answers[0].data_str, "2001:db8:0:0:0:0:0:1");
    let m = parser.decode(&response_with(28, &rdata[..4]), &mut stats).unwrap();
    assert_eq!(m.answers[0].data_str, "Invalid AAAA record");
}

#[test]
fn cname_record_follows_name() {
    let parser = UdpDnsParser::new(65535);
    let mut stats = StatsCounter::new();
    let rdata = [3, b'w', b'w', b'w', 0xc0, 0x0c];
    let m = parser.decode(&response_with(5, &rdata), &mut stats).unwrap();
    assert_eq!(m.answers[0].record_type, DnsRecordType::CNAME);
    assert_eq!(m.answers[0].data_str, "www.example.com");
}

#[test]
fn other_record_shows_length() {
    let parser = UdpDnsParser::new(65535);
    let mut stats = StatsCounter::new();
    let m = parser.decode(&response_with(16, &[5, b'h', b'e', b'l', b'l', b'o']), &mut stats).unwrap();
    assert_eq!(m.answers[0].record_type, DnsRecordType::TXT);
    assert_eq!(m.answers[0].data_str, "<6 bytes of data>");
    let m = parser.decode(&response_with(300, &[]), &mut stats).unwrap();
    assert_eq!(m.answers[0].record_type, DnsRecordType::Other(300));
    assert_eq!(m.answers[0].data_str, "<0 bytes of data>");
}

#[test]
fn short_input_is_invalid_size() {
    let parser = UdpDnsParser::new(65535);
    let mut stats = StatsCounter::new();
    for len in 0..12 {
        let data = vec![0u8; len];
        assert!(parser.decode(&data, &mut stats).is_none());
    }
    assert_eq!(stats.get("dns.udp.invalid_size"), 12);
}

#[test]
fn oversized_input_is_invalid_size() {
    let parser = UdpDnsParser::new(20);
    let mut stats = StatsCounter::new();
    assert!(parser.decode(&query(), &mut stats).is_none());
    assert_eq!(stats.get("dns.udp.invalid_size"), 1);
}

#[test]
fn empty_header_is_rejected() {
    let parser = UdpDnsParser::new(65535);
    let mut stats = StatsCounter::new();
    let data = [0x12, 0x34, 0x01, 0x00, 0, 0, 0, 0, 0, 0, 0, 0];
    assert!(parser.decode(&data, &mut stats).is_none());
    assert_eq!(stats.get("dns.udp.parse_failed"), 1);
    assert_eq!(stats.get("dns.udp.parsed"), 0);
}

#[test]
fn truncated_answer_keeps_questions() {
    let parser = UdpDnsParser::new(65535);
    let mut stats = StatsCounter::new();
    let mut data = response_with(1, &[93, 184, 216, 34]);
    data.truncate(data.len() - 2);
    let m = parser.decode(&data, &mut stats).unwrap();
    assert_eq!(m.questions.len(), 1);
    assert_eq!(m.questions[0].name, "example.com");
    assert!(m.answers.is_empty());
    assert_eq!(stats.get("dns.udp.parse_answer_failed"), 1);
}

#[test]
fn compression_loop_fails() {
    let parser = UdpDnsParser::new(65535);
    let mut stats = StatsCounter::new();
    let data = [0x12, 0x34, 0x01, 0x00, 0x00, 0x01, 0, 0, 0, 0, 0, 0, 0xc0, 0x0c, 0x00, 0x01, 0x00, 0x01];
    assert!(parser.decode(&data, &mut stats).is_none());
    assert_eq!(stats.get("dns.udp.parse_question_failed"), 1);
}

/// A query whose name is reached through `hops` compression pointers.
fn pointer_chain(hops: usize) -> Vec<u8> {
    let mut d = vec![0x12, 0x34, 0x01, 0x00, 0x00, 0x01, 0, 0, 0, 0, 0, 0];
    d.extend_from_slice(&[0xc0, 18, 0x00, 0x01, 0x00, 0x01]);
    for k in 1..hops {
        let next = 18 + 2 * k;
        d.extend_from_slice(&[0xc0, next as u8]);
    }
    d.extend_from_slice(&[1, b'a', 0]);
    d
}

#[test]
fn pointer_chain_limit() {
    let parser = UdpDnsParser::new(65535);
    let mut stats = StatsCounter::new();
    let m = parser.decode(&pointer_chain(10), &mut stats).unwrap();
    assert_eq!(m.questions[0].name, "a");
    assert_eq!(m.questions[0].record_type, DnsRecordType::A);
    assert!(parser.decode(&pointer_chain(11), &mut stats).is_none());
    assert_eq!(stats.get("dns.udp.parse_question_failed"), 1);
}

#[test]
fn decoding_twice_gives_the_same_message() {
    let parser = UdpDnsParser::new(65535);
    let mut stats = StatsCounter::new();
    let data = response_with(1, &[93, 184, 216, 34]);
    let a = parser.decode(&data, &mut stats).unwrap();
    let b = parser.decode(&data, &mut stats).unwrap();
    assert_eq!(format!("{:?}", a), format!("{:?}", b));
}

#[test]
fn record_type_codes() {
    assert_eq!(DnsRecordType::from(1), DnsRecordType::A);
    assert_eq!(DnsRecordType::from(28), DnsRecordType::AAAA);
    assert_eq!(DnsRecordType::from(5), DnsRecordType::CNAME);
    assert_eq!(DnsRecordType::from(15), DnsRecordType::MX);
    assert_eq!(DnsRecordType::from(2), DnsRecordType::NS);
    assert_eq!(DnsRecordType::from(12), DnsRecordType::PTR);
    assert_eq!(DnsRecordType::from(6), DnsRecordType::SOA);
    assert_eq!(DnsRecordType::from(33), DnsRecordType::SRV);
    assert_eq!(DnsRecordType::from(16), DnsRecordType::TXT);
    assert_eq!(DnsRecordType::from(99), DnsRecordType::Other(99));
}

#[test]
fn non_utf8_label_is_replaced() {
    let parser = UdpDnsParser::new(65535);
    let mut stats = StatsCounter::new();
    let data = [0x00, 0x01, 0x01, 0x00, 0x00, 0x01, 0, 0, 0, 0, 0, 0, 2, 0xff, b'x', 0, 0, 1, 0, 1];
    let m = parser.decode(&data, &mut stats).unwrap();
    assert_eq!(m.questions[0].name, "\u{fffd}x");
}

#[test]
fn read_name_follows_pointers() {
    let parser = UdpDnsParser::new(65535);
    let data = response_with(1, &[93, 184, 216, 34]);
    let (labels, next) = parser.read_name(&data, 29).unwrap();
    assert_eq!(labels, vec![b"example".to_vec(), b"com".to_vec()]);
    assert_eq!(next, 31);
    let (labels, next) = parser.read_name(&data, 12).unwrap();
    assert_eq!(labels.len(), 2);
    assert_eq!(next, 25);
    assert!(parser.read_name(&data, data.len()).is_none());
    assert_eq!(UdpDnsParser::labels_text(&labels), "example.com");
}

#[test]
fn round_trip_several_questions() {
    let parser = UdpDnsParser::new(65535);
    let mut stats = StatsCounter::new();
    let mut data = vec![0xbe, 0xef, 0x01, 0x00, 0x00, 0x02, 0, 0, 0, 0, 0, 0];
    data.extend_from_slice(&[3, b'w', b'w', b'w', 4, b't', b'e', b's', b't', 0, 0x00, 0x1c, 0x00, 0x01]);
    data.extend_from_slice(&[2, b'n', b's', 0, 0x00, 0x02, 0x00, 0x03]);
    let m = parser.decode(&data, &mut stats).unwrap();
    assert_eq!(m.transaction_id, 0xbeef);
    assert_eq!(m.questions.len(), 2);
    assert_eq!(m.questions[0].name, "www.test");
    assert_eq!(m.questions[0].record_type, DnsRecordType::AAAA);
    assert_eq!(m.questions[0].class, 1);
    assert_eq!(m.questions[1].name, "ns");
    assert_eq!(m.questions[1].record_type, DnsRecordType::NS);
    assert_eq!(m.questions[1].class, 3);
}

#[test]
fn names_are_lowercased() {
    let parser = UdpDnsParser::new(65535);
    let mut stats = StatsCounter::new();
    let mut data = query();
    data[13] = b'E';
    data[21] = b'C';
    let m = parser.decode(&data, &mut stats).unwrap();
    assert_eq!(m.questions[0].name, "example.com");
}
