use dns_spider::dns::DnsProtocol;
use dns_spider::doh::DohParser;
use dns_spider::doq::DoqParser;
use dns_spider::dot::DotParser;
use dns_spider::stats::StatsCounter;
use dns_spider::tcp::TcpDnsParser;

fn query(id: u16) -> Vec<u8> {
    let mut m = vec![
        0x12, 0x34, 0x01, 0x00, 0x00, 0x01, 0x00, 0x00, 0x00, 0x00, 0x00, 0x00, 0x07, 0x65, 0x78,
        0x61, 0x6d, 0x70, 0x6c, 0x65, 0x03, 0x63, 0x6f, 0x6d, 0x00, 0x00, 0x01, 0x00, 0x01,
    ];
    m[0] = (id >> 8) as u8;
    m[1] = id as u8;
    m
}

fn framed(id: u16) -> Vec<u8> {
    let q = query(id);
    let mut f = (q.len() as u16).to_be_bytes().to_vec();
    f.extend_from_slice(&q);
    f
}

#[test]
fn tcp_framing_split() {
    let mut tcp = TcpDnsParser::new(65535, 10, 30_000);
    let mut stats = StatsCounter::new();
    let first = tcp.process_tcp_segment(1, 2, 40000, 53, &[0x00], &mut stats);
    assert!(first.is_empty());
    let mut rest = vec![0x1d];
    rest.extend_from_slice(&query(0x1234));
    let second = tcp.process_tcp_segment(1, 2, 40000, 53, &rest, &mut stats);
    assert_eq!(second.len(), 1);
    assert_eq!(second[0].protocol, DnsProtocol::Tcp);
    assert_eq!(second[0].transaction_id, 0x1234);
    assert_eq!(second[0].questions[0].name, "example.com");
}

#[test]
fn tcp_chunking_does_not_matter() {
    let mut stream = framed(1);
    stream.extend_from_slice(&framed(2));
    stream.extend_from_slice(&framed(3));
    for cut in [1usize, 2, 5, 31, 40, 62, 70] {
        let mut tcp = TcpDnsParser::new(65535, 10, 30_000);
        let mut stats = StatsCounter::new();
        let mut ids = Vec::new();
        let mut at = 0;
        while at < stream.len() {
            let end = (at + cut).min(stream.len());
            for m in tcp.process_tcp_segment(1, 2, 40000, 53, &stream[at..end], &mut stats) {
                ids.push(m.transaction_id);
            }
            at = end;
        }
        assert_eq!(ids, vec![1, 2, 3], "cut {}", cut);
    }
}

#[test]
fn tcp_two_messages_in_one_segment() {
    let mut tcp = TcpDnsParser::new(65535, 10, 30_000);
    let mut stats = StatsCounter::new();
    let mut seg = framed(7);
    seg.extend_from_slice(&framed(8));
    seg.push(0x00);
    let out = tcp.process_tcp_segment(1, 2, 3, 4, &seg, &mut stats);
    assert_eq!(out.len(), 2);
    assert_eq!(out[0].transaction_id, 7);
    assert_eq!(out[1].transaction_id, 8);
    assert_eq!(stats.get("dns.udp.parsed"), 2);
}

#[test]
fn tcp_oversized_stream() {
    let max = 100;
    let mut tcp = TcpDnsParser::new(max, 10, 30_000);
    let mut stats = StatsCounter::new();
    let mut data = vec![0xff, 0xff];
    data.resize(max + 1, 0);
    let out = tcp.process_tcp_segment(1, 2, 3, 4, &data, &mut stats);
    assert!(out.is_empty());
    assert_eq!(stats.get("dns.tcp.buffer_overflow"), 1);
    assert_eq!(tcp.session_count(), 1);
    // The buffer was emptied: a whole message now decodes on its own.
    let out = tcp.process_tcp_segment(1, 2, 3, 4, &framed(9), &mut stats);
    assert_eq!(out.len(), 1);
    assert_eq!(out[0].transaction_id, 9);
}

#[test]
fn tcp_session_eviction() {
    let mut tcp = TcpDnsParser::new(65535, 2, 1_000_000);
    let mut stats = StatsCounter::new();
    tcp.update_time(100);
    tcp.process_tcp_segment(1, 2, 1000, 53, &[0x00], &mut stats);
    tcp.update_time(200);
    tcp.process_tcp_segment(1, 2, 1001, 53, &[0x00], &mut stats);
    tcp.update_time(300);
    tcp.process_tcp_segment(1, 2, 1002, 53, &[0x00], &mut stats);
    let flows = tcp.session_flows();
    assert_eq!(flows.len(), 2);
    assert!(!flows.contains(&(1, 2, 1000, 53)));
    assert!(flows.contains(&(1, 2, 1001, 53)));
    assert!(flows.contains(&(1, 2, 1002, 53)));
}

#[test]
fn tcp_table_stays_at_max_sessions() {
    let max = 4;
    let mut tcp = TcpDnsParser::new(65535, max, 1_000_000);
    let mut stats = StatsCounter::new();
    tcp.update_time(10);
    for port in 0..(max as u16 + 1) {
        tcp.process_tcp_segment(9, 9, port, 53, &[], &mut stats);
    }
    assert_eq!(tcp.session_count(), max);
}

#[test]
fn tcp_idle_sessions_expire() {
    let mut tcp = TcpDnsParser::new(65535, 10, 1000);
    let mut stats = StatsCounter::new();
    tcp.update_time(5000);
    tcp.process_tcp_segment(1, 2, 3, 4, &[0x00], &mut stats);
    tcp.update_time(5500);
    assert_eq!(tcp.session_count(), 1);
    tcp.update_time(6000);
    assert_eq!(tcp.session_count(), 1);
    tcp.update_time(6001);
    assert_eq!(tcp.session_count(), 0);
}

#[test]
fn sessions_seen_at_zero_survive_before_timeout() {
    let mut tcp = TcpDnsParser::new(65535, 2, 100);
    let mut stats = StatsCounter::new();
    tcp.process_tcp_segment(1, 2, 3, 4, &[0x00], &mut stats);
    tcp.update_time(50);
    assert_eq!(tcp.session_count(), 1);
    tcp.update_time(100);
    assert_eq!(tcp.session_count(), 1);
    tcp.update_time(101);
    assert_eq!(tcp.session_count(), 0);
}

#[test]
fn session_at_idle_boundary_is_kept() {
    let mut dot = DotParser::new(65535, 4, 100);
    let mut stats = StatsCounter::new();
    dot.update_time(50);
    dot.process_tls_data(1, 2, 3, 853, &[0x00], &mut stats);
    dot.update_time(150);
    assert_eq!(dot.session_count(), 1);
    let mut doq = DoqParser::new(65535, 4, 100);
    doq.update_time(50);
    doq.process_quic_data(1, 2, 3, 853, &[0x00], &mut stats);
    doq.update_time(150);
    assert_eq!(doq.session_count(), 1);
}

#[test]
fn dot_handshake_then_data() {
    let mut dot = DotParser::new(65535, 10, 30_000);
    let mut stats = StatsCounter::new();
    let out = dot.process_tls_data(1, 2, 3, 853, &framed(5), &mut stats);
    assert!(out.is_empty());
    assert_eq!(stats.get("dns.dot.handshake_completed"), 1);
    let out = dot.process_tls_data(1, 2, 3, 853, &framed(6), &mut stats);
    assert_eq!(out.len(), 1);
    assert_eq!(out[0].transaction_id, 6);
    assert_eq!(out[0].protocol, DnsProtocol::Dot);
    assert_eq!(dot.session_count(), 1);
}

#[test]
fn doq_handshake_then_data() {
    let mut doq = DoqParser::new(65535, 10, 30_000);
    let mut stats = StatsCounter::new();
    assert!(doq.process_quic_data(1, 2, 3, 853, &query(5), &mut stats).is_empty());
    assert_eq!(stats.get("dns.doq.handshake_completed"), 1);
    let out = doq.process_quic_data(1, 2, 3, 853, &query(6), &mut stats);
    assert_eq!(out.len(), 1);
    assert_eq!(out[0].transaction_id, 6);
    assert_eq!(out[0].protocol, DnsProtocol::Doq);
}

fn base64url(b: &[u8]) -> String {
    const A: &[u8] = b"ABCDEFGHIJKLMNOPQRSTUVWXYZabcdefghijklmnopqrstuvwxyz0123456789-_";
    let mut out = String::new();
    for chunk in b.chunks(3) {
        let n = chunk.len();
        let v = (chunk[0] as u32) << 16
            | (if n > 1 { chunk[1] as u32 } else { 0 }) << 8
            | (if n > 2 { chunk[2] as u32 } else { 0 });
        for k in 0..(n + 1) {
            out.push(A[((v >> (18 - 6 * k)) & 63) as usize] as char);
        }
    }
    out
}

#[test]
fn doh_post_body_is_decoded() {
    let mut doh = DohParser::new(65535);
    let mut stats = StatsCounter::new();
    let mut req = b"POST /dns-query HTTP/1.1\r\nHost: x\r\nCONTENT-TYPE:  Application/DNS-Message\r\n\r\n".to_vec();
    req.extend_from_slice(&query(0x4242));
    let out = doh.process_http_data(7, &req, &mut stats);
    assert_eq!(out.len(), 1);
    assert_eq!(out[0].transaction_id, 0x4242);
    assert_eq!(out[0].protocol, DnsProtocol::Doh);
}

#[test]
fn doh_get_parameter_is_decoded() {
    let mut doh = DohParser::new(65535);
    let mut stats = StatsCounter::new();
    for id in [0x0102u16, 0xabcd, 0x7f00] {
        let req = format!("GET /dns-query?ct=x&dns={}&z=1 HTTP/1.1\r\nHost: x\r\n\r\n", base64url(&query(id)));
        let out = doh.process_http_data(7, req.as_bytes(), &mut stats);
        assert_eq!(out.len(), 1);
        assert_eq!(out[0].transaction_id, id);
        assert_eq!(out[0].questions[0].name, "example.com");
    }
}

#[test]
fn doh_without_dns_content_gives_nothing() {
    let mut doh = DohParser::new(65535);
    let mut stats = StatsCounter::new();
    let mut resp = b"HTTP/1.1 200 OK\r\nContent-Type: text/html\r\n\r\n".to_vec();
    resp.extend_from_slice(&query(1));
    assert!(doh.process_http_data(7, &resp, &mut stats).is_empty());
    assert!(doh.process_http_data(7, &query(1), &mut stats).is_empty());
    assert!(doh.process_http_data(7, b"GET /dns-query?dns=A HTTP/1.1\r\n\r\n", &mut stats).is_empty());
    assert_eq!(stats.get("dns.doh.no_dns_message"), 3);
    let mut ok = b"HTTP/1.1 200 OK\r\ncontent-type: application/dns-message\r\n\r\n".to_vec();
    ok.extend_from_slice(&query(9));
    assert_eq!(doh.process_http_data(7, &ok, &mut stats).len(), 1);
}
