use vstd::prelude::*;

use crate::dns::DnsProtocol;

verus! {

/// The port of plain DNS.
pub const DNS_PORT: u16 = 53;

/// The port of DNS over TLS.
pub const DOT_PORT: u16 = 853;

/// The port of DNS over HTTPS.
pub const DOH_PORT: u16 = 443;

/// The second port of DNS over QUIC, beside the DoT port.
pub const DOQ_ALT_PORT: u16 = 8853;

/// What the demultiplexer makes of a packet.
#[derive(Debug, Clone, Copy, PartialEq, Eq, Structural)]
pub enum ProtocolDetectResult {
    Dns(DnsProtocol),
    Unknown,
    NeedMoreData,
}

/// Whether either port of a packet is one of `ports`.
pub open spec fn either_in(ports: Seq<u16>, src: u16, dst: u16) -> bool {
    ports.contains(src) || ports.contains(dst)
}

/// Classification by port: plain DNS ports first, then the DoT, DoH and
/// DoQ ports, which need more than one packet to recognise; any other
/// packet is tried as plain DNS.
pub open spec fn classify(
    dns: Seq<u16>,
    dot: Seq<u16>,
    doh: Seq<u16>,
    doq: Seq<u16>,
    src: u16,
    dst: u16,
) -> ProtocolDetectResult {
    if either_in(dns, src, dst) {
        ProtocolDetectResult::Dns(DnsProtocol::Udp)
    } else if either_in(dot, src, dst) || either_in(doh, src, dst) || either_in(doq, src, dst) {
        ProtocolDetectResult::NeedMoreData
    } else {
        ProtocolDetectResult::Dns(DnsProtocol::Udp)
    }
}

/// Whether `p` is one of `ports`.
pub fn contains_port(ports: &Vec<u16>, p: u16) -> (r: bool)
    ensures
        r == ports@.contains(p),
{
    let mut i: usize = 0;
    while i < ports.len()
        invariant
            i <= ports@.len(),
            forall|j: int| 0 <= j < i ==> ports@[j] != p,
        decreases ports@.len() - i,
    {
        if ports[i] == p {
            assert(ports@[i as int] == p);
            return true;
        }
        i = i + 1;
    }
    false
}

/// The port-based demultiplexer.
pub struct ProtocolDetector {
    pub dns_ports: Vec<u16>,
    pub dot_ports: Vec<u16>,
    pub doh_ports: Vec<u16>,
    pub doq_ports: Vec<u16>,
}

impl ProtocolDetector {
    /// Plain DNS on 53, DoT on 853, DoH on 443, DoQ on 853 and 8853.
    pub fn new() -> (r: ProtocolDetector)
        ensures
            r.dns_ports@ == seq![DNS_PORT],
            r.dot_ports@ == seq![DOT_PORT],
            r.doh_ports@ == seq![DOH_PORT],
            r.doq_ports@ == seq![DOT_PORT, DOQ_ALT_PORT],
    {
        let r = ProtocolDetector {
            dns_ports: vec![DNS_PORT],
            dot_ports: vec![DOT_PORT],
            doh_ports: vec![DOH_PORT],
            doq_ports: vec![DOT_PORT, DOQ_ALT_PORT],
        };
        assert(r.dns_ports@ =~= seq![DNS_PORT]);
        assert(r.dot_ports@ =~= seq![DOT_PORT]);
        assert(r.doh_ports@ =~= seq![DOH_PORT]);
        assert(r.doq_ports@ =~= seq![DOT_PORT, DOQ_ALT_PORT]);
        r
    }

    /// This detector with the plain DNS ports replaced by `ports`.
    pub fn with_dns_ports(self, ports: Vec<u16>) -> (r: ProtocolDetector)
        ensures
            r == (ProtocolDetector { dns_ports: ports, ..self }),
    {
        let mut d = self;
        d.dns_ports = ports;
        d
    }

    /// This detector with the DoT ports replaced by `ports`.
    pub fn with_dot_ports(self, ports: Vec<u16>) -> (r: ProtocolDetector)
        ensures
            r == (ProtocolDetector { dot_ports: ports, ..self }),
    {
        let mut d = self;
        d.dot_ports = ports;
        d
    }

    /// This detector with the DoH ports replaced by `ports`.
    pub fn with_doh_ports(self, ports: Vec<u16>) -> (r: ProtocolDetector)
        ensures
            r == (ProtocolDetector { doh_ports: ports, ..self }),
    {
        let mut d = self;
        d.doh_ports = ports;
        d
    }

    /// This detector with the DoQ ports replaced by `ports`.
    pub fn with_doq_ports(self, ports: Vec<u16>) -> (r: ProtocolDetector)
        ensures
            r == (ProtocolDetector { doq_ports: ports, ..self }),
    {
        let mut d = self;
        d.doq_ports = ports;
        d
    }

    /// Classifies a packet by its ports; the payload is not inspected.
    pub fn detect(&self, data: &[u8], src_port: u16, dst_port: u16) -> (r: ProtocolDetectResult)
        ensures
            r == classify(
                self.dns_ports@,
                self.dot_ports@,
                self.doh_ports@,
                self.doq_ports@,
                src_port,
                dst_port,
            ),
    {
        if contains_port(&self.dns_ports, src_port) || contains_port(&self.dns_ports, dst_port) {
            return ProtocolDetectResult::Dns(DnsProtocol::Udp);
        }
        if contains_port(&self.dot_ports, src_port) || contains_port(&self.dot_ports, dst_port) {
            return ProtocolDetectResult::NeedMoreData;
        }
        if contains_port(&self.doh_ports, src_port) || contains_port(&self.doh_ports, dst_port) {
            return ProtocolDetectResult::NeedMoreData;
        }
        if contains_port(&self.doq_ports, src_port) || contains_port(&self.doq_ports, dst_port) {
            return ProtocolDetectResult::NeedMoreData;
        }
        ProtocolDetectResult::Dns(DnsProtocol::Udp)
    }

    /// Whether `port` is one of the configured ports of any transport.
    pub fn is_dns_related_port(&self, port: u16) -> (r: bool)
        ensures
            r == (self.dns_ports@.contains(port) || self.dot_ports@.contains(port)
                || self.doh_ports@.contains(port) || self.doq_ports@.contains(port)),
    {
        contains_port(&self.dns_ports, port) || contains_port(&self.dot_ports, port)
            || contains_port(&self.doh_ports, port) || contains_port(&self.doq_ports, port)
    }
}

} // verus!
