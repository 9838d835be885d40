use vstd::prelude::*;

use crate::dns::{retagged, DnsMessage, DnsParser, DnsProtocol, MessageView};
use crate::stats::{hit, lemma_grew_same, StatsCounter};
use crate::http::{dns_body, http_dns_body};
use crate::wire::{decode_message, decode_tally, UdpDnsParser};

verus! {

/// The messages an HTTP message body `body` gives to a decoder of limit `max`.
pub open spec fn body_messages(body: Seq<u8>, max: int) -> Seq<MessageView> {
    match decode_message(body, max) {
        Some(m) => seq![retagged(m, DnsProtocol::Doh)],
        None => seq![],
    }
}

/// The messages an HTTP/1.1 exchange `d` gives to a decoder of limit `max`.
pub open spec fn exchange_messages(d: Seq<u8>, max: int) -> Seq<MessageView> {
    match http_dns_body(d) {
        Some(b) => body_messages(b, max),
        None => seq![],
    }
}

/// How much reading the HTTP/1.1 exchange `d` adds to counter `k`.
pub open spec fn exchange_tally(d: Seq<u8>, max: int, k: Seq<char>) -> nat {
    match http_dns_body(d) {
        Some(b) => decode_tally(b, max, k),
        None => hit(k, "dns.doh.no_dns_message"@),
    }
}

/// The reader of DNS over HTTPS. A decryptor upstream hands over each
/// cleartext HTTP/1.1 request or response.
pub struct DohParser {
    udp_parser: UdpDnsParser,
}

impl DohParser {
    /// The largest message the decoder takes.
    pub closed spec fn max_packet(&self) -> nat {
        self.udp_parser.max_size()
    }

    pub fn new(max_packet_size: usize) -> (r: DohParser)
        ensures
            r.max_packet() == max_packet_size,
    {
        DohParser { udp_parser: UdpDnsParser::new(max_packet_size) }
    }

    /// Decodes the DNS message that the HTTP/1.1 exchange `data` of session
    /// `session_id` carries, and returns it tagged DoH: for a GET request the
    /// base64url `dns` parameter, otherwise the body of a message whose
    /// content type is `application/dns-message`. An exchange carrying no
    /// DNS message is counted and gives nothing.
    pub fn process_http_data(&mut self, session_id: u32, data: &[u8], stats: &mut StatsCounter) -> (r: Vec<DnsMessage>)
        requires
            old(stats).wf(),
        ensures
            *final(self) == *old(self),
            r@.map_values(|m: DnsMessage| m@) == exchange_messages(data@, old(self).max_packet() as int),
            final(stats).grew(
                *old(stats),
                |k: Seq<char>| exchange_tally(data@, old(self).max_packet() as int, k),
            ),
    {
        let mut results: Vec<DnsMessage> = Vec::new();
        let ghost max = self.max_packet() as int;
        let ghost s0 = *stats;
        match self.extract_dns_data(data) {
            Some(dns_data) => {
                match self.udp_parser.decode(dns_data.as_slice(), stats) {
                    Some(message) => {
                        let mut message = message;
                        message.protocol = DnsProtocol::Doh;
                        results.push(message);
                    },
                    None => {},
                }
                proof {
                    lemma_grew_same(
                        s0,
                        *stats,
                        |k: Seq<char>| decode_tally(dns_data@, max, k),
                        |k: Seq<char>| exchange_tally(data@, max, k),
                    );
                }
            },
            None => {
                stats.increment("dns.doh.no_dns_message");
                proof {
                    lemma_grew_same(
                        s0,
                        *stats,
                        |k: Seq<char>| hit(k, "dns.doh.no_dns_message"@),
                        |k: Seq<char>| exchange_tally(data@, max, k),
                    );
                }
            },
        }
        assert(results@.map_values(|m: DnsMessage| m@) =~= exchange_messages(
            data@,
            self.max_packet() as int,
        ));
        results
    }

    /// The DNS message that the HTTP/1.1 exchange `data` carries, if any.
    fn extract_dns_data(&self, data: &[u8]) -> (r: Option<Vec<u8>>)
        ensures
            match http_dns_body(data@) {
                None => r is None,
                Some(b) => r matches Some(v) && v@ == b,
            },
    {
        dns_body(data)
    }
}

impl DnsParser for DohParser {
    /// Bodies go through [`DohParser::process_http_data`]; a direct call is
    /// only counted.
    fn parse(&mut self, data: &[u8], stats: &mut StatsCounter) -> (r: Option<DnsMessage>)
        ensures
            r is None,
            final(stats).grew(*old(stats), |k: Seq<char>| hit(k, "dns.doh.direct_parse_attempt"@)),
    {
        stats.increment("dns.doh.direct_parse_attempt");
        None
    }

    fn protocol_type(&self) -> (r: DnsProtocol)
        ensures
            r == DnsProtocol::Doh,
    {
        DnsProtocol::Doh
    }
}

} // verus!
