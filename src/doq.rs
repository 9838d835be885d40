use vstd::prelude::*;

use crate::dns::{retagged, DnsMessage, DnsParser, DnsProtocol, MessageView};
use crate::dot::touched;
use crate::session::{
    index_of, keep_fresh, opened, idle_cutoff, SessionState, SessionTable, SessionView,
};
use crate::stats::{hit, StatsCounter};
use crate::tcp::lemma_index_of;
use crate::wire::{copy_bytes, decode_message, decode_tally, UdpDnsParser};

verus! {

/// The messages a stream payload `d` gives to a decoder of limit `max`.
pub open spec fn stream_messages(d: Seq<u8>, max: int) -> Seq<MessageView> {
    match decode_message(d, max) {
        Some(m) => seq![retagged(m, DnsProtocol::Doq)],
        None => seq![],
    }
}

/// The reassembler of DNS over QUIC. Cleartext stream payloads reach it
/// from a decryptor; a session's first packet completes its handshake, and
/// each payload of an established session holds one message.
pub struct DoqParser {
    udp_parser: UdpDnsParser,
    quic_sessions: SessionTable,
    max_packet_size: usize,
    max_sessions: usize,
    session_timeout_ms: u64,
    current_time_ms: u64,
}

impl DoqParser {
    pub closed spec fn wf(&self) -> bool {
        &&& self.udp_parser.max_size() == self.max_packet_size
        &&& self.quic_sessions.wf()
    }

    /// The QUIC sessions, in table order.
    pub closed spec fn sessions_view(&self) -> Seq<SessionView> {
        self.quic_sessions@
    }

    /// The largest message the decoder takes.
    pub closed spec fn max_packet(&self) -> nat {
        self.max_packet_size as nat
    }

    pub closed spec fn now(&self) -> u64 {
        self.current_time_ms
    }

    pub closed spec fn max_flows(&self) -> nat {
        self.max_sessions as nat
    }

    pub closed spec fn timeout(&self) -> u64 {
        self.session_timeout_ms
    }

    pub fn new(max_packet_size: usize, max_sessions: usize, session_timeout_ms: u64) -> (r: DoqParser)
        ensures
            r.wf(),
            r.sessions_view() == Seq::<SessionView>::empty(),
            r.max_packet() == max_packet_size,
            r.now() == 0,
            r.max_flows() == max_sessions,
            r.timeout() == session_timeout_ms,
    {
        DoqParser {
            udp_parser: UdpDnsParser::new(max_packet_size),
            max_packet_size,
            quic_sessions: SessionTable::new(),
            max_sessions,
            session_timeout_ms,
            current_time_ms: 0,
        }
    }

    /// The number of flows with a QUIC session.
    pub fn session_count(&self) -> (r: usize)
        ensures
            r == self.sessions_view().len(),
    {
        self.quic_sessions.len()
    }

    /// Moves the clock to `time_ms` and drops the sessions gone stale.
    pub fn update_time(&mut self, time_ms: u64)
        requires
            old(self).wf(),
        ensures
            final(self).wf(),
            final(self).now() == time_ms,
            final(self).sessions_view() == keep_fresh(
                old(self).sessions_view(),
                idle_cutoff(time_ms, old(self).timeout()),
            ),
            final(self).max_packet() == old(self).max_packet(),
            final(self).max_flows() == old(self).max_flows(),
            final(self).timeout() == old(self).timeout(),
    {
        self.current_time_ms = time_ms;
        self.cleanup_sessions();
    }

    fn cleanup_sessions(&mut self)
        requires
            old(self).wf(),
        ensures
            final(self).wf(),
            final(self).sessions_view() == keep_fresh(
                old(self).sessions_view(),
                idle_cutoff(old(self).now(), old(self).timeout()),
            ),
            final(self).max_packet() == old(self).max_packet(),
            final(self).now() == old(self).now(),
            final(self).max_flows() == old(self).max_flows(),
            final(self).timeout() == old(self).timeout(),
    {
        let cutoff = if self.current_time_ms >= self.session_timeout_ms {
            self.current_time_ms - self.session_timeout_ms
        } else {
            0
        };
        self.quic_sessions.remove_stale(cutoff);
    }

    /// The cleartext of `data`; the decryptor upstream hands it over as it is.
    fn decrypt_quic_data(&self, data: &[u8]) -> (r: Vec<u8>)
        ensures
            r@ == data@,
    {
        let r = copy_bytes(data, 0, data.len());
        assert(data@.subrange(0, data@.len() as int) =~= data@);
        r
    }

    /// Feeds cleartext of the flow (`src_ip`, `dst_ip`, `src_port`, `dst_port`)
    /// and returns the messages it completes, tagged DoQ.
    ///
    /// In handshake the session becomes established and the data is not
    /// read; once established each payload is decoded as one whole message;
    /// after the session closed the data is counted and dropped.
    pub fn process_quic_data(
        &mut self,
        src_ip: u32,
        dst_ip: u32,
        src_port: u16,
        dst_port: u16,
        data: &[u8],
        stats: &mut StatsCounter,
    ) -> (r: Vec<DnsMessage>)
        requires
            old(self).wf(),
            old(stats).wf(),
        ensures
            final(self).wf(),
            ({
                let key = (src_ip, dst_ip, src_port, dst_port);
                let t = opened(
                    old(self).sessions_view(),
                    key,
                    old(self).now(),
                    old(self).max_flows(),
                    old(self).timeout(),
                );
                let st = t[index_of(t, key)].state;
                let max = old(self).max_packet() as int;
                &&& final(self).sessions_view() == touched(t, key, old(self).now())
                &&& st == SessionState::Established ==> {
                    &&& r@.map_values(|m: DnsMessage| m@) == stream_messages(data@, max)
                    &&& final(stats).grew(*old(stats), |k: Seq<char>| decode_tally(data@, max, k))
                }
                &&& st == SessionState::Handshake ==> {
                    &&& r@.len() == 0
                    &&& final(stats).grew(
                        *old(stats),
                        |k: Seq<char>| hit(k, "dns.doq.handshake_completed"@),
                    )
                }
                &&& st == SessionState::Closed ==> {
                    &&& r@.len() == 0
                    &&& final(stats).grew(
                        *old(stats),
                        |k: Seq<char>| hit(k, "dns.doq.data_after_close"@),
                    )
                }
            }),
            final(self).now() == old(self).now(),
            final(self).max_flows() == old(self).max_flows(),
            final(self).timeout() == old(self).timeout(),
            final(self).max_packet() == old(self).max_packet(),
    {
        let key = (src_ip, dst_ip, src_port, dst_port);
        let i = self.quic_sessions.open(
            key,
            self.current_time_ms,
            self.max_sessions,
            self.session_timeout_ms,
        );
        let ghost t = self.quic_sessions@;
        proof {
            lemma_index_of(t, i as int);
        }
        let mut e = self.quic_sessions.take(i);
        e.last_seen = self.current_time_ms;
        let mut results: Vec<DnsMessage> = Vec::new();
        assert(e.state == t[index_of(t, key)].state);
        match e.state {
            SessionState::Handshake => {
                e.state = SessionState::Established;
                stats.increment("dns.doq.handshake_completed");
            },
            SessionState::Established => {
                let decrypted = self.decrypt_quic_data(data);
                match self.udp_parser.decode(decrypted.as_slice(), stats) {
                    Some(message) => {
                        let mut message = message;
                        message.protocol = DnsProtocol::Doq;
                        results.push(message);
                        assert(results@.map_values(|m: DnsMessage| m@) =~= stream_messages(
                            data@,
                            self.max_packet_size as int,
                        ));
                    },
                    None => {
                        assert(results@.map_values(|m: DnsMessage| m@) =~= stream_messages(
                            data@,
                            self.max_packet_size as int,
                        ));
                    },
                }
            },
            SessionState::Closed => {
                stats.increment("dns.doq.data_after_close");
            },
        }
        let ghost ev = e@;
        self.quic_sessions.put_back(i, e);
        assert(self.quic_sessions@ =~= t.update(i as int, ev));
        assert(self.quic_sessions@ =~= touched(t, key, self.current_time_ms));
        proof {
            assert forall|a: int, b: int|
                0 <= a < b < self.quic_sessions@.len() implies self.quic_sessions@[a].key
                != self.quic_sessions@[b].key by {
                assert(t[a].key != t[b].key);
            }
        }
        proof {
            if results@.len() == 0 {
                assert(results@.map_values(|m: DnsMessage| m@).len() == 0);
            }
        }
        results
    }
}

impl DnsParser for DoqParser {
    /// Cleartext goes through [`DoqParser::process_quic_data`]; a direct call
    /// is only counted.
    fn parse(&mut self, data: &[u8], stats: &mut StatsCounter) -> (r: Option<DnsMessage>)
        ensures
            r is None,
            final(stats).grew(*old(stats), |k: Seq<char>| hit(k, "dns.doq.direct_parse_attempt"@)),
    {
        stats.increment("dns.doq.direct_parse_attempt");
        None
    }

    fn protocol_type(&self) -> (r: DnsProtocol)
        ensures
            r == DnsProtocol::Doq,
    {
        DnsProtocol::Doq
    }
}

} // verus!
