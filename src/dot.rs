use vstd::prelude::*;

use crate::dns::{retagged, DnsMessage, DnsParser, DnsProtocol, MessageView};
use crate::session::{
    index_of, keep_fresh, opened, idle_cutoff, SessionState, SessionTable, SessionView,
};
use crate::stats::{hit, StatsCounter};
use crate::tcp::{buffer_tally, fed, lemma_index_of, messages_from, TcpDnsParser};
use crate::wire::copy_bytes;

verus! {

/// `s` with every message tagged `p`.
pub open spec fn retag_all(s: Seq<MessageView>, p: DnsProtocol) -> Seq<MessageView> {
    s.map_values(|m: MessageView| retagged(m, p))
}

/// The state a session moves to when data arrives in state `s`.
pub open spec fn next_state(s: SessionState) -> SessionState {
    match s {
        SessionState::Handshake => SessionState::Established,
        _ => s,
    }
}

/// The table `t` after data for `key` arrived at `now` in the session's state.
pub open spec fn touched(t: Seq<SessionView>, key: (u32, u32, u16, u16), now: u64) -> Seq<SessionView> {
    let i = index_of(t, key);
    t.update(i, SessionView { state: next_state(t[i].state), last_seen: now, ..t[i] })
}

/// Tags every message of `msgs` with `p`.
pub fn retag(msgs: &mut Vec<DnsMessage>, p: DnsProtocol)
    ensures
        final(msgs)@.map_values(|m: DnsMessage| m@) == retag_all(
            old(msgs)@.map_values(|m: DnsMessage| m@),
            p,
        ),
{
    let mut j: usize = 0;
    while j < msgs.len()
        invariant
            j <= msgs@.len(),
            msgs@.len() == old(msgs)@.len(),
            forall|i: int| 0 <= i < j ==> #[trigger] msgs@[i]@ == retagged(old(msgs)@[i]@, p),
            forall|i: int| j <= i < msgs@.len() ==> #[trigger] msgs@[i] == old(msgs)@[i],
        decreases msgs@.len() - j,
    {
        msgs[j].protocol = p;
        j = j + 1;
    }
    assert(msgs@.map_values(|m: DnsMessage| m@) =~= retag_all(
        old(msgs)@.map_values(|m: DnsMessage| m@),
        p,
    ));
}

/// The reassembler of DNS over TLS. Cleartext reaches it from a decryptor;
/// a session's first packet completes its handshake, and the data of an
/// established session goes through TCP reassembly.
pub struct DotParser {
    tcp_parser: TcpDnsParser,
    tls_sessions: SessionTable,
    max_sessions: usize,
    session_timeout_ms: u64,
    current_time_ms: u64,
}

impl DotParser {
    pub closed spec fn wf(&self) -> bool {
        &&& self.tcp_parser.wf()
        &&& self.tls_sessions.wf()
    }

    /// The TLS sessions, in table order.
    pub closed spec fn sessions_view(&self) -> Seq<SessionView> {
        self.tls_sessions@
    }

    /// The TCP reassembler the cleartext goes through.
    pub closed spec fn inner(&self) -> TcpDnsParser {
        self.tcp_parser
    }

    pub closed spec fn now(&self) -> u64 {
        self.current_time_ms
    }

    pub closed spec fn max_flows(&self) -> nat {
        self.max_sessions as nat
    }

    pub closed spec fn timeout(&self) -> u64 {
        self.session_timeout_ms
    }

    pub fn new(max_packet_size: usize, max_sessions: usize, session_timeout_ms: u64) -> (r: DotParser)
        ensures
            r.wf(),
            r.sessions_view() == Seq::<SessionView>::empty(),
            r.inner().sessions_view() == Seq::<SessionView>::empty(),
            r.inner().max_packet() == max_packet_size,
            r.inner().max_flows() == max_sessions,
            r.inner().timeout() == session_timeout_ms,
            r.inner().now() == 0,
            r.now() == 0,
            r.max_flows() == max_sessions,
            r.timeout() == session_timeout_ms,
    {
        DotParser {
            tcp_parser: TcpDnsParser::new(max_packet_size, max_sessions, session_timeout_ms),
            tls_sessions: SessionTable::new(),
            max_sessions,
            session_timeout_ms,
            current_time_ms: 0,
        }
    }

    /// The number of flows with a TLS session.
    pub fn session_count(&self) -> (r: usize)
        ensures
            r == self.sessions_view().len(),
    {
        self.tls_sessions.len()
    }

    /// Moves the clock of this reassembler and of its TCP reassembler to
    /// `time_ms`, and drops the sessions gone stale.
    pub fn update_time(&mut self, time_ms: u64)
        requires
            old(self).wf(),
        ensures
            final(self).wf(),
            final(self).now() == time_ms,
            final(self).sessions_view() == keep_fresh(
                old(self).sessions_view(),
                idle_cutoff(time_ms, old(self).timeout()),
            ),
            final(self).inner().now() == time_ms,
            final(self).inner().sessions_view() == keep_fresh(
                old(self).inner().sessions_view(),
                idle_cutoff(time_ms, old(self).inner().timeout()),
            ),
            final(self).inner().max_packet() == old(self).inner().max_packet(),
            final(self).inner().max_flows() == old(self).inner().max_flows(),
            final(self).inner().timeout() == old(self).inner().timeout(),
            final(self).max_flows() == old(self).max_flows(),
            final(self).timeout() == old(self).timeout(),
    {
        self.current_time_ms = time_ms;
        self.tcp_parser.update_time(time_ms);
        self.cleanup_sessions();
    }

    fn cleanup_sessions(&mut self)
        requires
            old(self).wf(),
        ensures
            final(self).wf(),
            final(self).sessions_view() == keep_fresh(
                old(self).sessions_view(),
                idle_cutoff(old(self).now(), old(self).timeout()),
            ),
            final(self).inner() == old(self).inner(),
            final(self).now() == old(self).now(),
            final(self).max_flows() == old(self).max_flows(),
            final(self).timeout() == old(self).timeout(),
    {
        let cutoff = if self.current_time_ms >= self.session_timeout_ms {
            self.current_time_ms - self.session_timeout_ms
        } else {
            0
        };
        self.tls_sessions.remove_stale(cutoff);
    }

    /// The cleartext of `data`; the decryptor upstream hands it over as it is.
    fn decrypt_tls_data(&self, data: &[u8]) -> (r: Vec<u8>)
        ensures
            r@ == data@,
    {
        let r = copy_bytes(data, 0, data.len());
        assert(data@.subrange(0, data@.len() as int) =~= data@);
        r
    }

    /// Feeds cleartext of the flow (`src_ip`, `dst_ip`, `src_port`, `dst_port`)
    /// and returns the messages it completes, tagged DoT.
    ///
    /// In handshake the session becomes established and the data is not
    /// read; once established the data goes through TCP reassembly; after
    /// the session closed the data is counted and dropped.
    pub fn process_tls_data(
        &mut self,
        src_ip: u32,
        dst_ip: u32,
        src_port: u16,
        dst_port: u16,
        data: &[u8],
        stats: &mut StatsCounter,
    ) -> (r: Vec<DnsMessage>)
        requires
            old(self).wf(),
            old(stats).wf(),
        ensures
            final(self).wf(),
            ({
                let key = (src_ip, dst_ip, src_port, dst_port);
                let t = opened(
                    old(self).sessions_view(),
                    key,
                    old(self).now(),
                    old(self).max_flows(),
                    old(self).timeout(),
                );
                let st = t[index_of(t, key)].state;
                let tcp = old(self).inner();
                let u = opened(tcp.sessions_view(), key, tcp.now(), tcp.max_flows(), tcp.timeout());
                let buf = u[index_of(u, key)].buffer + data@;
                let max = tcp.max_packet() as int;
                &&& final(self).sessions_view() == touched(t, key, old(self).now())
                &&& st == SessionState::Established ==> {
                    &&& final(self).inner().sessions_view() == fed(u, key, data@, tcp.now(), max)
                    &&& r@.map_values(|m: DnsMessage| m@) == retag_all(
                        messages_from(buf, max, DnsProtocol::Tcp),
                        DnsProtocol::Dot,
                    )
                    &&& final(stats).grew(*old(stats), |k: Seq<char>| buffer_tally(buf, max, k))
                }
                &&& st == SessionState::Handshake ==> {
                    &&& final(self).inner() == tcp
                    &&& r@.len() == 0
                    &&& final(stats).grew(
                        *old(stats),
                        |k: Seq<char>| hit(k, "dns.dot.handshake_completed"@),
                    )
                }
                &&& st == SessionState::Closed ==> {
                    &&& final(self).inner() == tcp
                    &&& r@.len() == 0
                    &&& final(stats).grew(
                        *old(stats),
                        |k: Seq<char>| hit(k, "dns.dot.data_after_close"@),
                    )
                }
            }),
            final(self).now() == old(self).now(),
            final(self).max_flows() == old(self).max_flows(),
            final(self).timeout() == old(self).timeout(),
            final(self).inner().now() == old(self).inner().now(),
            final(self).inner().max_packet() == old(self).inner().max_packet(),
            final(self).inner().max_flows() == old(self).inner().max_flows(),
            final(self).inner().timeout() == old(self).inner().timeout(),
    {
        let key = (src_ip, dst_ip, src_port, dst_port);
        let i = self.tls_sessions.open(
            key,
            self.current_time_ms,
            self.max_sessions,
            self.session_timeout_ms,
        );
        let ghost t = self.tls_sessions@;
        proof {
            lemma_index_of(t, i as int);
        }
        let mut e = self.tls_sessions.take(i);
        e.last_seen = self.current_time_ms;
        let mut results: Vec<DnsMessage> = Vec::new();
        assert(e.state == t[index_of(t, key)].state);
        match e.state {
            SessionState::Handshake => {
                e.state = SessionState::Established;
                stats.increment("dns.dot.handshake_completed");
            },
            SessionState::Established => {
                let decrypted = self.decrypt_tls_data(data);
                results = self.tcp_parser.process_tcp_segment(
                    src_ip,
                    dst_ip,
                    src_port,
                    dst_port,
                    decrypted.as_slice(),
                    stats,
                );
            },
            SessionState::Closed => {
                stats.increment("dns.dot.data_after_close");
            },
        }
        let ghost ev = e@;
        self.tls_sessions.put_back(i, e);
        assert(self.tls_sessions@ =~= t.update(i as int, ev));
        assert(self.tls_sessions@ =~= touched(t, key, self.current_time_ms));
        proof {
            assert forall|a: int, b: int|
                0 <= a < b < self.tls_sessions@.len() implies self.tls_sessions@[a].key
                != self.tls_sessions@[b].key by {
                assert(t[a].key != t[b].key);
            }
        }
        let ghost old_len = results@.len();
        retag(&mut results, DnsProtocol::Dot);
        proof {
            if old_len == 0 {
                assert(results@.map_values(|m: DnsMessage| m@).len() == 0);
            }
        }
        results
    }
}

impl DnsParser for DotParser {
    /// Cleartext goes through [`DotParser::process_tls_data`]; a direct call
    /// is only counted.
    fn parse(&mut self, data: &[u8], stats: &mut StatsCounter) -> (r: Option<DnsMessage>)
        ensures
            r is None,
            final(stats).grew(*old(stats), |k: Seq<char>| hit(k, "dns.dot.direct_parse_attempt"@)),
    {
        stats.increment("dns.dot.direct_parse_attempt");
        None
    }

    fn protocol_type(&self) -> (r: DnsProtocol)
        ensures
            r == DnsProtocol::Dot,
    {
        DnsProtocol::Dot
    }
}

} // verus!
