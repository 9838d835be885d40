use vstd::prelude::*;

use crate::dns::{retagged, DnsMessage, DnsParser, DnsProtocol, MessageView};
use crate::session::{
    index_of, keys_unique, opened, idle_cutoff, keep_fresh, SessionTable, SessionView,
};
use crate::stats::{hit, lemma_grew_chain, lemma_grew_none, lemma_grew_same, StatsCounter};
use crate::wire::{append_bytes, be16, copy_bytes, decode_message, decode_tally, read_be16, UdpDnsParser};

verus! {

/// Splits a stream into the length-prefixed messages it holds from its
/// start (each behind a two-byte big-endian length) and the bytes left over.
pub open spec fn split_frames(b: Seq<u8>) -> (Seq<Seq<u8>>, Seq<u8>)
    decreases b.len(),
{
    if b.len() < 2 {
        (seq![], b)
    } else {
        let l = be16(b, 0) as int;
        if b.len() < l + 2 {
            (seq![], b)
        } else {
            let (fs, rest) = split_frames(b.subrange(l + 2, b.len() as int));
            (seq![b.subrange(2, l + 2)] + fs, rest)
        }
    }
}

/// The messages decoded from `fs` in order, tagged with `p`; frames that
/// do not decode are skipped.
pub open spec fn decoded_frames(fs: Seq<Seq<u8>>, max: int, p: DnsProtocol) -> Seq<MessageView>
    decreases fs.len(),
{
    if fs.len() == 0 {
        seq![]
    } else {
        let prev = decoded_frames(fs.drop_last(), max, p);
        match decode_message(fs.last(), max) {
            Some(m) => prev.push(retagged(m, p)),
            None => prev,
        }
    }
}

/// How much decoding each of `fs` adds to counter `k`.
pub open spec fn frames_tally(fs: Seq<Seq<u8>>, max: int, k: Seq<char>) -> nat
    decreases fs.len(),
{
    if fs.len() == 0 {
        0
    } else {
        frames_tally(fs.drop_last(), max, k) + decode_tally(fs.last(), max, k)
    }
}

/// Whether a flow buffer of `buf` is over the limit `max`.
pub open spec fn overflows(buf: Seq<u8>, max: int) -> bool {
    buf.len() > max
}

/// What is left in a flow buffer holding `buf`.
pub open spec fn buffer_after(buf: Seq<u8>, max: int) -> Seq<u8> {
    if overflows(buf, max) {
        seq![]
    } else {
        split_frames(buf).1
    }
}

/// The messages a flow buffer holding `buf` gives.
pub open spec fn messages_from(buf: Seq<u8>, max: int, p: DnsProtocol) -> Seq<MessageView> {
    if overflows(buf, max) {
        seq![]
    } else {
        decoded_frames(split_frames(buf).0, max, p)
    }
}

/// How much a flow buffer holding `buf` adds to counter `k`.
pub open spec fn buffer_tally(buf: Seq<u8>, max: int, k: Seq<char>) -> nat {
    if overflows(buf, max) {
        hit(k, "dns.tcp.buffer_overflow"@)
    } else {
        frames_tally(split_frames(buf).0, max, k)
    }
}

/// The table `t` after the session of `key` took in `data` at `now`.
pub open spec fn fed(t: Seq<SessionView>, key: (u32, u32, u16, u16), data: Seq<u8>, now: u64, max: int) -> Seq<SessionView> {
    let i = index_of(t, key);
    t.update(
        i,
        SessionView {
            key,
            buffer: buffer_after(t[i].buffer + data, max),
            state: t[i].state,
            last_seen: now,
        },
    )
}

pub proof fn lemma_index_of(s: Seq<SessionView>, i: int)
    requires
        keys_unique(s),
        0 <= i < s.len(),
    ensures
        index_of(s, s[i].key) == i,
{
    let k = s[i].key;
    let j = index_of(s, k);
    assert(0 <= j < s.len() && s[j].key == k);
    if j < i {
        assert(s[j].key != s[i].key);
    } else if i < j {
        assert(s[i].key != s[j].key);
    }
}

/// Reassembly does not depend on where the stream is cut: reading the
/// messages of `x`, and then of what was left of `x` followed by `y`, gives
/// the messages of `x + y`, in the same order, with the same bytes left over.
pub proof fn lemma_split_frames_concat(x: Seq<u8>, y: Seq<u8>)
    ensures
        ({
            let (f1, r1) = split_frames(x);
            let (f2, r2) = split_frames(r1 + y);
            split_frames(x + y) == (f1 + f2, r2)
        }),
    decreases x.len(),
{
    let (f1, r1) = split_frames(x);
    let (f2, r2) = split_frames(r1 + y);
    if x.len() < 2 {
        assert(f1 + f2 =~= f2);
    } else {
        let l = be16(x, 0) as int;
        assert(be16(x + y, 0) == be16(x, 0));
        if x.len() < l + 2 {
            assert(f1 + f2 =~= f2);
        } else {
            let x2 = x.subrange(l + 2, x.len() as int);
            lemma_split_frames_concat(x2, y);
            assert((x + y).subrange(l + 2, (x + y).len() as int) =~= x2 + y);
            assert((x + y).subrange(2, l + 2) =~= x.subrange(2, l + 2));
            let (g1, s1) = split_frames(x2);
            assert(f1 == seq![x.subrange(2, l + 2)] + g1);
            assert(seq![x.subrange(2, l + 2)] + (g1 + f2) =~= f1 + f2);
        }
    }
}

/// Decoding frames one batch after another gives the messages of all of
/// them in order, and the same counts.
pub proof fn lemma_decoded_frames_concat(f1: Seq<Seq<u8>>, f2: Seq<Seq<u8>>, max: int, p: DnsProtocol)
    ensures
        decoded_frames(f1 + f2, max, p) == decoded_frames(f1, max, p) + decoded_frames(f2, max, p),
        forall|k: Seq<char>|
            #[trigger] frames_tally(f1 + f2, max, k) == frames_tally(f1, max, k) + frames_tally(
                f2,
                max,
                k,
            ),
    decreases f2.len(),
{
    if f2.len() == 0 {
        assert(f1 + f2 =~= f1);
        assert(decoded_frames(f1, max, p) + decoded_frames(f2, max, p) =~= decoded_frames(f1, max, p));
    } else {
        lemma_decoded_frames_concat(f1, f2.drop_last(), max, p);
        assert((f1 + f2).drop_last() =~= f1 + f2.drop_last());
        assert((f1 + f2).last() == f2.last());
        assert forall|k: Seq<char>|
            #[trigger] frames_tally(f1 + f2, max, k) == frames_tally(f1, max, k) + frames_tally(
                f2,
                max,
                k,
            ) by {
            assert(frames_tally(f1 + f2.drop_last(), max, k) == frames_tally(f1, max, k)
                + frames_tally(f2.drop_last(), max, k));
        }
        let a = decoded_frames(f1, max, p);
        let b = decoded_frames(f2.drop_last(), max, p);
        match decode_message(f2.last(), max) {
            Some(m) => {
                assert((a + b).push(retagged(m, p)) =~= a + b.push(retagged(m, p)));
            },
            None => {},
        }
    }
}

/// A flow that receives `x` and then `y` gives the messages, in order, and
/// keeps the bytes that it gives and keeps when it receives `x + y` in one
/// segment, as long as its buffer never goes over the limit `max`.
pub proof fn lemma_segments_chunking(b: Seq<u8>, x: Seq<u8>, y: Seq<u8>, max: int, p: DnsProtocol)
    requires
        (b + x).len() <= max,
        (buffer_after(b + x, max) + y).len() <= max,
        (b + x + y).len() <= max,
    ensures
        messages_from(b + x, max, p) + messages_from(buffer_after(b + x, max) + y, max, p)
            == messages_from(b + x + y, max, p),
        buffer_after(buffer_after(b + x, max) + y, max) == buffer_after(b + x + y, max),
        forall|k: Seq<char>|
            #[trigger] buffer_tally(b + x + y, max, k) == buffer_tally(b + x, max, k) + buffer_tally(
                buffer_after(b + x, max) + y,
                max,
                k,
            ),
{
    lemma_split_frames_concat(b + x, y);
    let (f1, r1) = split_frames(b + x);
    let (f2, r2) = split_frames(r1 + y);
    lemma_decoded_frames_concat(f1, f2, max, p);
    assert(b + x + y == (b + x) + y);
}

/// The segments `segs` one after another.
pub open spec fn flatten(segs: Seq<Seq<u8>>) -> Seq<u8>
    decreases segs.len(),
{
    if segs.len() == 0 {
        seq![]
    } else {
        flatten(segs.drop_last()) + segs.last()
    }
}

/// A flow buffer holding `buf` fed the segments `segs` one by one, as
/// `process_tcp_segment` feeds it: the messages given, in order, the bytes
/// kept, and whether the buffer stayed within `max` at every step.
pub open spec fn feed_all(buf: Seq<u8>, segs: Seq<Seq<u8>>, max: int, p: DnsProtocol) -> (
    Seq<MessageView>,
    Seq<u8>,
    bool,
)
    decreases segs.len(),
{
    if segs.len() == 0 {
        (seq![], buf, true)
    } else {
        let (ms, b, ok) = feed_all(buf, segs.drop_last(), max, p);
        let next = b + segs.last();
        (ms + messages_from(next, max, p), buffer_after(next, max), ok && !overflows(next, max))
    }
}

/// However a stream is cut into segments, a flow that starts with no
/// whole message buffered and never goes over its limit gives exactly the
/// messages framed in the whole stream, in order, and keeps exactly the
/// unframed bytes at its end.
pub proof fn lemma_any_chunking(buf: Seq<u8>, segs: Seq<Seq<u8>>, max: int, p: DnsProtocol)
    requires
        split_frames(buf).0.len() == 0,
        feed_all(buf, segs, max, p).2,
    ensures
        feed_all(buf, segs, max, p).0 == decoded_frames(split_frames(buf + flatten(segs)).0, max, p),
        feed_all(buf, segs, max, p).1 == split_frames(buf + flatten(segs)).1,
    decreases segs.len(),
{
    if segs.len() == 0 {
        assert(buf + flatten(segs) =~= buf);
    } else {
        let init = segs.drop_last();
        let last = segs.last();
        let (ms, b, ok) = feed_all(buf, init, max, p);
        assert(ok);
        lemma_any_chunking(buf, init, max, p);
        let x = buf + flatten(init);
        lemma_split_frames_concat(x, last);
        let (f1, r1) = split_frames(x);
        let (f2, r2) = split_frames(r1 + last);
        assert(b == r1);
        assert(!overflows(b + last, max));
        assert(messages_from(b + last, max, p) == decoded_frames(f2, max, p));
        assert(buffer_after(b + last, max) == r2);
        lemma_decoded_frames_concat(f1, f2, max, p);
        assert(buf + flatten(segs) =~= x + last);
        assert(split_frames(buf + flatten(segs)) == (f1 + f2, r2));
    }
}

/// Two cuttings of one stream into segments, fed to a buffer holding no
/// whole message and both staying within the limit, give
/// the same messages in the same order and keep the same bytes.
pub proof fn lemma_chunkings_agree(
    buf: Seq<u8>,
    a: Seq<Seq<u8>>,
    b: Seq<Seq<u8>>,
    max: int,
    p: DnsProtocol,
)
    requires
        split_frames(buf).0.len() == 0,
        flatten(a) == flatten(b),
        feed_all(buf, a, max, p).2,
        feed_all(buf, b, max, p).2,
    ensures
        feed_all(buf, a, max, p).0 == feed_all(buf, b, max, p).0,
        feed_all(buf, a, max, p).1 == feed_all(buf, b, max, p).1,
{
    lemma_any_chunking(buf, a, max, p);
    lemma_any_chunking(buf, b, max, p);
}

/// The reassembler of DNS messages carried over TCP, one buffer per flow.
pub struct TcpDnsParser {
    udp_parser: UdpDnsParser,
    sessions: SessionTable,
    max_packet_size: usize,
    max_sessions: usize,
    session_timeout_ms: u64,
    current_time_ms: u64,
}

impl TcpDnsParser {
    pub closed spec fn wf(&self) -> bool {
        &&& self.sessions.wf()
        &&& self.udp_parser.max_size() == self.max_packet_size
    }

    /// The sessions, in table order.
    pub closed spec fn sessions_view(&self) -> Seq<SessionView> {
        self.sessions@
    }

    pub closed spec fn now(&self) -> u64 {
        self.current_time_ms
    }

    pub closed spec fn max_packet(&self) -> nat {
        self.max_packet_size as nat
    }

    pub closed spec fn max_flows(&self) -> nat {
        self.max_sessions as nat
    }

    pub closed spec fn timeout(&self) -> u64 {
        self.session_timeout_ms
    }

    pub fn new(max_packet_size: usize, max_sessions: usize, session_timeout_ms: u64) -> (r: TcpDnsParser)
        ensures
            r.wf(),
            r.sessions_view() == Seq::<SessionView>::empty(),
            r.now() == 0,
            r.max_packet() == max_packet_size,
            r.max_flows() == max_sessions,
            r.timeout() == session_timeout_ms,
    {
        TcpDnsParser {
            udp_parser: UdpDnsParser::new(max_packet_size),
            sessions: SessionTable::new(),
            max_packet_size,
            max_sessions,
            session_timeout_ms,
            current_time_ms: 0,
        }
    }

    /// The number of flows with a session.
    pub fn session_count(&self) -> (r: usize)
        ensures
            r == self.sessions_view().len(),
    {
        self.sessions.len()
    }

    /// The flows with a session, in table order.
    pub fn session_flows(&self) -> (r: Vec<(u32, u32, u16, u16)>)
        ensures
            r@.len() == self.sessions_view().len(),
            forall|i: int| 0 <= i < r@.len() ==> r@[i] == #[trigger] self.sessions_view()[i].key,
    {
        self.sessions.flows()
    }

    /// Moves the clock to `time_ms` and drops the sessions gone stale.
    pub fn update_time(&mut self, time_ms: u64)
        requires
            old(self).wf(),
        ensures
            final(self).wf(),
            final(self).now() == time_ms,
            final(self).sessions_view() == keep_fresh(
                old(self).sessions_view(),
                idle_cutoff(time_ms, old(self).timeout()),
            ),
            final(self).max_packet() == old(self).max_packet(),
            final(self).max_flows() == old(self).max_flows(),
            final(self).timeout() == old(self).timeout(),
    {
        self.current_time_ms = time_ms;
        self.cleanup_sessions();
    }

    fn cleanup_sessions(&mut self)
        requires
            old(self).wf(),
        ensures
            final(self).wf(),
            final(self).sessions_view() == keep_fresh(
                old(self).sessions_view(),
                idle_cutoff(old(self).now(), old(self).timeout()),
            ),
            final(self).now() == old(self).now(),
            final(self).max_packet() == old(self).max_packet(),
            final(self).max_flows() == old(self).max_flows(),
            final(self).timeout() == old(self).timeout(),
    {
        let cutoff = if self.current_time_ms >= self.session_timeout_ms {
            self.current_time_ms - self.session_timeout_ms
        } else {
            0
        };
        self.sessions.remove_stale(cutoff);
    }

    /// Takes the complete messages at the front of `buf`, decodes them, and
    /// returns the messages with the bytes left over.
    fn drain_frames(&self, buf: &[u8], stats: &mut StatsCounter) -> (r: (Vec<DnsMessage>, Vec<u8>))
        requires
            self.wf(),
            old(stats).wf(),
        ensures
            r.0@.map_values(|m: DnsMessage| m@) == decoded_frames(
                split_frames(buf@).0,
                self.max_packet() as int,
                DnsProtocol::Tcp,
            ),
            r.1@ == split_frames(buf@).1,
            final(stats).grew(
                *old(stats),
                |k: Seq<char>| frames_tally(split_frames(buf@).0, self.max_packet() as int, k),
            ),
    {
        let ghost max = self.max_packet() as int;
        let ghost s0 = *stats;
        let mut out: Vec<DnsMessage> = Vec::new();
        let mut pos: usize = 0;
        let ghost mut done: Seq<Seq<u8>> = seq![];
        proof {
            lemma_grew_none(s0, |k: Seq<char>| frames_tally(done, max, k));
            assert(buf@.subrange(0, buf@.len() as int) =~= buf@);
            assert(done + split_frames(buf@).0 =~= split_frames(buf@).0);
        }
        loop
            invariant
                self.wf(),
                max == self.max_packet() as int,
                pos <= buf@.len(),
                *old(stats) == s0,
                split_frames(buf@) == (
                    done + split_frames(buf@.subrange(pos as int, buf@.len() as int)).0,
                    split_frames(buf@.subrange(pos as int, buf@.len() as int)).1,
                ),
                out@.map_values(|m: DnsMessage| m@) == decoded_frames(done, max, DnsProtocol::Tcp),
                stats.grew(s0, |k: Seq<char>| frames_tally(done, max, k)),
            ensures
                pos <= buf@.len(),
                split_frames(buf@) == (done, buf@.subrange(pos as int, buf@.len() as int)),
                out@.map_values(|m: DnsMessage| m@) == decoded_frames(done, max, DnsProtocol::Tcp),
                stats.grew(s0, |k: Seq<char>| frames_tally(done, max, k)),
            decreases buf@.len() - pos,
        {
            let ghost tail = buf@.subrange(pos as int, buf@.len() as int);
            if buf.len() - pos < 2 {
                assert(split_frames(tail) == (Seq::<Seq<u8>>::empty(), tail));
                assert(done + Seq::<Seq<u8>>::empty() =~= done);
                break ;
            }
            let l = read_be16(buf, pos) as usize;
            assert(be16(tail, 0) == be16(buf@, pos as int));
            if buf.len() - pos - 2 < l {
                assert(split_frames(tail) == (Seq::<Seq<u8>>::empty(), tail));
                assert(done + Seq::<Seq<u8>>::empty() =~= done);
                break ;
            }
            let frame = &buf[pos + 2..pos + 2 + l];
            assert(frame@ == tail.subrange(2, l + 2));
            assert(tail.subrange(l + 2, tail.len() as int) =~= buf@.subrange(
                pos + 2 + l,
                buf@.len() as int,
            ));
            let ghost s1 = *stats;
            let ghost next = done.push(frame@);
            assert(next.drop_last() =~= done);
            assert(next.last() == frame@);
            match self.udp_parser.decode(frame, stats) {
                Some(m) => {
                    let mut m = m;
                    m.protocol = DnsProtocol::Tcp;
                    let ghost before = out@;
                    out.push(m);
                    assert(out@.map_values(|m: DnsMessage| m@) =~= before.map_values(
                        |m: DnsMessage| m@,
                    ).push(m@));
                },
                None => {},
            }
            proof {
                lemma_grew_chain(
                    s0,
                    s1,
                    *stats,
                    |k: Seq<char>| frames_tally(done, max, k),
                    |k: Seq<char>| decode_tally(frame@, max, k),
                    |k: Seq<char>| frames_tally(next, max, k),
                );
                assert(next + split_frames(buf@.subrange(pos + 2 + l, buf@.len() as int)).0
                    =~= done + split_frames(tail).0);
                done = next;
            }
            pos = pos + 2 + l;
        }
        let rest = copy_bytes(buf, pos, buf.len());
        (out, rest)
    }

    /// Feeds a segment of the flow (`src_ip`, `dst_ip`, `src_port`, `dst_port`)
    /// and returns the messages it completes, tagged TCP.
    ///
    /// A flow not seen before gets a session, after room is made for it.
    /// When the flow's buffer grows past the size limit it is emptied, the
    /// overflow is counted, and nothing is returned; the session stays.
    pub fn process_tcp_segment(
        &mut self,
        src_ip: u32,
        dst_ip: u32,
        src_port: u16,
        dst_port: u16,
        data: &[u8],
        stats: &mut StatsCounter,
    ) -> (r: Vec<DnsMessage>)
        requires
            old(self).wf(),
            old(stats).wf(),
        ensures
            final(self).wf(),
            ({
                let key = (src_ip, dst_ip, src_port, dst_port);
                let t = opened(
                    old(self).sessions_view(),
                    key,
                    old(self).now(),
                    old(self).max_flows(),
                    old(self).timeout(),
                );
                let buf = t[index_of(t, key)].buffer + data@;
                let max = old(self).max_packet() as int;
                &&& final(self).sessions_view() == fed(t, key, data@, old(self).now(), max)
                &&& r@.map_values(|m: DnsMessage| m@) == messages_from(buf, max, DnsProtocol::Tcp)
                &&& final(stats).grew(*old(stats), |k: Seq<char>| buffer_tally(buf, max, k))
            }),
            final(self).now() == old(self).now(),
            final(self).max_packet() == old(self).max_packet(),
            final(self).max_flows() == old(self).max_flows(),
            final(self).timeout() == old(self).timeout(),
    {
        let key = (src_ip, dst_ip, src_port, dst_port);
        let i = self.sessions.open(key, self.current_time_ms, self.max_sessions, self.session_timeout_ms);
        let ghost t = self.sessions@;
        proof {
            lemma_index_of(t, i as int);
        }
        let ghost max = self.max_packet() as int;
        let mut e = self.sessions.take(i);
        e.last_seen = self.current_time_ms;
        append_bytes(&mut e.buffer, data);
        let ghost buf = e.buffer@;
        if e.buffer.len() > self.max_packet_size {
            let ghost s0 = *stats;
            stats.increment("dns.tcp.buffer_overflow");
            proof {
                lemma_grew_same(
                    s0,
                    *stats,
                    |k: Seq<char>| hit(k, "dns.tcp.buffer_overflow"@),
                    |k: Seq<char>| buffer_tally(buf, max, k),
                );
            }
            e.buffer = Vec::new();
            let ghost ev = e@;
            assert(ev == SessionView {
                key,
                buffer: buffer_after(t[i as int].buffer + data@, max),
                state: t[i as int].state,
                last_seen: self.current_time_ms,
            });
            self.sessions.put_back(i, e);
            assert(self.sessions@ =~= t.update(i as int, ev));
            assert(self.sessions@ =~= fed(t, key, data@, self.current_time_ms, max));
            let r: Vec<DnsMessage> = Vec::new();
            assert(r@.map_values(|m: DnsMessage| m@) =~= messages_from(buf, max, DnsProtocol::Tcp));
            return r;
        }
        let (msgs, rest) = self.drain_frames(e.buffer.as_slice(), stats);
        e.buffer = rest;
        let ghost ev = e@;
        assert(ev == SessionView {
            key,
            buffer: buffer_after(t[i as int].buffer + data@, max),
            state: t[i as int].state,
            last_seen: self.current_time_ms,
        });
        self.sessions.put_back(i, e);
        assert(self.sessions@ =~= t.update(i as int, ev));
        assert(self.sessions@ =~= fed(t, key, data@, self.current_time_ms, max));
        proof {
            assert forall|a: int, b: int|
                0 <= a < b < self.sessions@.len() implies self.sessions@[a].key
                != self.sessions@[b].key by {
                assert(t[a].key != t[b].key);
            }
        }
        msgs
    }
}

impl DnsParser for TcpDnsParser {
    /// Whole segments go through [`TcpDnsParser::process_tcp_segment`]; a
    /// direct call is only counted.
    fn parse(&mut self, data: &[u8], stats: &mut StatsCounter) -> (r: Option<DnsMessage>)
        ensures
            r is None,
            final(stats).grew(*old(stats), |k: Seq<char>| hit(k, "dns.tcp.direct_parse_attempt"@)),
    {
        stats.increment("dns.tcp.direct_parse_attempt");
        None
    }

    fn protocol_type(&self) -> (r: DnsProtocol)
        ensures
            r == DnsProtocol::Tcp,
    {
        DnsProtocol::Tcp
    }
}

} // verus!
