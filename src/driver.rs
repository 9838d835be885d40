use vstd::prelude::*;

use crate::capture::CaptureConfig;
use crate::detect::{classify, ProtocolDetectResult, ProtocolDetector, DNS_PORT, DOH_PORT, DOQ_ALT_PORT, DOT_PORT};
use crate::dns::DnsMessage;
use crate::error::Error;
use crate::output::OutputConfig;
use crate::stats::{hit, lemma_grew_chain, lemma_grew_same, StatsCounter};
use crate::wire::{decode_message, decode_tally, UdpDnsParser};

verus! {

/// The largest message the driver's decoder takes.
pub const DRIVER_MAX_PACKET: usize = 65535;

/// Frames a worker pulls from the source at a time.
pub const WORKER_BATCH: usize = 10;

/// Settings of a run.
pub struct DriverConfig {
    pub capture: CaptureConfig,
    pub output: OutputConfig,
    /// Seconds between statistics dumps.
    pub stats_interval: u64,
    pub worker_threads: usize,
}

/// How the default demultiplexer classifies a packet between `src` and `dst`.
pub open spec fn default_classify(src: u16, dst: u16) -> ProtocolDetectResult {
    classify(seq![DNS_PORT], seq![DOT_PORT], seq![DOH_PORT], seq![DOT_PORT, DOQ_ALT_PORT], src, dst)
}

/// The message a packet `d` between `src` and `dst` gives.
pub open spec fn packet_message(d: Seq<u8>, src: u16, dst: u16) -> Option<crate::dns::MessageView> {
    match default_classify(src, dst) {
        ProtocolDetectResult::Dns(_) => decode_message(d, DRIVER_MAX_PACKET as int),
        _ => None,
    }
}

/// How much handling a packet `d` between `src` and `dst` adds to counter `k`.
pub open spec fn packet_tally(d: Seq<u8>, src: u16, dst: u16, k: Seq<char>) -> nat {
    match default_classify(src, dst) {
        ProtocolDetectResult::Dns(_) => decode_tally(d, DRIVER_MAX_PACKET as int, k) + if decode_message(
            d,
            DRIVER_MAX_PACKET as int,
        ) is Some {
            hit(k, "packet.processed"@)
        } else {
            0
        },
        ProtocolDetectResult::NeedMoreData => hit(k, "packet.need_more_data"@),
        ProtocolDetectResult::Unknown => hit(k, "packet.unknown"@),
    }
}

/// The decisions of a capture run: whether it runs, what each packet
/// gives, and when statistics are due. Threads, sleeping and output are
/// the caller's.
pub struct Driver {
    pub config: DriverConfig,
    stats: StatsCounter,
    running: bool,
    detector: ProtocolDetector,
    parser: UdpDnsParser,
}

impl Driver {
    pub closed spec fn wf(&self) -> bool {
        &&& self.stats.wf()
        &&& self.detector.dns_ports@ == seq![DNS_PORT]
        &&& self.detector.dot_ports@ == seq![DOT_PORT]
        &&& self.detector.doh_ports@ == seq![DOH_PORT]
        &&& self.detector.doq_ports@ == seq![DOT_PORT, DOQ_ALT_PORT]
        &&& self.parser.max_size() == DRIVER_MAX_PACKET
    }

    /// Seconds between statistics dumps.
    pub closed spec fn interval(&self) -> u64 {
        self.config.stats_interval
    }

    pub closed spec fn is_running_spec(&self) -> bool {
        self.running
    }

    /// The counters of the run.
    pub closed spec fn stats_view(&self) -> StatsCounter {
        self.stats
    }

    pub fn new(config: DriverConfig) -> (r: Driver)
        ensures
            r.wf(),
            !r.is_running_spec(),
            forall|k: Seq<char>| #[trigger] r.stats_view().count(k) == 0,
    {
        Driver {
            config,
            stats: StatsCounter::new(),
            running: false,
            detector: ProtocolDetector::new(),
            parser: UdpDnsParser::new(DRIVER_MAX_PACKET),
        }
    }

    /// Marks the run as started; refused while it runs.
    pub fn start(&mut self) -> (r: crate::error::Result<()>)
        requires
            old(self).wf(),
        ensures
            final(self).wf(),
            old(self).is_running_spec() ==> r matches Err(Error::DriverAlreadyRunning),
            !old(self).is_running_spec() ==> r is Ok,
            final(self).is_running_spec(),
            final(self).stats_view() == old(self).stats_view(),
    {
        if self.running {
            return Err(Error::DriverAlreadyRunning);
        }
        self.running = true;
        Ok(())
    }

    /// Marks the run as stopped; workers see it at their next round.
    pub fn stop(&mut self)
        requires
            old(self).wf(),
        ensures
            final(self).wf(),
            !final(self).is_running_spec(),
            final(self).stats_view() == old(self).stats_view(),
    {
        self.running = false;
    }

    pub fn is_running(&self) -> (r: bool)
        ensures
            r == self.is_running_spec(),
    {
        self.running
    }

    /// A copy of the counters of the run.
    pub fn get_stats(&self) -> (r: StatsCounter)
        requires
            self.wf(),
        ensures
            r.wf(),
            forall|k: Seq<char>| #[trigger] r.count(k) == self.stats_view().count(k),
            forall|k: Seq<char>| #[trigger] r.timer_nanos(k) == self.stats_view().timer_nanos(k),
    {
        self.stats.snapshot()
    }

    /// The counters of the run, which start again from nothing.
    pub fn take_stats(&mut self) -> (r: StatsCounter)
        requires
            old(self).wf(),
        ensures
            final(self).wf(),
            forall|k: Seq<char>| #[trigger] r.count(k) == old(self).stats_view().count(k),
            forall|k: Seq<char>| #[trigger] r.timer_nanos(k) == old(self).stats_view().timer_nanos(k),
            forall|k: Seq<char>| #[trigger] final(self).stats_view().count(k) == 0,
            final(self).is_running_spec() == old(self).is_running_spec(),
    {
        let r = self.stats.snapshot();
        self.stats.reset();
        r
    }

    /// Whether statistics are due `elapsed_secs` seconds after the last dump.
    pub fn stats_due(&self, elapsed_secs: u64) -> (r: bool)
        ensures
            r == (elapsed_secs >= self.interval()),
    {
        elapsed_secs >= self.config.stats_interval
    }

    /// Classifies a packet between ports `src_port` and `dst_port`, decodes
    /// it when it is plain DNS, and counts the outcome.
    pub fn process_packet(&mut self, data: &[u8], src_port: u16, dst_port: u16) -> (r: Option<DnsMessage>)
        requires
            old(self).wf(),
        ensures
            final(self).wf(),
            match packet_message(data@, src_port, dst_port) {
                None => r is None,
                Some(m) => r matches Some(rm) && rm@ == m,
            },
            final(self).stats_view().grew(
                old(self).stats_view(),
                |k: Seq<char>| packet_tally(data@, src_port, dst_port, k),
            ),
            final(self).is_running_spec() == old(self).is_running_spec(),
    {
        let ghost s0 = self.stats;
        match self.detector.detect(data, src_port, dst_port) {
            ProtocolDetectResult::Dns(_) => {
                let r = self.parser.decode(data, &mut self.stats);
                let ghost s1 = self.stats;
                if r.is_some() {
                    self.stats.increment("packet.processed");
                    proof {
                        lemma_grew_chain(
                            s0,
                            s1,
                            self.stats,
                            |k: Seq<char>| decode_tally(data@, DRIVER_MAX_PACKET as int, k),
                            |k: Seq<char>| hit(k, "packet.processed"@),
                            |k: Seq<char>| packet_tally(data@, src_port, dst_port, k),
                        );
                    }
                } else {
                    proof {
                        lemma_grew_same(
                            s0,
                            s1,
                            |k: Seq<char>| decode_tally(data@, DRIVER_MAX_PACKET as int, k),
                            |k: Seq<char>| packet_tally(data@, src_port, dst_port, k),
                        );
                    }
                }
                r
            },
            ProtocolDetectResult::NeedMoreData => {
                self.stats.increment("packet.need_more_data");
                proof {
                    lemma_grew_same(
                        s0,
                        self.stats,
                        |k: Seq<char>| hit(k, "packet.need_more_data"@),
                        |k: Seq<char>| packet_tally(data@, src_port, dst_port, k),
                    );
                }
                None
            },
            ProtocolDetectResult::Unknown => {
                self.stats.increment("packet.unknown");
                proof {
                    lemma_grew_same(
                        s0,
                        self.stats,
                        |k: Seq<char>| hit(k, "packet.unknown"@),
                        |k: Seq<char>| packet_tally(data@, src_port, dst_port, k),
                    );
                }
                None
            },
        }
    }
}

} // verus!
