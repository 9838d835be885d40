use vstd::prelude::*;

use crate::error::Error;
use crate::text::{lower_of, lowercase};

verus! {

/// Which kind of frame source to use.
#[derive(Debug, Clone, Copy, PartialEq, Eq, Structural)]
pub enum CaptureMode {
    Dpdk,
    Pcap,
    Xdp,
}

/// The mode a lowercase name selects; an unknown name selects libpcap.
pub open spec fn mode_named(lower: Seq<char>) -> CaptureMode {
    if lower == "dpdk"@ {
        CaptureMode::Dpdk
    } else if lower == "xdp"@ {
        CaptureMode::Xdp
    } else {
        CaptureMode::Pcap
    }
}

/// The mode that the lowercase name `lower` selects.
pub fn mode_from_lowercase(lower: &str) -> (r: CaptureMode)
    ensures
        r == mode_named(lower@),
{
    let l = lower.to_owned();
    if l == String::from_str("dpdk") {
        CaptureMode::Dpdk
    } else if l == String::from_str("xdp") {
        CaptureMode::Xdp
    } else {
        CaptureMode::Pcap
    }
}

impl<'a> From<&'a str> for CaptureMode {
    /// The mode named `s`, in any case; an unknown name selects libpcap.
    fn from(s: &'a str) -> (r: CaptureMode)
        ensures
            r == mode_named(lower_of(s@)),
    {
        let lower = lowercase(s);
        mode_from_lowercase(lower.as_str())
    }
}

impl<'a> vstd::std_specs::convert::FromSpecImpl<&'a str> for CaptureMode {
    open spec fn obeys_from_spec() -> bool {
        true
    }

    open spec fn from_spec(s: &'a str) -> CaptureMode {
        mode_named(lower_of(s@))
    }
}

impl CaptureMode {
    /// The mode's name.
    pub fn name(&self) -> (r: String)
        ensures
            r@ == match self {
                CaptureMode::Dpdk => "dpdk"@,
                CaptureMode::Pcap => "pcap"@,
                CaptureMode::Xdp => "xdp"@,
            },
    {
        match self {
            CaptureMode::Dpdk => String::from_str("dpdk"),
            CaptureMode::Pcap => String::from_str("pcap"),
            CaptureMode::Xdp => String::from_str("xdp"),
        }
    }
}

/// Settings of the DPDK frame source.
#[derive(Debug, Clone)]
pub struct DpdkCaptureConfig {
    pub eal_args: Vec<String>,
    pub port_ids: Vec<u16>,
    pub rx_queues: u16,
    pub tx_queues: u16,
    pub mempool_size: u32,
    pub mempool_cache_size: u32,
    pub mbuf_size: u16,
}

impl Default for DpdkCaptureConfig {
    fn default() -> (r: DpdkCaptureConfig)
        ensures
            r.port_ids@ == seq![0u16],
            r.eal_args@.len() == 1,
            r.rx_queues == 1,
            r.tx_queues == 1,
            r.mempool_size == 8192,
            r.mempool_cache_size == 256,
            r.mbuf_size == 2048,
    {
        let r = DpdkCaptureConfig {
            eal_args: vec![String::from_str("dns-spider")],
            port_ids: vec![0],
            rx_queues: 1,
            tx_queues: 1,
            mempool_size: 8192,
            mempool_cache_size: 256,
            mbuf_size: 2048,
        };
        assert(r.port_ids@ =~= seq![0u16]);
        r
    }
}

/// Settings of the AF_XDP frame source.
#[derive(Debug, Clone)]
pub struct XdpCaptureConfig {
    pub program_path: String,
    pub section_name: String,
    pub flags: u32,
    pub ring_size: u32,
    pub frame_size: u32,
    pub frame_count: u32,
    pub fill_size: u32,
    pub comp_size: u32,
}

impl Default for XdpCaptureConfig {
    fn default() -> (r: XdpCaptureConfig)
        ensures
            r.program_path@ == "xdp/dns_filter.o"@,
            r.section_name@ == "dns_filter"@,
            r.flags == 0,
            r.ring_size == 4096,
            r.frame_size == 2048,
            r.frame_count == 8192,
            r.fill_size == 4096,
            r.comp_size == 4096,
    {
        XdpCaptureConfig {
            program_path: String::from_str("xdp/dns_filter.o"),
            section_name: String::from_str("dns_filter"),
            flags: 0,
            ring_size: 4096,
            frame_size: 2048,
            frame_count: 8192,
            fill_size: 4096,
            comp_size: 4096,
        }
    }
}

/// Settings shared by every frame source.
#[derive(Debug, Clone)]
pub struct CaptureConfig {
    pub mode: CaptureMode,
    pub interface: String,
    pub filter: String,
    pub promiscuous: bool,
    pub snaplen: i32,
    pub timeout_ms: i32,
    pub buffer_size: i32,
    pub dpdk_config: Option<DpdkCaptureConfig>,
    pub xdp_config: Option<XdpCaptureConfig>,
}

impl Default for CaptureConfig {
    fn default() -> (r: CaptureConfig)
        ensures
            r.mode == CaptureMode::Pcap,
            r.interface@ == "eth0"@,
            r.filter@ == "udp port 53 or tcp port 53"@,
            r.promiscuous,
            r.snaplen == 65535,
            r.timeout_ms == 1000,
            r.buffer_size == 16777216,
            r.dpdk_config is None,
            r.xdp_config is None,
    {
        CaptureConfig {
            mode: CaptureMode::Pcap,
            interface: String::from_str("eth0"),
            filter: String::from_str("udp port 53 or tcp port 53"),
            promiscuous: true,
            snaplen: 65535,
            timeout_ms: 1000,
            buffer_size: 16777216,
            dpdk_config: None,
            xdp_config: None,
        }
    }
}

/// Packet and byte totals of a frame source.
#[derive(Debug, Clone, Copy, PartialEq, Eq, Structural)]
pub struct CaptureStats {
    pub rx_packets: u64,
    pub tx_packets: u64,
    pub dropped_packets: u64,
    pub rx_bytes: u64,
    pub tx_bytes: u64,
}

/// The total length of the first `n` frames of `frames`.
pub open spec fn total_len(frames: Seq<Vec<u8>>, n: int) -> int
    decreases n,
{
    if n <= 0 {
        0
    } else {
        total_len(frames, n - 1) + frames[n - 1]@.len()
    }
}

/// `x` held at `u64::MAX`.
pub open spec fn clamp_u64(x: int) -> u64 {
    if x > u64::MAX {
        u64::MAX
    } else {
        x as u64
    }
}

/// All totals zero.
pub open spec fn zero_stats() -> CaptureStats {
    CaptureStats { rx_packets: 0, tx_packets: 0, dropped_packets: 0, rx_bytes: 0, tx_bytes: 0 }
}

impl Default for CaptureStats {
    fn default() -> (r: CaptureStats)
        ensures
            r == zero_stats(),
    {
        CaptureStats { rx_packets: 0, tx_packets: 0, dropped_packets: 0, rx_bytes: 0, tx_bytes: 0 }
    }
}

impl CaptureStats {
    /// Counts `frames` as received. Totals saturate at `u64::MAX`.
    pub fn record_received(&mut self, frames: &Vec<Vec<u8>>)
        ensures
            final(self).rx_packets == clamp_u64(old(self).rx_packets + frames@.len()),
            final(self).rx_bytes == clamp_u64(old(self).rx_bytes + total_len(frames@, frames@.len() as int)),
            final(self).tx_packets == old(self).tx_packets,
            final(self).tx_bytes == old(self).tx_bytes,
            final(self).dropped_packets == old(self).dropped_packets,
    {
        let n = frames.len() as u64;
        self.rx_packets = if self.rx_packets > u64::MAX - n { u64::MAX } else { self.rx_packets + n };
        let mut i: usize = 0;
        while i < frames.len()
            invariant
                i <= frames@.len(),
                self.rx_bytes == clamp_u64(old(self).rx_bytes + total_len(frames@, i as int)),
                self.rx_packets == clamp_u64(old(self).rx_packets + frames@.len()),
                self.tx_packets == old(self).tx_packets,
                self.tx_bytes == old(self).tx_bytes,
                self.dropped_packets == old(self).dropped_packets,
            decreases frames@.len() - i,
        {
            let len = frames[i].len() as u64;
            proof {
                assert(total_len(frames@, i + 1) == total_len(frames@, i as int) + frames@[i as int]@.len());
                assert(total_len(frames@, i as int) >= 0) by {
                    lemma_total_len_nonneg(frames@, i as int);
                }
            }
            self.rx_bytes = if self.rx_bytes > u64::MAX - len { u64::MAX } else { self.rx_bytes + len };
            i = i + 1;
        }
    }

    /// Counts the first `sent` of `frames` as sent. Totals saturate at `u64::MAX`.
    pub fn record_sent(&mut self, frames: &[Vec<u8>], sent: usize)
        requires
            sent <= frames@.len(),
        ensures
            final(self).tx_packets == clamp_u64(old(self).tx_packets + sent),
            final(self).tx_bytes == clamp_u64(old(self).tx_bytes + total_len(frames@, sent as int)),
            final(self).rx_packets == old(self).rx_packets,
            final(self).rx_bytes == old(self).rx_bytes,
            final(self).dropped_packets == old(self).dropped_packets,
    {
        let n = sent as u64;
        self.tx_packets = if self.tx_packets > u64::MAX - n { u64::MAX } else { self.tx_packets + n };
        let mut i: usize = 0;
        while i < sent
            invariant
                i <= sent <= frames@.len(),
                self.tx_bytes == clamp_u64(old(self).tx_bytes + total_len(frames@, i as int)),
                self.tx_packets == clamp_u64(old(self).tx_packets + sent),
                self.rx_packets == old(self).rx_packets,
                self.rx_bytes == old(self).rx_bytes,
                self.dropped_packets == old(self).dropped_packets,
            decreases sent - i,
        {
            let len = frames[i].len() as u64;
            proof {
                assert(total_len(frames@, i + 1) == total_len(frames@, i as int) + frames@[i as int]@.len());
                lemma_total_len_nonneg(frames@, i as int);
            }
            self.tx_bytes = if self.tx_bytes > u64::MAX - len { u64::MAX } else { self.tx_bytes + len };
            i = i + 1;
        }
    }

    /// These totals with the packets that the device received beyond them,
    /// `device_rx - rx_packets`, counted as dropped.
    pub fn with_device_rx(&self, device_rx: u64) -> (r: CaptureStats)
        ensures
            r == (CaptureStats {
                dropped_packets: if device_rx > self.rx_packets {
                    (device_rx - self.rx_packets) as u64
                } else {
                    self.dropped_packets
                },
                ..*self
            }),
    {
        let mut r = *self;
        if device_rx > self.rx_packets {
            r.dropped_packets = device_rx - self.rx_packets;
        }
        r
    }
}

proof fn lemma_total_len_nonneg(frames: Seq<Vec<u8>>, n: int)
    ensures
        total_len(frames, n) >= 0,
    decreases n,
{
    if n > 0 {
        lemma_total_len_nonneg(frames, n - 1);
    }
}

/// The uniform face of the frame sources.
pub trait PacketCapture {
    /// Opens the device.
    fn initialize(&mut self) -> crate::error::Result<()>;

    /// Starts delivering frames; the device must have been opened.
    fn start_capture(&mut self) -> crate::error::Result<()>;

    /// Stops delivering frames.
    fn stop_capture(&mut self);

    /// Up to `max_packets` frames that arrived.
    fn receive_packets(&mut self, max_packets: usize) -> Vec<Vec<u8>>;

    /// Sends `packets`; returns how many went out.
    fn send_packets(&mut self, packets: &[Vec<u8>]) -> usize;

    /// The totals so far.
    fn get_stats(&self) -> CaptureStats;

    /// Releases the device; safe to call again.
    fn shutdown(&mut self);
}

/// The libpcap frame source. This build holds no libpcap binding, so the
/// device never opens.
pub struct PcapCapture {
    pub config: CaptureConfig,
    is_capturing: bool,
    capture_stats: CaptureStats,
}

impl PcapCapture {
    pub closed spec fn capturing(&self) -> bool {
        self.is_capturing
    }

    pub closed spec fn totals(&self) -> CaptureStats {
        self.capture_stats
    }

    pub fn new(config: CaptureConfig) -> (r: PcapCapture)
        ensures
            !r.capturing(),
            r.totals() == zero_stats(),
    {
        PcapCapture { config, is_capturing: false, capture_stats: CaptureStats::default() }
    }
}

impl PacketCapture for PcapCapture {
    fn initialize(&mut self) -> (r: crate::error::Result<()>)
        ensures
            r is Err,
            *final(self) == *old(self),
    {
        Err(Error::Capture(String::from_str("libpcap support is not built in")))
    }

    fn start_capture(&mut self) -> (r: crate::error::Result<()>)
        ensures
            r is Err,
            *final(self) == *old(self),
    {
        Err(Error::Capture(String::from_str("libpcap support is not built in")))
    }

    fn stop_capture(&mut self)
        ensures
            !final(self).capturing(),
            final(self).totals() == old(self).totals(),
    {
        self.is_capturing = false;
    }

    fn receive_packets(&mut self, max_packets: usize) -> (r: Vec<Vec<u8>>)
        ensures
            r@.len() == 0,
            *final(self) == *old(self),
    {
        Vec::new()
    }

    fn send_packets(&mut self, packets: &[Vec<u8>]) -> (r: usize)
        ensures
            r == 0,
            *final(self) == *old(self),
    {
        0
    }

    fn get_stats(&self) -> (r: CaptureStats)
        ensures
            r == self.totals(),
    {
        self.capture_stats
    }

    fn shutdown(&mut self)
        ensures
            !final(self).capturing(),
            final(self).totals() == old(self).totals(),
    {
        self.is_capturing = false;
    }
}

/// The AF_XDP frame source. This build holds no XDP binding, so the
/// program never loads.
pub struct XdpCapture {
    pub config: CaptureConfig,
    pub xdp_config: XdpCaptureConfig,
    is_capturing: bool,
    capture_stats: CaptureStats,
}

impl XdpCapture {
    pub closed spec fn capturing(&self) -> bool {
        self.is_capturing
    }

    pub closed spec fn totals(&self) -> CaptureStats {
        self.capture_stats
    }

    pub fn new(config: CaptureConfig, xdp_config: XdpCaptureConfig) -> (r: XdpCapture)
        ensures
            !r.capturing(),
            r.totals() == zero_stats(),
    {
        XdpCapture { config, xdp_config, is_capturing: false, capture_stats: CaptureStats::default() }
    }
}

impl PacketCapture for XdpCapture {
    fn initialize(&mut self) -> (r: crate::error::Result<()>)
        ensures
            r is Err,
            *final(self) == *old(self),
    {
        Err(Error::Xdp(String::from_str("XDP support is not built in")))
    }

    fn start_capture(&mut self) -> (r: crate::error::Result<()>)
        ensures
            r is Err,
            *final(self) == *old(self),
    {
        Err(Error::Xdp(String::from_str("XDP support is not built in")))
    }

    fn stop_capture(&mut self)
        ensures
            !final(self).capturing(),
            final(self).totals() == old(self).totals(),
    {
        self.is_capturing = false;
    }

    fn receive_packets(&mut self, max_packets: usize) -> (r: Vec<Vec<u8>>)
        ensures
            r@.len() == 0,
            *final(self) == *old(self),
    {
        Vec::new()
    }

    fn send_packets(&mut self, packets: &[Vec<u8>]) -> (r: usize)
        ensures
            r == 0,
            *final(self) == *old(self),
    {
        0
    }

    fn get_stats(&self) -> (r: CaptureStats)
        ensures
            r == self.totals(),
    {
        self.capture_stats
    }

    fn shutdown(&mut self)
        ensures
            !final(self).capturing(),
            final(self).totals() == old(self).totals(),
    {
        self.is_capturing = false;
    }
}

} // verus!
