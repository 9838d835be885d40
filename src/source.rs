use vstd::prelude::*;

use crate::capture::{
    CaptureConfig, CaptureMode, CaptureStats, DpdkCaptureConfig, PacketCapture, PcapCapture,
    XdpCapture, XdpCaptureConfig,
};
use crate::dpdk::DpdkCapture;

verus! {

/// One of the frame sources, chosen by the capture mode.
pub enum FrameSource {
    Pcap(PcapCapture),
    Dpdk(DpdkCapture),
    Xdp(XdpCapture),
}

/// The frame source that `config` selects, with the default settings of
/// its kind where `config` gives none.
pub fn create_capture(config: CaptureConfig) -> (r: FrameSource)
    ensures
        config.mode == CaptureMode::Pcap ==> r is Pcap,
        config.mode == CaptureMode::Dpdk ==> r is Dpdk,
        config.mode == CaptureMode::Xdp ==> r is Xdp,
        !r.capturing(),
{
    match config.mode {
        CaptureMode::Dpdk => {
            let dpdk_config = match &config.dpdk_config {
                Some(c) => c.clone(),
                None => DpdkCaptureConfig::default(),
            };
            FrameSource::Dpdk(DpdkCapture::new(config, dpdk_config))
        },
        CaptureMode::Pcap => FrameSource::Pcap(PcapCapture::new(config)),
        CaptureMode::Xdp => {
            let xdp_config = match &config.xdp_config {
                Some(c) => c.clone(),
                None => XdpCaptureConfig::default(),
            };
            FrameSource::Xdp(XdpCapture::new(config, xdp_config))
        },
    }
}

impl FrameSource {
    /// Whether the source is delivering frames.
    pub open spec fn capturing(&self) -> bool {
        match self {
            FrameSource::Pcap(c) => c.capturing(),
            FrameSource::Dpdk(c) => c.capturing(),
            FrameSource::Xdp(c) => c.capturing(),
        }
    }

    /// Whether the source holds its device.
    pub open spec fn holds_device(&self) -> bool {
        match self {
            FrameSource::Dpdk(c) => c.attached(),
            _ => false,
        }
    }

    /// The totals of the source.
    pub open spec fn totals(&self) -> CaptureStats {
        match self {
            FrameSource::Pcap(c) => c.totals(),
            FrameSource::Dpdk(c) => c.totals(),
            FrameSource::Xdp(c) => c.totals(),
        }
    }

    /// The kind of the source.
    pub open spec fn mode(&self) -> CaptureMode {
        match self {
            FrameSource::Pcap(_) => CaptureMode::Pcap,
            FrameSource::Dpdk(_) => CaptureMode::Dpdk,
            FrameSource::Xdp(_) => CaptureMode::Xdp,
        }
    }

    /// What a source is after `shutdown`: not capturing, no device, same totals.
    pub open spec fn is_shut_down_from(&self, before: FrameSource) -> bool {
        &&& !self.capturing()
        &&& !self.holds_device()
        &&& self.totals() == before.totals()
        &&& self.mode() == before.mode()
    }
}

impl PacketCapture for FrameSource {
    fn initialize(&mut self) -> (r: crate::error::Result<()>)
        ensures
            final(self).mode() == old(self).mode(),
            final(self).totals() == old(self).totals(),
            final(self).capturing() == old(self).capturing(),
    {
        match self {
            FrameSource::Pcap(c) => c.initialize(),
            FrameSource::Dpdk(c) => c.initialize(),
            FrameSource::Xdp(c) => c.initialize(),
        }
    }

    fn start_capture(&mut self) -> (r: crate::error::Result<()>)
        ensures
            final(self).mode() == old(self).mode(),
            final(self).totals() == old(self).totals(),
            r is Ok ==> final(self).capturing(),
    {
        match self {
            FrameSource::Pcap(c) => c.start_capture(),
            FrameSource::Dpdk(c) => c.start_capture(),
            FrameSource::Xdp(c) => c.start_capture(),
        }
    }

    fn stop_capture(&mut self)
        ensures
            !final(self).capturing(),
            final(self).mode() == old(self).mode(),
            final(self).totals() == old(self).totals(),
    {
        match self {
            FrameSource::Pcap(c) => c.stop_capture(),
            FrameSource::Dpdk(c) => c.stop_capture(),
            FrameSource::Xdp(c) => c.stop_capture(),
        }
    }

    fn receive_packets(&mut self, max_packets: usize) -> (r: Vec<Vec<u8>>)
        ensures
            r@.len() <= max_packets,
            final(self).mode() == old(self).mode(),
            final(self).capturing() == old(self).capturing(),
    {
        match self {
            FrameSource::Pcap(c) => c.receive_packets(max_packets),
            FrameSource::Dpdk(c) => c.receive_packets(max_packets),
            FrameSource::Xdp(c) => c.receive_packets(max_packets),
        }
    }

    fn send_packets(&mut self, packets: &[Vec<u8>]) -> (r: usize)
        ensures
            r <= packets@.len(),
            final(self).mode() == old(self).mode(),
            final(self).capturing() == old(self).capturing(),
    {
        match self {
            FrameSource::Pcap(c) => c.send_packets(packets),
            FrameSource::Dpdk(c) => c.send_packets(packets),
            FrameSource::Xdp(c) => c.send_packets(packets),
        }
    }

    fn get_stats(&self) -> (r: CaptureStats)
        ensures
            r.rx_packets == self.totals().rx_packets,
            r.rx_bytes == self.totals().rx_bytes,
            r.tx_packets == self.totals().tx_packets,
            r.tx_bytes == self.totals().tx_bytes,
    {
        match self {
            FrameSource::Pcap(c) => c.get_stats(),
            FrameSource::Dpdk(c) => c.get_stats(),
            FrameSource::Xdp(c) => c.get_stats(),
        }
    }

    fn shutdown(&mut self)
        ensures
            final(self).is_shut_down_from(*old(self)),
    {
        match self {
            FrameSource::Pcap(c) => c.shutdown(),
            FrameSource::Dpdk(c) => c.shutdown(),
            FrameSource::Xdp(c) => c.shutdown(),
        }
    }
}

/// Shutting a source down twice leaves it as one shutdown does: the second
/// call changes nothing that can be observed.
pub proof fn lemma_shutdown_twice(s0: FrameSource, s1: FrameSource, s2: FrameSource)
    requires
        s1.is_shut_down_from(s0),
        s2.is_shut_down_from(s1),
    ensures
        s2.capturing() == s1.capturing(),
        s2.holds_device() == s1.holds_device(),
        s2.totals() == s1.totals(),
        s2.mode() == s1.mode(),
        s2.is_shut_down_from(s0),
{
}

} // verus!
