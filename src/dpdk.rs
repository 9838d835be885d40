use vstd::prelude::*;

use crate::capture::{
    total_len, clamp_u64, zero_stats, CaptureConfig, CaptureStats, DpdkCaptureConfig, PacketCapture,
};
use crate::error::Error;
use crate::text::push_str;

verus! {

/// Settings of the DPDK environment.
pub struct DpdkConfig {
    pub eal_args: Vec<String>,
    pub port_ids: Vec<u16>,
    pub rx_queues: u16,
    pub tx_queues: u16,
    pub mempool_size: u32,
    pub mempool_cache_size: u32,
    pub mbuf_size: u16,
}

impl Default for DpdkConfig {
    fn default() -> (r: DpdkConfig)
        ensures
            r.port_ids@ == seq![0u16],
            r.eal_args@.len() == 1,
            r.rx_queues == 1,
            r.tx_queues == 1,
            r.mempool_size == 8192,
            r.mempool_cache_size == 256,
            r.mbuf_size == 2048,
    {
        let r = DpdkConfig {
            eal_args: vec![String::from_str("dns-spider")],
            port_ids: vec![0],
            rx_queues: 1,
            tx_queues: 1,
            mempool_size: 8192,
            mempool_cache_size: 256,
            mbuf_size: 2048,
        };
        assert(r.port_ids@ =~= seq![0u16]);
        r
    }
}

/// A DPDK environment. This build holds no DPDK binding, so it never
/// comes up: it receives and sends nothing.
pub struct DpdkInstance {
    pub config: DpdkConfig,
    initialized: bool,
}

impl DpdkInstance {
    pub closed spec fn is_up(&self) -> bool {
        self.initialized
    }

    pub fn new(config: DpdkConfig) -> (r: DpdkInstance)
        ensures
            !r.is_up(),
    {
        DpdkInstance { config, initialized: false }
    }

    /// Brings the environment up; a second call on a running one does nothing.
    pub fn initialize(&mut self) -> (r: crate::error::Result<()>)
        ensures
            old(self).is_up() ==> r is Ok,
            r is Ok <==> final(self).is_up(),
            *final(self) == *old(self),
    {
        if self.initialized {
            return Ok(());
        }
        Err(Error::Dpdk(String::from_str("DPDK support is not built in")))
    }

    /// Up to `max_packets` frames from queue `queue_id` of port `port_id`.
    pub fn receive_packets(&mut self, port_id: u16, queue_id: u16, max_packets: u16) -> (r: Vec<Vec<u8>>)
        ensures
            r@.len() <= max_packets,
            final(self).is_up() == old(self).is_up(),
    {
        Vec::new()
    }

    /// Sends `packets` on queue `queue_id` of port `port_id`; returns how many went out.
    pub fn send_packets(&mut self, port_id: u16, queue_id: u16, packets: &[Vec<u8>]) -> (r: usize)
        ensures
            r <= packets@.len(),
            !old(self).is_up() ==> r == 0,
            final(self).is_up() == old(self).is_up(),
    {
        0
    }

    /// The (received, sent) packet totals of port `port_id`.
    pub fn get_port_stats(&self, port_id: u16) -> (r: Option<(u64, u64)>)
        ensures
            !self.is_up() ==> r is None,
    {
        None
    }

    /// Stops the ports and releases the environment; safe to call again.
    pub fn shutdown(&mut self)
        ensures
            !final(self).is_up(),
    {
        self.initialized = false;
    }
}

/// The DPDK frame source.
pub struct DpdkCapture {
    pub config: CaptureConfig,
    pub dpdk_config: DpdkCaptureConfig,
    dpdk: Option<DpdkInstance>,
    is_capturing: bool,
    current_port: u16,
    current_queue: u16,
    capture_stats: CaptureStats,
}

impl DpdkCapture {
    pub closed spec fn capturing(&self) -> bool {
        self.is_capturing
    }

    /// Whether the environment is held.
    pub closed spec fn attached(&self) -> bool {
        self.dpdk is Some
    }

    pub closed spec fn totals(&self) -> CaptureStats {
        self.capture_stats
    }

    pub fn new(config: CaptureConfig, dpdk_config: DpdkCaptureConfig) -> (r: DpdkCapture)
        ensures
            !r.capturing(),
            !r.attached(),
            r.totals() == zero_stats(),
    {
        DpdkCapture {
            config,
            dpdk_config,
            dpdk: None,
            is_capturing: false,
            current_port: 0,
            current_queue: 0,
            capture_stats: CaptureStats::default(),
        }
    }

    /// The environment settings that the capture settings call for.
    fn create_dpdk_config(&self) -> (r: DpdkConfig)
        ensures
            r.port_ids@ == self.dpdk_config.port_ids@,
            r.rx_queues == self.dpdk_config.rx_queues,
            r.tx_queues == self.dpdk_config.tx_queues,
            r.mempool_size == self.dpdk_config.mempool_size,
            r.mempool_cache_size == self.dpdk_config.mempool_cache_size,
            r.mbuf_size == self.dpdk_config.mbuf_size,
    {
        let mut eal_args: Vec<String> = Vec::new();
        let mut i: usize = 0;
        while i < self.dpdk_config.eal_args.len()
            invariant
                i <= self.dpdk_config.eal_args@.len(),
                eal_args@.len() == i,
            decreases self.dpdk_config.eal_args@.len() - i,
        {
            eal_args.push(self.dpdk_config.eal_args[i].clone());
            i = i + 1;
        }
        let mut port_ids: Vec<u16> = Vec::new();
        let mut j: usize = 0;
        while j < self.dpdk_config.port_ids.len()
            invariant
                j <= self.dpdk_config.port_ids@.len(),
                port_ids@ == self.dpdk_config.port_ids@.subrange(0, j as int),
            decreases self.dpdk_config.port_ids@.len() - j,
        {
            port_ids.push(self.dpdk_config.port_ids[j]);
            j = j + 1;
            assert(port_ids@ =~= self.dpdk_config.port_ids@.subrange(0, j as int));
        }
        assert(self.dpdk_config.port_ids@.subrange(0, j as int) =~= self.dpdk_config.port_ids@);
        DpdkConfig {
            eal_args,
            port_ids,
            rx_queues: self.dpdk_config.rx_queues,
            tx_queues: self.dpdk_config.tx_queues,
            mempool_size: self.dpdk_config.mempool_size,
            mempool_cache_size: self.dpdk_config.mempool_cache_size,
            mbuf_size: self.dpdk_config.mbuf_size,
        }
    }
}

impl PacketCapture for DpdkCapture {
    fn initialize(&mut self) -> (r: crate::error::Result<()>)
        ensures
            final(self).attached() == (old(self).attached() || r is Ok),
            final(self).capturing() == old(self).capturing(),
            final(self).totals() == old(self).totals(),
    {
        let dpdk_config = self.create_dpdk_config();
        let mut dpdk = DpdkInstance::new(dpdk_config);
        match dpdk.initialize() {
            Ok(()) => {
                self.dpdk = Some(dpdk);
                Ok(())
            },
            Err(e) => {
                let mut msg = String::new();
                push_str(&mut msg, "DPDK initialization failed: ");
                let inner = e.message();
                push_str(&mut msg, inner.as_str());
                Err(Error::Other(msg))
            },
        }
    }

    fn start_capture(&mut self) -> (r: crate::error::Result<()>)
        ensures
            r is Ok <==> old(self).attached(),
            final(self).capturing() == (old(self).capturing() || old(self).attached()),
            final(self).attached() == old(self).attached(),
            final(self).totals() == old(self).totals(),
    {
        if self.dpdk.is_none() {
            return Err(Error::Other(String::from_str("DPDK instance not initialized")));
        }
        self.is_capturing = true;
        if self.dpdk_config.port_ids.len() > 0 {
            self.current_port = self.dpdk_config.port_ids[0];
        }
        Ok(())
    }

    fn stop_capture(&mut self)
        ensures
            !final(self).capturing(),
            final(self).attached() == old(self).attached(),
            final(self).totals() == old(self).totals(),
    {
        self.is_capturing = false;
    }

    fn receive_packets(&mut self, max_packets: usize) -> (r: Vec<Vec<u8>>)
        ensures
            r@.len() <= max_packets,
            !(old(self).capturing() && old(self).attached()) ==> r@.len() == 0 && final(self).totals()
                == old(self).totals(),
            final(self).totals().rx_packets == clamp_u64(old(self).totals().rx_packets + r@.len()),
            final(self).totals().rx_bytes == clamp_u64(
                old(self).totals().rx_bytes + total_len(r@, r@.len() as int),
            ),
            final(self).capturing() == old(self).capturing(),
            final(self).attached() == old(self).attached(),
    {
        if !self.is_capturing || self.dpdk.is_none() {
            let r: Vec<Vec<u8>> = Vec::new();
            assert(total_len(r@, 0) == 0);
            return r;
        }
        let max: u16 = if max_packets > 65535 {
            65535
        } else {
            max_packets as u16
        };
        let port = self.current_port;
        let queue = self.current_queue;
        let packets = match &mut self.dpdk {
            Some(d) => d.receive_packets(port, queue, max),
            None => Vec::new(),
        };
        self.capture_stats.record_received(&packets);
        packets
    }

    fn send_packets(&mut self, packets: &[Vec<u8>]) -> (r: usize)
        ensures
            r <= packets@.len(),
            !(old(self).capturing() && old(self).attached()) ==> r == 0 && final(self).totals()
                == old(self).totals(),
            final(self).totals().tx_packets == clamp_u64(old(self).totals().tx_packets + r),
            final(self).totals().tx_bytes == clamp_u64(
                old(self).totals().tx_bytes + total_len(packets@, r as int),
            ),
            final(self).capturing() == old(self).capturing(),
            final(self).attached() == old(self).attached(),
    {
        if !self.is_capturing || self.dpdk.is_none() {
            assert(total_len(packets@, 0) == 0);
            return 0;
        }
        let port = self.current_port;
        let queue = self.current_queue;
        let sent = match &mut self.dpdk {
            Some(d) => d.send_packets(port, queue, packets),
            None => 0,
        };
        self.capture_stats.record_sent(packets, sent);
        sent
    }

    fn get_stats(&self) -> (r: CaptureStats)
        ensures
            r.rx_packets == self.totals().rx_packets,
            r.tx_packets == self.totals().tx_packets,
            r.rx_bytes == self.totals().rx_bytes,
            r.tx_bytes == self.totals().tx_bytes,
    {
        match &self.dpdk {
            Some(d) => match d.get_port_stats(self.current_port) {
                Some((rx, _tx)) => self.capture_stats.with_device_rx(rx),
                None => self.capture_stats,
            },
            None => self.capture_stats,
        }
    }

    fn shutdown(&mut self)
        ensures
            !final(self).capturing(),
            !final(self).attached(),
            final(self).totals() == old(self).totals(),
    {
        match self.dpdk.take() {
            Some(d) => {
                let mut d = d;
                d.shutdown();
            },
            None => {},
        }
        self.is_capturing = false;
    }
}

} // verus!
