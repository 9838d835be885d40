use dns_spider::capture::{
    CaptureConfig, CaptureMode, CaptureStats, DpdkCaptureConfig, PacketCapture, XdpCaptureConfig,
};
use dns_spider::driver::{Driver, DriverConfig};
use dns_spider::error::Error;
use dns_spider::mempool::{MemoryBlock, MemoryPool};
use dns_spider::output::{ConsoleConfig, FileConfig, KafkaConfig, OutputConfig, StatsdConfig};
use dns_spider::source::{create_capture, FrameSource};
use dns_spider::stats::StatsCounter;
use dns_spider::timer::HighResTimer;

fn output_config() -> OutputConfig {
    OutputConfig {
        enable_kafka: false,
        kafka_config: KafkaConfig {
            brokers: "localhost:9092".to_string(),
            topic: "dns-events".to_string(),
            client_id: "dns-spider".to_string(),
        },
        enable_file: false,
        file_config: FileConfig {
            output_dir: "./logs".to_string(),
            file_prefix: "dns-".to_string(),
            file_suffix: String::new(),
            rotation_interval: 3600,
        },
        enable_statsd: false,
        statsd_config: StatsdConfig { host: "localhost".to_string(), port: 8125, prefix: "dns".to_string() },
        enable_console: true,
        console_config: ConsoleConfig { verbose: true, color: false },
    }
}

fn driver() -> Driver {
    Driver::new(DriverConfig {
        capture: CaptureConfig::default(),
        output: output_config(),
        stats_interval: 10,
        worker_threads: 4,
    })
}

#[test]
fn stats_counters() {
    let mut s = StatsCounter::new();
    s.increment("a");
    s.increment("a");
    s.add("b", 5);
    assert_eq!(s.get("a"), 2);
    assert_eq!(s.get("b"), 5);
    assert_eq!(s.get("c"), 0);
    s.set("a", 10);
    assert_eq!(s.get("a"), 10);
    s.add("a", u64::MAX);
    assert_eq!(s.get("a"), u64::MAX);
    s.start_timer("t");
    s.stop_timer("t", 2_500_000);
    s.stop_timer("t", 600_000);
    assert_eq!(s.get_timer_ms("t"), 3);
    s.reset();
    assert_eq!(s.get("b"), 0);
    assert!(s.counter_entries().is_empty());
}

#[test]
fn stats_merge_adds() {
    let mut a = StatsCounter::new();
    a.add("x", 1);
    a.add("y", 2);
    let mut b = StatsCounter::new();
    b.add("y", 3);
    b.add("z", 4);
    b.stop_timer("t", 1_000_000);
    a.merge(&b);
    assert_eq!(a.get("x"), 1);
    assert_eq!(a.get("y"), 5);
    assert_eq!(a.get("z"), 4);
    assert_eq!(a.get_timer_ms("t"), 1);
    assert_eq!(a.counter_entries().len(), 3);
}

#[test]
fn driver_refuses_second_start() {
    let mut d = driver();
    assert!(d.start().is_ok());
    assert!(matches!(d.start(), Err(Error::DriverAlreadyRunning)));
    d.stop();
    d.stop();
    assert!(!d.is_running());
    assert!(d.start().is_ok());
}

#[test]
fn driver_processes_packets() {
    let mut d = driver();
    let q = vec![
        0x12, 0x34, 0x01, 0x00, 0x00, 0x01, 0x00, 0x00, 0x00, 0x00, 0x00, 0x00, 0x07, 0x65, 0x78,
        0x61, 0x6d, 0x70, 0x6c, 0x65, 0x03, 0x63, 0x6f, 0x6d, 0x00, 0x00, 0x01, 0x00, 0x01,
    ];
    assert!(d.process_packet(&q, 53, 53).is_some());
    assert!(d.process_packet(&q, 40000, 443).is_none());
    assert!(d.process_packet(&[1, 2], 53, 53).is_none());
    let s = d.get_stats();
    assert_eq!(s.get("packet.processed"), 1);
    assert_eq!(s.get("packet.need_more_data"), 1);
    assert_eq!(s.get("dns.udp.invalid_size"), 1);
    assert!(d.stats_due(10));
    assert!(!d.stats_due(9));
    let taken = d.take_stats();
    assert_eq!(taken.get("packet.processed"), 1);
    assert_eq!(d.get_stats().get("packet.processed"), 0);
}

#[test]
fn shutdown_twice_is_safe() {
    for mode in [CaptureMode::Pcap, CaptureMode::Dpdk, CaptureMode::Xdp] {
        let mut config = CaptureConfig::default();
        config.mode = mode;
        let mut source = create_capture(config);
        assert!(source.initialize().is_err());
        assert!(source.start_capture().is_err());
        source.shutdown();
        let first = source.get_stats();
        source.shutdown();
        assert_eq!(source.get_stats(), first);
        assert!(source.receive_packets(10).is_empty());
        assert_eq!(source.send_packets(&[vec![1, 2, 3]]), 0);
    }
}

#[test]
fn create_capture_picks_backend() {
    let mut config = CaptureConfig::default();
    assert!(matches!(create_capture(config.clone()), FrameSource::Pcap(_)));
    config.mode = CaptureMode::Dpdk;
    config.dpdk_config = Some(DpdkCaptureConfig::default());
    assert!(matches!(create_capture(config.clone()), FrameSource::Dpdk(_)));
    config.mode = CaptureMode::Xdp;
    config.xdp_config = Some(XdpCaptureConfig::default());
    assert!(matches!(create_capture(config), FrameSource::Xdp(_)));
}

#[test]
fn capture_mode_names() {
    assert_eq!(CaptureMode::from("DPDK"), CaptureMode::Dpdk);
    assert_eq!(CaptureMode::from("xdp"), CaptureMode::Xdp);
    assert_eq!(CaptureMode::from("anything"), CaptureMode::Pcap);
    assert_eq!(CaptureMode::Dpdk.name(), "dpdk");
    assert_eq!(CaptureMode::Pcap.name(), "pcap");
}

#[test]
fn capture_stats_record() {
    let mut s = CaptureStats::default();
    s.record_received(&vec![vec![0; 10], vec![0; 5]]);
    assert_eq!(s.rx_packets, 2);
    assert_eq!(s.rx_bytes, 15);
    s.record_sent(&[vec![0; 7], vec![0; 3]], 1);
    assert_eq!(s.tx_packets, 1);
    assert_eq!(s.tx_bytes, 7);
    assert_eq!(s.with_device_rx(5).dropped_packets, 3);
    assert_eq!(s.with_device_rx(1).dropped_packets, 0);
}

#[test]
fn error_messages() {
    assert_eq!(Error::Capture("x".to_string()).message(), "capture error: x");
    assert_eq!(Error::DriverAlreadyRunning.message(), "error: driver already running");
    assert!(matches!(Error::from("boom".to_string()), Error::Other(ref m) if m == "boom"));
}

#[test]
fn memory_block_write_read() {
    let mut b = MemoryBlock::new(8);
    assert_eq!(b.available(), 8);
    assert_eq!(b.write(&[1, 2, 3]), Some(0));
    assert_eq!(b.write(&[4, 5]), Some(3));
    assert_eq!(b.write(&[0; 4]), None);
    assert_eq!(b.read(1, 3), Some(&[2u8, 3, 4][..]));
    assert_eq!(b.read(4, 2), None);
    b.reset();
    assert_eq!(b.available(), 8);
}

#[test]
fn memory_pool_allocate_free() {
    let mut pool = MemoryPool::new(1, 16);
    let a = pool.allocate().unwrap();
    assert_eq!(a.data.len(), 16);
    let b = pool.allocate().unwrap();
    let c = pool.allocate();
    assert!(c.is_none());
    let s = pool.stats();
    assert_eq!(s.allocated_blocks, 2);
    assert_eq!(s.free_blocks, 0);
    pool.free(a);
    let s = pool.stats();
    assert_eq!(s.allocated_blocks, 1);
    assert_eq!(s.free_blocks, 1);
    assert_eq!(s.total_blocks, 2);
    pool.free(b);
    assert_eq!(pool.stats().free_blocks, 2);
}

#[test]
fn timer_intervals() {
    let mut t = HighResTimer::new();
    t.mark("one");
    t.mark("two");
    let iv = t.intervals();
    assert_eq!(iv.len(), 2);
    assert_eq!(iv[0].0, "one");
    assert_eq!(iv[1].0, "two");
    assert!(t.elapsed_nanos() >= iv[0].1);
    t.reset();
    assert!(t.intervals().is_empty());
}
