use vstd::prelude::*;

use crate::dns::DnsMessage;

verus! {

/// Settings of the Kafka sink.
#[derive(Debug, Clone)]
pub struct KafkaConfig {
    pub brokers: String,
    pub topic: String,
    pub client_id: String,
}

/// Settings of the rotating file sink.
#[derive(Debug, Clone)]
pub struct FileConfig {
    pub output_dir: String,
    pub file_prefix: String,
    pub file_suffix: String,
    /// Seconds between rotations.
    pub rotation_interval: u64,
}

/// Settings of the StatsD sink.
#[derive(Debug, Clone)]
pub struct StatsdConfig {
    pub host: String,
    pub port: u16,
    pub prefix: String,
}

/// Settings of the console sink.
#[derive(Debug, Clone)]
pub struct ConsoleConfig {
    pub verbose: bool,
    pub color: bool,
}

/// Which sinks are on, with their settings.
#[derive(Debug, Clone)]
pub struct OutputConfig {
    pub enable_kafka: bool,
    pub kafka_config: KafkaConfig,
    pub enable_file: bool,
    pub file_config: FileConfig,
    pub enable_statsd: bool,
    pub statsd_config: StatsdConfig,
    pub enable_console: bool,
    pub console_config: ConsoleConfig,
}

/// A sink of decoded messages.
pub trait Output {
    /// Hands `message` to the sink.
    fn output(&mut self, message: &DnsMessage) -> core::result::Result<(), String>;

    /// Flushes and closes the sink.
    fn close(&mut self) -> core::result::Result<(), String>;
}

} // verus!
