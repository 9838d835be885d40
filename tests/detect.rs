use dns_spider::detect::{ProtocolDetectResult, ProtocolDetector};
use dns_spider::dns::DnsProtocol;

#[test]
fn test_detector_creation() {
    let detector = ProtocolDetector::new();
    assert!(detector.dns_ports.contains(&53));
    assert!(detector.dot_ports.contains(&853));
    assert!(detector.doh_ports.contains(&443));
    assert!(detector.doq_ports.contains(&853));
}

#[test]
fn test_custom_ports() {
    let detector = ProtocolDetector::new()
        .with_dns_ports(vec![5353])
        .with_dot_ports(vec![8853])
        .with_doh_ports(vec![8443])
        .with_doq_ports(vec![8853, 9853]);

    assert!(detector.dns_ports.contains(&5353));
    assert!(detector.dot_ports.contains(&8853));
    assert!(detector.doh_ports.contains(&8443));
    assert!(detector.doq_ports.contains(&9853));
}

#[test]
fn test_is_dns_related_port() {
    let detector = ProtocolDetector::new();
    assert!(detector.is_dns_related_port(53));
    assert!(detector.is_dns_related_port(853));
    assert!(detector.is_dns_related_port(443));
    assert!(!detector.is_dns_related_port(80));
}

#[test]
fn detect_classifies_by_port() {
    let detector = ProtocolDetector::new();
    assert_eq!(detector.detect(&[], 53, 40000), ProtocolDetectResult::Dns(DnsProtocol::Udp));
    assert_eq!(detector.detect(&[], 40000, 53), ProtocolDetectResult::Dns(DnsProtocol::Udp));
    assert_eq!(detector.detect(&[], 40000, 853), ProtocolDetectResult::NeedMoreData);
    assert_eq!(detector.detect(&[], 443, 40000), ProtocolDetectResult::NeedMoreData);
    assert_eq!(detector.detect(&[], 40000, 8853), ProtocolDetectResult::NeedMoreData);
    assert_eq!(detector.detect(&[], 40000, 5000), ProtocolDetectResult::Dns(DnsProtocol::Udp));
}

#[test]
fn detect_dns_port_wins_over_dot_port() {
    let detector = ProtocolDetector::new();
    assert_eq!(detector.detect(&[], 53, 853), ProtocolDetectResult::Dns(DnsProtocol::Udp));
}
