use dns_spider::dns::{DnsAnswer, DnsMessage, DnsMessageType, DnsProtocol, DnsQuestion, DnsRecordType};
use dns_spider::json::{format_console_message, format_message_json, record_type_name};

fn message() -> DnsMessage {
    DnsMessage {
        transaction_id: 0x1a2b,
        message_type: DnsMessageType::Response,
        questions: vec![DnsQuestion { name: "example.com".to_string(), record_type: DnsRecordType::A, class: 1 }],
        answers: vec![
            DnsAnswer {
                name: "example.com".to_string(),
                record_type: DnsRecordType::A,
                class: 1,
                ttl: 300,
                data: vec![1, 2, 3, 4],
                data_str: "1.2.3.4".to_string(),
            },
            DnsAnswer {
                name: "example.com".to_string(),
                record_type: DnsRecordType::Other(99),
                class: 1,
                ttl: 5,
                data: vec![],
                data_str: "<0 bytes of data>".to_string(),
            },
        ],
        timestamp: 42,
        protocol: DnsProtocol::Tcp,
    }
}

#[test]
fn json_record() {
    let expected = "{\n  \"timestamp\": 42,\n  \"transaction_id\": 6699,\n  \"message_type\": \"Response\",\n  \"protocol\": \"Tcp\",\n  \"questions\": [\n    {\n      \"name\": \"example.com\",\n      \"record_type\": \"A\",\n      \"class\": 1\n    }\n  ],\n  \"answers\": [\n    {\n      \"name\": \"example.com\",\n      \"record_type\": \"A\",\n      \"class\": 1,\n      \"ttl\": 300,\n      \"data\": \"1.2.3.4\"\n    },\n    {\n      \"name\": \"example.com\",\n      \"record_type\": \"Other(99)\",\n      \"class\": 1,\n      \"ttl\": 5,\n      \"data\": \"<0 bytes of data>\"\n    }\n  ]\n}\n";
    assert_eq!(format_message_json(&message()), expected);
}

#[test]
fn json_record_without_records() {
    let mut m = message();
    m.questions.clear();
    m.answers.clear();
    m.message_type = DnsMessageType::Query;
    let expected = "{\n  \"timestamp\": 42,\n  \"transaction_id\": 6699,\n  \"message_type\": \"Query\",\n  \"protocol\": \"Tcp\",\n  \"questions\": [\n  ],\n  \"answers\": [\n  ]\n}\n";
    assert_eq!(format_message_json(&m), expected);
}

#[test]
fn console_block() {
    let expected = "[DNS 响应] ID: 1A2B | 协议: Tcp\n问题:\n  1. example.com (类型: A, 类: 1)\n应答:\n  1. example.com (类型: A, TTL: 300s)\n     IP: 1.2.3.4\n  2. example.com (类型: Other(99), TTL: 5s)\n     数据: <0 bytes of data>\n";
    assert_eq!(format_console_message(&message(), true), expected);
    let brief = "[DNS 响应] ID: 1A2B | 协议: Tcp\n问题:\n  1. example.com (类型: A, 类: 1)\n";
    assert_eq!(format_console_message(&message(), false), brief);
}

#[test]
fn record_type_names() {
    assert_eq!(record_type_name(DnsRecordType::AAAA), "AAAA");
    assert_eq!(record_type_name(DnsRecordType::Other(7)), "Other(7)");
}

#[test]
fn metric_names() {
    let names = dns_spider::naming::message_metrics(&message());
    assert_eq!(names, vec!["messages.total", "messages.response", "protocol.tcp", "record_type.a"]);
    let mut m = message();
    m.message_type = DnsMessageType::Query;
    m.protocol = DnsProtocol::Doq;
    m.questions.push(DnsQuestion { name: "x".to_string(), record_type: DnsRecordType::Other(65), class: 1 });
    let names = dns_spider::naming::message_metrics(&m);
    assert_eq!(names, vec!["messages.total", "messages.query", "protocol.doq", "record_type.a", "record_type.other(65)"]);
}

#[test]
fn file_names_and_keys() {
    assert_eq!(dns_spider::naming::log_file_name("dns-", 1700000000, ""), "dns-1700000000.log");
    assert_eq!(dns_spider::naming::log_file_name("p", 0, "-x"), "p0-x.log");
    assert_eq!(dns_spider::naming::record_key(&message()), "6699");
    assert!(dns_spider::naming::rotation_due(3600, 3600));
    assert!(!dns_spider::naming::rotation_due(3599, 3600));
}
