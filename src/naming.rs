use vstd::prelude::*;

use crate::dns::{DnsMessage, DnsMessageType, DnsProtocol, DnsRecordType, MessageView, QuestionView};
use crate::text::{decimal, push_decimal, push_str};

verus! {

/// The lowercase name of a record type, as metric names carry it.
pub open spec fn record_type_metric(t: DnsRecordType) -> Seq<char> {
    match t {
        DnsRecordType::A => "a"@,
        DnsRecordType::AAAA => "aaaa"@,
        DnsRecordType::CNAME => "cname"@,
        DnsRecordType::MX => "mx"@,
        DnsRecordType::NS => "ns"@,
        DnsRecordType::PTR => "ptr"@,
        DnsRecordType::SOA => "soa"@,
        DnsRecordType::SRV => "srv"@,
        DnsRecordType::TXT => "txt"@,
        DnsRecordType::Other(v) => "other("@ + decimal(v as nat) + ")"@,
    }
}

/// The lowercase name of a transport.
pub open spec fn protocol_metric(p: DnsProtocol) -> Seq<char> {
    match p {
        DnsProtocol::Udp => "udp"@,
        DnsProtocol::Tcp => "tcp"@,
        DnsProtocol::Dot => "dot"@,
        DnsProtocol::Doh => "doh"@,
        DnsProtocol::Doq => "doq"@,
    }
}

/// The counters one message adds to: the total, its kind, its transport,
/// and the record type of each question.
pub open spec fn metrics_of(m: MessageView) -> Seq<Seq<char>> {
    seq![
        "messages.total"@,
        if m.message_type == DnsMessageType::Query {
            "messages.query"@
        } else {
            "messages.response"@
        },
        "protocol."@ + protocol_metric(m.protocol),
    ] + m.questions.map_values(|q: QuestionView| "record_type."@ + record_type_metric(q.record_type))
}

fn record_type_metric_name(t: DnsRecordType) -> (r: String)
    ensures
        r@ == "record_type."@ + record_type_metric(t),
{
    let mut s = String::new();
    push_str(&mut s, "record_type.");
    match t {
        DnsRecordType::A => push_str(&mut s, "a"),
        DnsRecordType::AAAA => push_str(&mut s, "aaaa"),
        DnsRecordType::CNAME => push_str(&mut s, "cname"),
        DnsRecordType::MX => push_str(&mut s, "mx"),
        DnsRecordType::NS => push_str(&mut s, "ns"),
        DnsRecordType::PTR => push_str(&mut s, "ptr"),
        DnsRecordType::SOA => push_str(&mut s, "soa"),
        DnsRecordType::SRV => push_str(&mut s, "srv"),
        DnsRecordType::TXT => push_str(&mut s, "txt"),
        DnsRecordType::Other(v) => {
            push_str(&mut s, "other(");
            push_decimal(&mut s, v as u64);
            push_str(&mut s, ")");
        },
    }
    assert(s@ =~= "record_type."@ + record_type_metric(t));
    s
}

/// The names of the counters that `message` adds one to.
pub fn message_metrics(message: &DnsMessage) -> (r: Vec<String>)
    ensures
        r@.map_values(|s: String| s@) == metrics_of(message@),
{
    let mut r: Vec<String> = Vec::new();
    r.push(String::from_str("messages.total"));
    match message.message_type {
        DnsMessageType::Query => r.push(String::from_str("messages.query")),
        DnsMessageType::Response => r.push(String::from_str("messages.response")),
    }
    let mut p = String::new();
    push_str(&mut p, "protocol.");
    match message.protocol {
        DnsProtocol::Udp => push_str(&mut p, "udp"),
        DnsProtocol::Tcp => push_str(&mut p, "tcp"),
        DnsProtocol::Dot => push_str(&mut p, "dot"),
        DnsProtocol::Doh => push_str(&mut p, "doh"),
        DnsProtocol::Doq => push_str(&mut p, "doq"),
    }
    assert(p@ =~= "protocol."@ + protocol_metric(message.protocol));
    r.push(p);
    let ghost m = message@;
    let ghost head = r@.map_values(|s: String| s@);
    assert(head =~= metrics_of(m).subrange(0, 3));
    let mut i: usize = 0;
    while i < message.questions.len()
        invariant
            i <= message.questions@.len(),
            m == message@,
            r@.len() == 3 + i,
            r@.map_values(|s: String| s@) == metrics_of(m).subrange(0, 3 + i),
        decreases message.questions@.len() - i,
    {
        let name = record_type_metric_name(message.questions[i].record_type);
        r.push(name);
        assert(m.questions[i as int] == message.questions@[i as int]@);
        assert(r@.map_values(|s: String| s@) =~= metrics_of(m).subrange(0, 3 + i + 1));
        i = i + 1;
    }
    assert(metrics_of(m).subrange(0, 3 + i) =~= metrics_of(m));
    r
}

/// The name of the log file started at `unix_ts`: `{prefix}{unix_ts}{suffix}.log`.
pub fn log_file_name(prefix: &str, unix_ts: u64, suffix: &str) -> (r: String)
    ensures
        r@ == prefix@ + decimal(unix_ts as nat) + suffix@ + ".log"@,
{
    let mut s = String::new();
    push_str(&mut s, prefix);
    push_decimal(&mut s, unix_ts);
    push_str(&mut s, suffix);
    push_str(&mut s, ".log");
    assert(s@ =~= prefix@ + decimal(unix_ts as nat) + suffix@ + ".log"@);
    s
}

/// The key a message is published under: its transaction id in decimal.
pub fn record_key(message: &DnsMessage) -> (r: String)
    ensures
        r@ == decimal(message.transaction_id as nat),
{
    let mut s = String::new();
    push_decimal(&mut s, message.transaction_id as u64);
    assert(s@ =~= decimal(message.transaction_id as nat));
    s
}

/// Whether a file started `age_secs` seconds ago is due to be replaced,
/// under a rotation interval of `interval_secs` seconds.
pub fn rotation_due(age_secs: u64, interval_secs: u64) -> (r: bool)
    ensures
        r == (age_secs >= interval_secs),
{
    age_secs >= interval_secs
}

} // verus!
