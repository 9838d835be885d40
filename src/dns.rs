use vstd::prelude::*;

use crate::stats::StatsCounter;

verus! {

/// Whether a message asks or answers.
#[derive(Debug, Clone, Copy, PartialEq, Eq, Structural)]
pub enum DnsMessageType {
    Query,
    Response,
}

/// The type of a resource record; codes without a variant of their own
/// are kept as `Other`.
#[derive(Debug, Clone, Copy, PartialEq, Eq, Structural)]
pub enum DnsRecordType {
    A,
    AAAA,
    CNAME,
    MX,
    NS,
    PTR,
    SOA,
    SRV,
    TXT,
    Other(u16),
}

/// The record type that the wire code `v` stands for.
pub open spec fn record_type_of(v: u16) -> DnsRecordType {
    if v == 1 {
        DnsRecordType::A
    } else if v == 28 {
        DnsRecordType::AAAA
    } else if v == 5 {
        DnsRecordType::CNAME
    } else if v == 15 {
        DnsRecordType::MX
    } else if v == 2 {
        DnsRecordType::NS
    } else if v == 12 {
        DnsRecordType::PTR
    } else if v == 6 {
        DnsRecordType::SOA
    } else if v == 33 {
        DnsRecordType::SRV
    } else if v == 16 {
        DnsRecordType::TXT
    } else {
        DnsRecordType::Other(v)
    }
}

impl From<u16> for DnsRecordType {
    fn from(value: u16) -> (r: DnsRecordType)
        ensures
            r == record_type_of(value),
    {
        match value {
            1 => DnsRecordType::A,
            28 => DnsRecordType::AAAA,
            5 => DnsRecordType::CNAME,
            15 => DnsRecordType::MX,
            2 => DnsRecordType::NS,
            12 => DnsRecordType::PTR,
            6 => DnsRecordType::SOA,
            33 => DnsRecordType::SRV,
            16 => DnsRecordType::TXT,
            other => DnsRecordType::Other(other),
        }
    }
}

impl vstd::std_specs::convert::FromSpecImpl<u16> for DnsRecordType {
    open spec fn obeys_from_spec() -> bool {
        true
    }

    open spec fn from_spec(v: u16) -> DnsRecordType {
        record_type_of(v)
    }
}

/// The transport a message was carried over.
#[derive(Debug, Clone, Copy, PartialEq, Eq, Structural)]
pub enum DnsProtocol {
    Udp,
    Tcp,
    Dot,
    Doh,
    Doq,
}

/// One entry of the question section.
#[derive(Debug)]
pub struct DnsQuestion {
    pub name: String,
    pub record_type: DnsRecordType,
    pub class: u16,
}

/// One entry of the answer section.
#[derive(Debug)]
pub struct DnsAnswer {
    pub name: String,
    pub record_type: DnsRecordType,
    pub class: u16,
    pub ttl: u32,
    pub data: Vec<u8>,
    pub data_str: String,
}

/// A decoded DNS message.
#[derive(Debug)]
pub struct DnsMessage {
    pub transaction_id: u16,
    pub message_type: DnsMessageType,
    pub questions: Vec<DnsQuestion>,
    pub answers: Vec<DnsAnswer>,
    pub timestamp: u64,
    pub protocol: DnsProtocol,
}

/// The value a [`DnsQuestion`] stands for.
pub struct QuestionView {
    pub name: Seq<char>,
    pub record_type: DnsRecordType,
    pub class: u16,
}

/// The value a [`DnsAnswer`] stands for.
pub struct AnswerView {
    pub name: Seq<char>,
    pub record_type: DnsRecordType,
    pub class: u16,
    pub ttl: u32,
    pub data: Seq<u8>,
    pub data_str: Seq<char>,
}

/// The value a [`DnsMessage`] stands for.
pub struct MessageView {
    pub transaction_id: u16,
    pub message_type: DnsMessageType,
    pub questions: Seq<QuestionView>,
    pub answers: Seq<AnswerView>,
    pub timestamp: u64,
    pub protocol: DnsProtocol,
}

impl View for DnsQuestion {
    type V = QuestionView;

    open spec fn view(&self) -> QuestionView {
        QuestionView { name: self.name@, record_type: self.record_type, class: self.class }
    }
}

impl View for DnsAnswer {
    type V = AnswerView;

    open spec fn view(&self) -> AnswerView {
        AnswerView {
            name: self.name@,
            record_type: self.record_type,
            class: self.class,
            ttl: self.ttl,
            data: self.data@,
            data_str: self.data_str@,
        }
    }
}

impl View for DnsMessage {
    type V = MessageView;

    open spec fn view(&self) -> MessageView {
        MessageView {
            transaction_id: self.transaction_id,
            message_type: self.message_type,
            questions: self.questions@.map_values(|q: DnsQuestion| q@),
            answers: self.answers@.map_values(|a: DnsAnswer| a@),
            timestamp: self.timestamp,
            protocol: self.protocol,
        }
    }
}

/// A decoder of DNS messages carried over one transport.
pub trait DnsParser {
    /// Decodes one message from `data`, counting what happens in `stats`.
    fn parse(&mut self, data: &[u8], stats: &mut StatsCounter) -> (r: Option<DnsMessage>)
        requires
            old(stats).wf(),
        ensures
            final(stats).wf(),
    ;

    /// The transport this decoder serves.
    fn protocol_type(&self) -> DnsProtocol;
}

/// `m` with its transport tag replaced by `p`.
pub open spec fn retagged(m: MessageView, p: DnsProtocol) -> MessageView {
    MessageView { protocol: p, ..m }
}

} // verus!
