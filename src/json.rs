use vstd::prelude::*;

use crate::dns::{
    AnswerView, DnsAnswer, DnsMessage, DnsMessageType, DnsProtocol, DnsQuestion, DnsRecordType,
    MessageView, QuestionView,
};
use crate::text::{decimal, push_decimal, push_str};

verus! {

/// The name of a record type: its mnemonic, or `Other(code)`.
pub open spec fn record_type_text(t: DnsRecordType) -> Seq<char> {
    match t {
        DnsRecordType::A => "A"@,
        DnsRecordType::AAAA => "AAAA"@,
        DnsRecordType::CNAME => "CNAME"@,
        DnsRecordType::MX => "MX"@,
        DnsRecordType::NS => "NS"@,
        DnsRecordType::PTR => "PTR"@,
        DnsRecordType::SOA => "SOA"@,
        DnsRecordType::SRV => "SRV"@,
        DnsRecordType::TXT => "TXT"@,
        DnsRecordType::Other(v) => "Other("@ + decimal(v as nat) + ")"@,
    }
}

pub open spec fn message_type_text(t: DnsMessageType) -> Seq<char> {
    match t {
        DnsMessageType::Query => "Query"@,
        DnsMessageType::Response => "Response"@,
    }
}

pub open spec fn protocol_text(p: DnsProtocol) -> Seq<char> {
    match p {
        DnsProtocol::Udp => "Udp"@,
        DnsProtocol::Tcp => "Tcp"@,
        DnsProtocol::Dot => "Dot"@,
        DnsProtocol::Doh => "Doh"@,
        DnsProtocol::Doq => "Doq"@,
    }
}

/// The JSON object of a question.
pub open spec fn question_json(q: QuestionView) -> Seq<char> {
    "    {\n      \"name\": \""@ + q.name + "\",\n      \"record_type\": \""@ + record_type_text(
        q.record_type,
    ) + "\",\n      \"class\": "@ + decimal(q.class as nat) + "\n    }"@
}

/// The JSON object of an answer.
pub open spec fn answer_json(a: AnswerView) -> Seq<char> {
    "    {\n      \"name\": \""@ + a.name + "\",\n      \"record_type\": \""@ + record_type_text(
        a.record_type,
    ) + "\",\n      \"class\": "@ + decimal(a.class as nat) + ",\n      \"ttl\": "@ + decimal(
        a.ttl as nat,
    ) + ",\n      \"data\": \""@ + a.data_str + "\"\n    }"@
}

/// The first `n` objects of `items`, separated by a comma and a newline.
pub open spec fn joined(items: Seq<Seq<char>>, n: nat) -> Seq<char>
    decreases n,
{
    if n == 0 {
        seq![]
    } else if n == 1 {
        items[0]
    } else {
        joined(items, (n - 1) as nat) + ",\n"@ + items[n - 1]
    }
}

/// The body of a JSON array of `items`, one per line.
pub open spec fn array_body(items: Seq<Seq<char>>) -> Seq<char> {
    if items.len() == 0 {
        seq![]
    } else {
        joined(items, items.len()) + "\n"@
    }
}

/// A message as a JSON object: timestamp, transaction id, message type,
/// transport, questions and answers.
pub open spec fn message_json_text(m: MessageView) -> Seq<char> {
    "{\n  \"timestamp\": "@ + decimal(m.timestamp as nat) + ",\n  \"transaction_id\": "@ + decimal(
        m.transaction_id as nat,
    ) + ",\n  \"message_type\": \""@ + message_type_text(m.message_type) + "\",\n  \"protocol\": \""@
        + protocol_text(m.protocol) + "\",\n  \"questions\": [\n"@ + array_body(
        m.questions.map_values(|q: QuestionView| question_json(q)),
    ) + "  ],\n  \"answers\": [\n"@ + array_body(
        m.answers.map_values(|a: AnswerView| answer_json(a)),
    ) + "  ]\n}\n"@
}

/// Appends the name of record type `t`.
pub fn push_record_type(s: &mut String, t: DnsRecordType)
    ensures
        final(s)@ == old(s)@ + record_type_text(t),
{
    match t {
        DnsRecordType::A => push_str(s, "A"),
        DnsRecordType::AAAA => push_str(s, "AAAA"),
        DnsRecordType::CNAME => push_str(s, "CNAME"),
        DnsRecordType::MX => push_str(s, "MX"),
        DnsRecordType::NS => push_str(s, "NS"),
        DnsRecordType::PTR => push_str(s, "PTR"),
        DnsRecordType::SOA => push_str(s, "SOA"),
        DnsRecordType::SRV => push_str(s, "SRV"),
        DnsRecordType::TXT => push_str(s, "TXT"),
        DnsRecordType::Other(v) => {
            push_str(s, "Other(");
            push_decimal(s, v as u64);
            push_str(s, ")");
            assert(final(s)@ =~= old(s)@ + record_type_text(t));
        },
    }
}

/// The name of record type `t`.
pub fn record_type_name(t: DnsRecordType) -> (r: String)
    ensures
        r@ == record_type_text(t),
{
    let mut s = String::new();
    push_record_type(&mut s, t);
    assert(s@ =~= record_type_text(t));
    s
}

fn push_question(s: &mut String, q: &DnsQuestion)
    ensures
        final(s)@ == old(s)@ + question_json(q@),
{
    push_str(s, "    {\n      \"name\": \"");
    push_str(s, q.name.as_str());
    push_str(s, "\",\n      \"record_type\": \"");
    push_record_type(s, q.record_type);
    push_str(s, "\",\n      \"class\": ");
    push_decimal(s, q.class as u64);
    push_str(s, "\n    }");
    assert(final(s)@ =~= old(s)@ + question_json(q@));
}

fn push_answer(s: &mut String, a: &DnsAnswer)
    ensures
        final(s)@ == old(s)@ + answer_json(a@),
{
    push_str(s, "    {\n      \"name\": \"");
    push_str(s, a.name.as_str());
    push_str(s, "\",\n      \"record_type\": \"");
    push_record_type(s, a.record_type);
    push_str(s, "\",\n      \"class\": ");
    push_decimal(s, a.class as u64);
    push_str(s, ",\n      \"ttl\": ");
    push_decimal(s, a.ttl as u64);
    push_str(s, ",\n      \"data\": \"");
    push_str(s, a.data_str.as_str());
    push_str(s, "\"\n    }");
    assert(final(s)@ =~= old(s)@ + answer_json(a@));
}

fn push_questions(s: &mut String, qs: &Vec<DnsQuestion>)
    ensures
        final(s)@ == old(s)@ + array_body(
            qs@.map_values(|q: DnsQuestion| q@).map_values(|q: QuestionView| question_json(q)),
        ),
{
    let ghost items = qs@.map_values(|q: DnsQuestion| q@).map_values(
        |q: QuestionView| question_json(q),
    );
    let mut i: usize = 0;
    while i < qs.len()
        invariant
            i <= qs@.len(),
            items.len() == qs@.len(),
            items == qs@.map_values(|q: DnsQuestion| q@).map_values(|q: QuestionView| question_json(q)),
            s@ == old(s)@ + joined(items, i as nat),
        decreases qs@.len() - i,
    {
        if i > 0 {
            push_str(s, ",\n");
        }
        push_question(s, &qs[i]);
        assert(items[i as int] == question_json(qs@[i as int]@));
        assert(s@ =~= old(s)@ + joined(items, (i + 1) as nat));
        i = i + 1;
    }
    if qs.len() > 0 {
        push_str(s, "\n");
    }
    assert(s@ =~= old(s)@ + array_body(items));
}

fn push_answers(s: &mut String, answers: &Vec<DnsAnswer>)
    ensures
        final(s)@ == old(s)@ + array_body(
            answers@.map_values(|a: DnsAnswer| a@).map_values(|a: AnswerView| answer_json(a)),
        ),
{
    let ghost items = answers@.map_values(|a: DnsAnswer| a@).map_values(|a: AnswerView| answer_json(a));
    let mut i: usize = 0;
    while i < answers.len()
        invariant
            i <= answers@.len(),
            items.len() == answers@.len(),
            items == answers@.map_values(|a: DnsAnswer| a@).map_values(|a: AnswerView| answer_json(a)),
            s@ == old(s)@ + joined(items, i as nat),
        decreases answers@.len() - i,
    {
        if i > 0 {
            push_str(s, ",\n");
        }
        push_answer(s, &answers[i]);
        assert(items[i as int] == answer_json(answers@[i as int]@));
        assert(s@ =~= old(s)@ + joined(items, (i + 1) as nat));
        i = i + 1;
    }
    if answers.len() > 0 {
        push_str(s, "\n");
    }
    assert(s@ =~= old(s)@ + array_body(items));
}

/// The message as a JSON object, one field per line: the record that the
/// file and Kafka sinks write.
pub fn format_message_json(message: &DnsMessage) -> (r: String)
    ensures
        r@ == message_json_text(message@),
{
    let mut s = String::new();
    push_str(&mut s, "{\n  \"timestamp\": ");
    push_decimal(&mut s, message.timestamp);
    push_str(&mut s, ",\n  \"transaction_id\": ");
    push_decimal(&mut s, message.transaction_id as u64);
    push_str(&mut s, ",\n  \"message_type\": \"");
    match message.message_type {
        DnsMessageType::Query => push_str(&mut s, "Query"),
        DnsMessageType::Response => push_str(&mut s, "Response"),
    }
    push_str(&mut s, "\",\n  \"protocol\": \"");
    match message.protocol {
        DnsProtocol::Udp => push_str(&mut s, "Udp"),
        DnsProtocol::Tcp => push_str(&mut s, "Tcp"),
        DnsProtocol::Dot => push_str(&mut s, "Dot"),
        DnsProtocol::Doh => push_str(&mut s, "Doh"),
        DnsProtocol::Doq => push_str(&mut s, "Doq"),
    }
    push_str(&mut s, "\",\n  \"questions\": [\n");
    push_questions(&mut s, &message.questions);
    push_str(&mut s, "  ],\n  \"answers\": [\n");
    push_answers(&mut s, &message.answers);
    push_str(&mut s, "  ]\n}\n");
    assert(s@ =~= message_json_text(message@));
    s
}

/// The uppercase hexadecimal digit of `d`.
pub open spec fn upper_digit(d: nat) -> char {
    if d < 10 {
        ((48 + d) as u8) as char
    } else {
        ((55 + d) as u8) as char
    }
}

/// `v` as four uppercase hexadecimal digits.
pub open spec fn hex4_upper(v: u16) -> Seq<char> {
    seq![
        upper_digit((v / 4096) as nat),
        upper_digit(((v / 256) % 16) as nat),
        upper_digit(((v / 16) % 16) as nat),
        upper_digit((v % 16) as nat),
    ]
}

/// The line that shows the data of an answer of type `t`.
pub open spec fn data_line(t: DnsRecordType, data: Seq<char>) -> Seq<char> {
    match t {
        DnsRecordType::A | DnsRecordType::AAAA => "     IP: "@ + data + "\n"@,
        DnsRecordType::CNAME | DnsRecordType::NS | DnsRecordType::PTR => "     域名: "@ + data + "\n"@,
        DnsRecordType::MX => "     邮件服务器: "@ + data + "\n"@,
        DnsRecordType::TXT => "     文本: "@ + data + "\n"@,
        _ => "     数据: "@ + data + "\n"@,
    }
}

/// The console lines of the questions of `qs` from the first `n`.
pub open spec fn question_lines(qs: Seq<QuestionView>, n: nat) -> Seq<char>
    decreases n,
{
    if n == 0 {
        seq![]
    } else {
        question_lines(qs, (n - 1) as nat) + question_line(n, qs[n - 1])
    }
}

/// The console line of question `q`, number `n`.
pub open spec fn question_line(n: nat, q: QuestionView) -> Seq<char> {
    "  "@ + decimal(n) + ". "@ + q.name + " (类型: "@ + record_type_text(q.record_type) + ", 类: "@
        + decimal(q.class as nat) + ")\n"@
}

/// The console lines of answer `a`, number `n`.
pub open spec fn answer_line(n: nat, a: AnswerView) -> Seq<char> {
    "  "@ + decimal(n) + ". "@ + a.name + " (类型: "@ + record_type_text(a.record_type) + ", TTL: "@
        + decimal(a.ttl as nat) + "s)\n"@ + data_line(a.record_type, a.data_str)
}

/// The console lines of the first `n` answers of `ans`.
pub open spec fn answer_lines(ans: Seq<AnswerView>, n: nat) -> Seq<char>
    decreases n,
{
    if n == 0 {
        seq![]
    } else {
        answer_lines(ans, (n - 1) as nat) + answer_line(n, ans[n - 1])
    }
}

/// A message as the console shows it: a header line, the questions, and,
/// when `verbose`, the answers.
pub open spec fn console_text(m: MessageView, verbose: bool) -> Seq<char> {
    "[DNS "@ + (if m.message_type == DnsMessageType::Query {
        "查询"@
    } else {
        "响应"@
    }) + "] ID: "@ + hex4_upper(m.transaction_id) + " | 协议: "@ + protocol_text(m.protocol)
        + "\n"@ + (if m.questions.len() > 0 {
        "问题:\n"@ + question_lines(m.questions, m.questions.len())
    } else {
        seq![]
    }) + (if verbose && m.answers.len() > 0 {
        "应答:\n"@ + answer_lines(m.answers, m.answers.len())
    } else {
        seq![]
    })
}

fn push_hex4_upper(s: &mut String, v: u16)
    ensures
        final(s)@ == old(s)@ + hex4_upper(v),
{
    let ds: [u16; 4] = [v / 4096, (v / 256) % 16, (v / 16) % 16, v % 16];
    let mut k: usize = 0;
    while k < 4
        invariant
            k <= 4,
            ds@ == seq![v / 4096, (v / 256) % 16, (v / 16) % 16, v % 16],
            s@ == old(s)@ + hex4_upper(v).subrange(0, k as int),
        decreases 4 - k,
    {
        let d = ds[k];
        let c = if d < 10 {
            (48u8 + d as u8) as char
        } else {
            (55u8 + d as u8) as char
        };
        crate::text::push_char(s, c);
        k = k + 1;
        assert(s@ =~= old(s)@ + hex4_upper(v).subrange(0, k as int));
    }
    assert(hex4_upper(v).subrange(0, 4) =~= hex4_upper(v));
}

fn push_data_line(s: &mut String, t: DnsRecordType, data: &String)
    ensures
        final(s)@ == old(s)@ + data_line(t, data@),
{
    match t {
        DnsRecordType::A | DnsRecordType::AAAA => push_str(s, "     IP: "),
        DnsRecordType::CNAME | DnsRecordType::NS | DnsRecordType::PTR => push_str(s, "     域名: "),
        DnsRecordType::MX => push_str(s, "     邮件服务器: "),
        DnsRecordType::TXT => push_str(s, "     文本: "),
        _ => push_str(s, "     数据: "),
    }
    push_str(s, data.as_str());
    push_str(s, "\n");
    assert(final(s)@ =~= old(s)@ + data_line(t, data@));
}

fn push_question_line(s: &mut String, n: u64, q: &DnsQuestion)
    ensures
        final(s)@ == old(s)@ + question_line(n as nat, q@),
{
    push_str(s, "  ");
    push_decimal(s, n);
    push_str(s, ". ");
    push_str(s, q.name.as_str());
    push_str(s, " (类型: ");
    push_record_type(s, q.record_type);
    push_str(s, ", 类: ");
    push_decimal(s, q.class as u64);
    push_str(s, ")\n");
    assert(final(s)@ =~= old(s)@ + question_line(n as nat, q@));
}

fn push_answer_line(s: &mut String, n: u64, a: &DnsAnswer)
    ensures
        final(s)@ == old(s)@ + answer_line(n as nat, a@),
{
    push_str(s, "  ");
    push_decimal(s, n);
    push_str(s, ". ");
    push_str(s, a.name.as_str());
    push_str(s, " (类型: ");
    push_record_type(s, a.record_type);
    push_str(s, ", TTL: ");
    push_decimal(s, a.ttl as u64);
    push_str(s, "s)\n");
    push_data_line(s, a.record_type, &a.data_str);
    assert(final(s)@ =~= old(s)@ + answer_line(n as nat, a@));
}

/// The message as the console shows it; answers only when `verbose`.
pub fn format_console_message(message: &DnsMessage, verbose: bool) -> (r: String)
    ensures
        r@ == console_text(message@, verbose),
{
    let ghost m = message@;
    let mut s = String::new();
    push_str(&mut s, "[DNS ");
    match message.message_type {
        DnsMessageType::Query => push_str(&mut s, "查询"),
        DnsMessageType::Response => push_str(&mut s, "响应"),
    }
    push_str(&mut s, "] ID: ");
    push_hex4_upper(&mut s, message.transaction_id);
    push_str(&mut s, " | 协议: ");
    match message.protocol {
        DnsProtocol::Udp => push_str(&mut s, "Udp"),
        DnsProtocol::Tcp => push_str(&mut s, "Tcp"),
        DnsProtocol::Dot => push_str(&mut s, "Dot"),
        DnsProtocol::Doh => push_str(&mut s, "Doh"),
        DnsProtocol::Doq => push_str(&mut s, "Doq"),
    }
    push_str(&mut s, "\n");
    let ghost head = s@;
    if message.questions.len() > 0 {
        push_str(&mut s, "问题:\n");
        let ghost start = s@;
        let mut i: usize = 0;
        while i < message.questions.len()
            invariant
                i <= message.questions@.len(),
                m == message@,
                s@ == start + question_lines(m.questions, i as nat),
            decreases message.questions@.len() - i,
        {
            let q = &message.questions[i];
            assert(m.questions[i as int] == q@);
            push_question_line(&mut s, (i + 1) as u64, q);
            i = i + 1;
            assert(s@ =~= start + question_lines(m.questions, i as nat));
        }
    }
    let ghost mid = s@;
    assert(mid =~= head + (if m.questions.len() > 0 {
        "问题:\n"@ + question_lines(m.questions, m.questions.len())
    } else {
        seq![]
    }));
    if verbose && message.answers.len() > 0 {
        push_str(&mut s, "应答:\n");
        let ghost start = s@;
        let mut i: usize = 0;
        while i < message.answers.len()
            invariant
                i <= message.answers@.len(),
                m == message@,
                s@ == start + answer_lines(m.answers, i as nat),
            decreases message.answers@.len() - i,
        {
            let a = &message.answers[i];
            assert(m.answers[i as int] == a@);
            push_answer_line(&mut s, (i + 1) as u64, a);
            i = i + 1;
            assert(s@ =~= start + answer_lines(m.answers, i as nat));
        }
    }
    assert(s@ =~= console_text(m, verbose));
    s
}

} // verus!
