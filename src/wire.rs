use vstd::prelude::*;

use crate::dns::{
    record_type_of, AnswerView, DnsAnswer, DnsMessage, DnsMessageType, DnsProtocol, DnsQuestion,
    DnsRecordType, MessageView, QuestionView,
};
use crate::dns::DnsParser;
use crate::stats::{hit, lemma_grew_chain, lemma_grew_same, StatsCounter};
use crate::text::{decimal, hex, lossy_text, lower_of, lowercase, push_char, push_decimal, push_hex, push_str, utf8_lossy};

verus! {

/// The most compression pointers one name may follow.
pub const MAX_POINTER_HOPS: usize = 10;

/// The length of the fixed message header.
pub const HEADER_LEN: usize = 12;

/// The big-endian 16-bit number at `d[i..i + 2]`.
pub open spec fn be16(d: Seq<u8>, i: int) -> u16 {
    (d[i] as int * 256 + d[i + 1] as int) as u16
}

/// The big-endian 32-bit number at `d[i..i + 4]`.
pub open spec fn be32(d: Seq<u8>, i: int) -> u32 {
    (d[i] as int * 16777216 + d[i + 1] as int * 65536 + d[i + 2] as int * 256
        + d[i + 3] as int) as u32
}

/// Where `r`, if any, points.
pub open spec fn as_offset(r: Option<usize>) -> Option<int> {
    match r {
        Some(v) => Some(v as int),
        None => None,
    }
}

/// Reads a name starting at `pos`, having already read `labels`.
///
/// A byte with its two high bits set starts a two-byte pointer whose low 14
/// bits give the offset to continue at; at most `hops_left` more pointers
/// may be followed. Any other byte is a label length, zero ending the name.
/// `ret` is the offset just after the first pointer taken, if any. The
/// result is the labels of the name and the offset after it; `None` when a
/// byte that is needed lies outside `d` or too many pointers are followed.
pub open spec fn walk_name(
    d: Seq<u8>,
    pos: int,
    hops_left: nat,
    ret: Option<int>,
    labels: Seq<Seq<u8>>,
) -> Option<(Seq<Seq<u8>>, int)>
    decreases hops_left, d.len() - pos,
{
    if pos < 0 || pos >= d.len() {
        None
    } else if d[pos] >= 192 {
        if pos + 1 >= d.len() || hops_left == 0 {
            None
        } else {
            let target = (d[pos] - 192) * 256 + d[pos + 1];
            let r = match ret {
                Some(r) => Some(r),
                None => Some(pos + 2),
            };
            walk_name(d, target, (hops_left - 1) as nat, r, labels)
        }
    } else if d[pos] == 0 {
        Some(
            (
                labels,
                match ret {
                    Some(r) => r,
                    None => pos + 1,
                },
            ),
        )
    } else if pos + 1 + d[pos] > d.len() {
        None
    } else {
        walk_name(
            d,
            pos + 1 + d[pos],
            hops_left,
            ret,
            labels.push(d.subrange(pos + 1, pos + 1 + d[pos])),
        )
    }
}

/// The labels of the name at `pos` and the offset after it.
pub open spec fn name_at(d: Seq<u8>, pos: int) -> Option<(Seq<Seq<u8>>, int)> {
    walk_name(d, pos, MAX_POINTER_HOPS as nat, None, seq![])
}

/// The labels as text, each decoded as lossy UTF-8, joined by dots.
pub open spec fn join_labels(labels: Seq<Seq<u8>>) -> Seq<char>
    decreases labels.len(),
{
    if labels.len() == 0 {
        seq![]
    } else if labels.len() == 1 {
        lossy_text(labels[0])
    } else {
        join_labels(labels.drop_last()) + seq!['.'] + lossy_text(labels.last())
    }
}

/// The text of a name: its labels joined by dots, in lowercase.
pub open spec fn name_text(labels: Seq<Seq<u8>>) -> Seq<char> {
    lower_of(join_labels(labels))
}

/// The first `k` of the eight 16-bit groups of `r`, in hexadecimal, joined by colons.
pub open spec fn hex_groups(r: Seq<u8>, k: nat) -> Seq<char>
    decreases k,
{
    if k == 0 {
        seq![]
    } else if k == 1 {
        hex(be16(r, 0) as nat)
    } else {
        hex_groups(r, (k - 1) as nat) + seq![':'] + hex(be16(r, 2 * (k - 1)) as nat)
    }
}

/// Four bytes as a dotted decimal address.
pub open spec fn dotted_quad(r: Seq<u8>) -> Seq<char> {
    decimal(r[0] as nat) + seq!['.'] + decimal(r[1] as nat) + seq!['.'] + decimal(r[2] as nat)
        + seq!['.'] + decimal(r[3] as nat)
}

/// The display text of record data of type `t` at `d[start..start + len]`.
pub open spec fn rdata_text(d: Seq<u8>, t: DnsRecordType, start: int, len: int) -> Seq<char> {
    let r = d.subrange(start, start + len);
    match t {
        DnsRecordType::A => if len == 4 {
            dotted_quad(r)
        } else {
            "Invalid A record"@
        },
        DnsRecordType::AAAA => if len == 16 {
            hex_groups(r, 8)
        } else {
            "Invalid AAAA record"@
        },
        DnsRecordType::CNAME | DnsRecordType::NS | DnsRecordType::PTR => match name_at(d, start) {
            Some((labels, _)) => name_text(labels),
            None => "Invalid domain name"@,
        },
        _ => seq!['<'] + decimal(len as nat) + " bytes of data>"@,
    }
}

/// The question at `off` and the offset after it.
pub open spec fn question_at(d: Seq<u8>, off: int) -> Option<(QuestionView, int)> {
    match name_at(d, off) {
        None => None,
        Some((labels, p)) => if p + 4 > d.len() {
            None
        } else {
            Some(
                (
                    QuestionView {
                        name: name_text(labels),
                        record_type: record_type_of(be16(d, p)),
                        class: be16(d, p + 2),
                    },
                    p + 4,
                ),
            )
        },
    }
}

/// The answer record at `off` and the offset after it.
pub open spec fn answer_at(d: Seq<u8>, off: int) -> Option<(AnswerView, int)> {
    match name_at(d, off) {
        None => None,
        Some((labels, p)) => if p + 10 > d.len() {
            None
        } else {
            let len = be16(d, p + 8) as int;
            if p + 10 + len > d.len() {
                None
            } else {
                let t = record_type_of(be16(d, p));
                Some(
                    (
                        AnswerView {
                            name: name_text(labels),
                            record_type: t,
                            class: be16(d, p + 2),
                            ttl: be32(d, p + 4),
                            data: d.subrange(p + 10, p + 10 + len),
                            data_str: rdata_text(d, t, p + 10, len),
                        },
                        p + 10 + len,
                    ),
                )
            }
        },
    }
}

/// The first `n` questions from `off` and the offset after them.
pub open spec fn questions_from(d: Seq<u8>, off: int, n: nat) -> Option<(Seq<QuestionView>, int)>
    decreases n,
{
    if n == 0 {
        Some((seq![], off))
    } else {
        match questions_from(d, off, (n - 1) as nat) {
            None => None,
            Some((qs, p)) => match question_at(d, p) {
                None => None,
                Some((q, p2)) => Some((qs.push(q), p2)),
            },
        }
    }
}

/// Up to `n` answers from `off`, stopping at the first that cannot be read:
/// the answers read, the offset after them, and whether all `n` were read.
pub open spec fn answers_from(d: Seq<u8>, off: int, n: nat) -> (Seq<AnswerView>, int, bool)
    decreases n,
{
    if n == 0 {
        (seq![], off, true)
    } else {
        let (ans, p, ok) = answers_from(d, off, (n - 1) as nat);
        if !ok {
            (ans, p, false)
        } else {
            match answer_at(d, p) {
                None => (ans, p, false),
                Some((a, p2)) => (ans.push(a), p2, true),
            }
        }
    }
}

/// The number of questions the header announces.
pub open spec fn question_count(d: Seq<u8>) -> nat {
    be16(d, 4) as nat
}

/// The number of answers the header announces.
pub open spec fn answer_count(d: Seq<u8>) -> nat {
    be16(d, 6) as nat
}

/// Whether the header says the message is a response.
pub open spec fn is_response(d: Seq<u8>) -> bool {
    d[2] >= 128
}

/// Whether a message of `len` bytes is too short or longer than `max`.
pub open spec fn bad_size(len: int, max: int) -> bool {
    len < HEADER_LEN || len > max
}

/// The message that `d` holds, for a decoder that takes at most `max` bytes.
///
/// The questions must all be read. Answers are read up to the first that
/// fails; then the message stands only if it has a question. A message with
/// neither questions nor answers is refused. Authority and additional
/// records are not read.
pub open spec fn decode_message(d: Seq<u8>, max: int) -> Option<MessageView> {
    if bad_size(d.len() as int, max) {
        None
    } else {
        match questions_from(d, HEADER_LEN as int, question_count(d)) {
            None => None,
            Some((qs, p)) => {
                let (ans, _, ok) = answers_from(d, p, answer_count(d));
                if qs.len() == 0 && (!ok || ans.len() == 0) {
                    None
                } else {
                    Some(
                        MessageView {
                            transaction_id: be16(d, 0),
                            message_type: if is_response(d) {
                                DnsMessageType::Response
                            } else {
                                DnsMessageType::Query
                            },
                            questions: qs,
                            answers: ans,
                            timestamp: 0,
                            protocol: DnsProtocol::Udp,
                        },
                    )
                }
            },
        }
    }
}

/// How much decoding `d` adds to each counter.
pub open spec fn decode_tally(d: Seq<u8>, max: int, k: Seq<char>) -> nat {
    if bad_size(d.len() as int, max) {
        hit(k, "dns.udp.invalid_size"@)
    } else {
        match questions_from(d, HEADER_LEN as int, question_count(d)) {
            None => hit(k, "dns.udp.parse_question_failed"@),
            Some((qs, p)) => {
                let (ans, _, ok) = answers_from(d, p, answer_count(d));
                if qs.len() == 0 && (!ok || ans.len() == 0) {
                    hit(k, "dns.udp.parse_failed"@)
                } else {
                    (if !ok {
                        hit(k, "dns.udp.parse_answer_failed"@)
                    } else {
                        0
                    }) + hit(k, "dns.udp.parsed"@) + if is_response(d) {
                        hit(k, "dns.udp.response"@)
                    } else {
                        hit(k, "dns.udp.query"@)
                    }
                }
            },
        }
    }
}

/// Where `n` compression pointers follow one another from `pos`: each is
/// a whole two-byte pointer inside `d` leading to the next.
pub open spec fn pointer_chain(d: Seq<u8>, pos: int, n: nat) -> bool
    decreases n,
{
    n == 0 || (0 <= pos && pos + 1 < d.len() && d[pos] >= 192 && pointer_chain(
        d,
        (d[pos] - 192) * 256 + d[pos + 1],
        (n - 1) as nat,
    ))
}

proof fn lemma_chain_exhausts_hops(
    d: Seq<u8>,
    pos: int,
    hops_left: nat,
    ret: Option<int>,
    labels: Seq<Seq<u8>>,
)
    requires
        pointer_chain(d, pos, hops_left + 1),
    ensures
        walk_name(d, pos, hops_left, ret, labels) is None,
    decreases hops_left,
{
    if hops_left > 0 {
        let target = (d[pos] - 192) * 256 + d[pos + 1];
        let r = match ret {
            Some(r) => Some(r),
            None => Some(pos + 2),
        };
        lemma_chain_exhausts_hops(d, target, (hops_left - 1) as nat, r, labels);
    }
}

/// A name reached through more than ten compression pointers in a row is
/// refused, whatever they point at, loops included.
pub proof fn lemma_long_pointer_chain_fails(d: Seq<u8>, pos: int)
    requires
        pointer_chain(d, pos, (MAX_POINTER_HOPS + 1) as nat),
    ensures
        name_at(d, pos) is None,
{
    lemma_chain_exhausts_hops(d, pos, MAX_POINTER_HOPS as nat, None, seq![]);
}

/// A message whose header announces neither questions nor answers is refused.
pub proof fn lemma_empty_header_rejected(d: Seq<u8>, max: int)
    requires
        d.len() >= HEADER_LEN,
        question_count(d) == 0,
        answer_count(d) == 0,
    ensures
        decode_message(d, max) is None,
{
}

/// When every question is read, the message stands with those questions,
/// however many of the answers can be read.
pub proof fn lemma_questions_survive_bad_answers(d: Seq<u8>, max: int)
    requires
        !bad_size(d.len() as int, max),
        questions_from(d, HEADER_LEN as int, question_count(d)) matches Some((qs, _)) && qs.len()
            >= 1,
    ensures
        decode_message(d, max) is Some,
        decode_message(d, max).unwrap().questions == questions_from(
            d,
            HEADER_LEN as int,
            question_count(d),
        ).unwrap().0,
{
}

/// A-record data of any length but four shows as "Invalid A record", and
/// AAAA-record data of any length but sixteen as "Invalid AAAA record".
pub proof fn lemma_address_length_checked(d: Seq<u8>, start: int, len: int)
    ensures
        len != 4 ==> rdata_text(d, DnsRecordType::A, start, len) == "Invalid A record"@,
        len != 16 ==> rdata_text(d, DnsRecordType::AAAA, start, len) == "Invalid AAAA record"@,
{
}

/// Decoding depends on the bytes and the size limit alone: the same input
/// twice gives the same message and the same counts.
pub proof fn lemma_decode_deterministic(a: Seq<u8>, b: Seq<u8>, max: int)
    requires
        a == b,
    ensures
        decode_message(a, max) == decode_message(b, max),
        forall|k: Seq<char>| #[trigger] decode_tally(a, max, k) == decode_tally(b, max, k),
{
}

/// A question as written on the wire: the labels of its name, its type
/// and its class.
pub struct WireQuestion {
    pub labels: Seq<Seq<u8>>,
    pub qtype: u16,
    pub qclass: u16,
}

/// Whether every label has between one and sixty-three bytes.
pub open spec fn labels_ok(ls: Seq<Seq<u8>>) -> bool {
    forall|i: int| 0 <= i < ls.len() ==> 1 <= #[trigger] ls[i].len() <= 63
}

/// A name written label by label, without compression, ending in a zero byte.
pub open spec fn encode_name(ls: Seq<Seq<u8>>) -> Seq<u8>
    decreases ls.len(),
{
    if ls.len() == 0 {
        seq![0u8]
    } else {
        seq![ls[0].len() as u8] + ls[0] + encode_name(ls.subrange(1, ls.len() as int))
    }
}

/// The two big-endian bytes of `v`.
pub open spec fn u16_bytes(v: u16) -> Seq<u8> {
    seq![(v / 256) as u8, (v % 256) as u8]
}

/// A question written with its name uncompressed.
pub open spec fn encode_question(q: WireQuestion) -> Seq<u8> {
    encode_name(q.labels) + u16_bytes(q.qtype) + u16_bytes(q.qclass)
}

/// The questions `qs` written one after another.
pub open spec fn encode_questions(qs: Seq<WireQuestion>) -> Seq<u8>
    decreases qs.len(),
{
    if qs.len() == 0 {
        seq![]
    } else {
        encode_questions(qs.drop_last()) + encode_question(qs.last())
    }
}

/// A message with transaction id `id`, header flags `flags`, the questions
/// `qs` and no other records.
pub open spec fn encode_query(id: u16, flags: u16, qs: Seq<WireQuestion>) -> Seq<u8> {
    let n = qs.len() as u16;
    seq![
        (id / 256) as u8,
        (id % 256) as u8,
        (flags / 256) as u8,
        (flags % 256) as u8,
        (n / 256) as u8,
        (n % 256) as u8,
        0u8,
        0u8,
        0u8,
        0u8,
        0u8,
        0u8,
    ] + encode_questions(qs)
}

/// The question that `q` stands for once decoded.
pub open spec fn question_of(q: WireQuestion) -> QuestionView {
    QuestionView {
        name: name_text(q.labels),
        record_type: record_type_of(q.qtype),
        class: q.qclass,
    }
}

/// Whether `e` stands in `d` at `pos`.
pub open spec fn placed(d: Seq<u8>, pos: int, e: Seq<u8>) -> bool {
    0 <= pos && pos + e.len() <= d.len() && d.subrange(pos, pos + e.len()) == e
}

proof fn lemma_walk_encoded_name(
    d: Seq<u8>,
    pos: int,
    ls: Seq<Seq<u8>>,
    hops: nat,
    acc: Seq<Seq<u8>>,
)
    requires
        labels_ok(ls),
        placed(d, pos, encode_name(ls)),
    ensures
        walk_name(d, pos, hops, None, acc) == Some((acc + ls, pos + encode_name(ls).len())),
    decreases ls.len(),
{
    let e = encode_name(ls);
    assert(d[pos] == e[0]) by {
        assert(d.subrange(pos, pos + e.len())[0] == d[pos]);
    }
    if ls.len() == 0 {
        assert(acc + ls =~= acc);
    } else {
        let l = ls[0];
        let rest = ls.subrange(1, ls.len() as int);
        let e2 = encode_name(rest);
        assert(1 <= l.len() <= 63);
        assert(e == seq![l.len() as u8] + l + e2);
        assert(d.subrange(pos + 1, pos + 1 + l.len()) =~= l) by {
            assert forall|j: int| 0 <= j < l.len() implies d[pos + 1 + j] == l[j] by {
                assert(d.subrange(pos, pos + e.len())[1 + j] == d[pos + 1 + j]);
                assert(e[1 + j] == l[j]);
            }
        }
        assert(labels_ok(rest)) by {
            assert forall|i: int| 0 <= i < rest.len() implies 1 <= #[trigger] rest[i].len() <= 63 by {
                assert(rest[i] == ls[i + 1]);
            }
        }
        assert(placed(d, pos + 1 + l.len(), e2)) by {
            assert forall|j: int| 0 <= j < e2.len() implies d[pos + 1 + l.len() + j] == e2[j] by {
                assert(d.subrange(pos, pos + e.len())[1 + l.len() + j] == d[pos + 1 + l.len() + j]);
                assert(e[1 + l.len() + j] == e2[j]);
            }
            assert(d.subrange(pos + 1 + l.len(), pos + 1 + l.len() + e2.len()) =~= e2);
        }
        lemma_walk_encoded_name(d, pos + 1 + l.len(), rest, hops, acc.push(l));
        assert(acc.push(l) + rest =~= acc + ls);
    }
}

proof fn lemma_decode_encoded_question(d: Seq<u8>, off: int, q: WireQuestion)
    requires
        labels_ok(q.labels),
        placed(d, off, encode_question(q)),
    ensures
        question_at(d, off) == Some((question_of(q), off + encode_question(q).len())),
{
    let en = encode_name(q.labels);
    let e = encode_question(q);
    assert(placed(d, off, en)) by {
        assert forall|j: int| 0 <= j < en.len() implies d[off + j] == en[j] by {
            assert(d.subrange(off, off + e.len())[j] == d[off + j]);
            assert(e[j] == en[j]);
        }
        assert(d.subrange(off, off + en.len()) =~= en);
    }
    lemma_walk_encoded_name(d, off, q.labels, MAX_POINTER_HOPS as nat, seq![]);
    assert(Seq::<Seq<u8>>::empty() + q.labels =~= q.labels);
    let p = off + en.len();
    let w = d.subrange(off, off + e.len());
    assert(w[en.len() as int] == d[p] && d[p] == e[en.len() as int]);
    assert(w[en.len() as int + 1] == d[p + 1] && d[p + 1] == e[en.len() as int + 1]);
    assert(w[en.len() as int + 2] == d[p + 2] && d[p + 2] == e[en.len() as int + 2]);
    assert(w[en.len() as int + 3] == d[p + 3] && d[p + 3] == e[en.len() as int + 3]);
    assert(be16(d, p) == q.qtype);
    assert(be16(d, p + 2) == q.qclass);
}

proof fn lemma_encode_questions_prefix(qs: Seq<WireQuestion>, i: nat, n: nat)
    requires
        i <= n <= qs.len(),
    ensures
        encode_questions(qs.subrange(0, i as int)).len() <= encode_questions(
            qs.subrange(0, n as int),
        ).len(),
        encode_questions(qs.subrange(0, n as int)).subrange(
            0,
            encode_questions(qs.subrange(0, i as int)).len() as int,
        ) == encode_questions(qs.subrange(0, i as int)),
    decreases n - i,
{
    let ei = encode_questions(qs.subrange(0, i as int));
    if i == n {
        assert(ei.subrange(0, ei.len() as int) =~= ei);
    } else {
        lemma_encode_questions_prefix(qs, i, (n - 1) as nat);
        assert(qs.subrange(0, n as int).drop_last() =~= qs.subrange(0, n - 1));
        let en1 = encode_questions(qs.subrange(0, n - 1));
        let en = encode_questions(qs.subrange(0, n as int));
        assert(en == en1 + encode_question(qs[n - 1]));
        assert(en.subrange(0, ei.len() as int) =~= en1.subrange(0, ei.len() as int));
    }
}

proof fn lemma_decode_encoded_questions(d: Seq<u8>, qs: Seq<WireQuestion>, i: nat)
    requires
        forall|k: int| 0 <= k < qs.len() ==> labels_ok(#[trigger] qs[k].labels),
        i <= qs.len(),
        placed(d, HEADER_LEN as int, encode_questions(qs)),
    ensures
        questions_from(d, HEADER_LEN as int, i) == Some(
            (
                qs.subrange(0, i as int).map_values(|q: WireQuestion| question_of(q)),
                HEADER_LEN + encode_questions(qs.subrange(0, i as int)).len(),
            ),
        ),
    decreases i,
{
    if i == 0 {
        assert(qs.subrange(0, 0).map_values(|q: WireQuestion| question_of(q)) =~= seq![]);
    } else {
        lemma_decode_encoded_questions(d, qs, (i - 1) as nat);
        let pre = qs.subrange(0, i - 1);
        let cur = qs.subrange(0, i as int);
        let q = qs[i - 1];
        assert(cur.drop_last() =~= pre);
        let ep = encode_questions(pre);
        let ec = encode_questions(cur);
        assert(ec == ep + encode_question(q));
        lemma_encode_questions_prefix(qs, i, qs.len());
        assert(qs.subrange(0, qs.len() as int) =~= qs);
        let all = encode_questions(qs);
        let off = HEADER_LEN + ep.len();
        assert(placed(d, off, encode_question(q))) by {
            let eq = encode_question(q);
            assert forall|j: int| 0 <= j < eq.len() implies d[off + j] == eq[j] by {
                assert(all.subrange(0, ec.len() as int)[ep.len() + j] == all[ep.len() + j]);
                assert(ec[ep.len() + j] == eq[j]);
                assert(d.subrange(HEADER_LEN as int, HEADER_LEN + all.len())[ep.len() + j] == d[off
                    + j]);
            }
            assert(d.subrange(off, off + eq.len()) =~= eq);
        }
        lemma_decode_encoded_question(d, off, q);
        assert(cur.map_values(|q: WireQuestion| question_of(q)) =~= pre.map_values(
            |q: WireQuestion| question_of(q),
        ).push(question_of(q)));
    }
}

/// Decoding a query written with well-formed names gives back its
/// transaction id and its questions.
pub proof fn lemma_round_trip(id: u16, flags: u16, qs: Seq<WireQuestion>, max: int)
    requires
        1 <= qs.len() < 65536,
        forall|k: int| 0 <= k < qs.len() ==> labels_ok(#[trigger] qs[k].labels),
        encode_query(id, flags, qs).len() <= max,
    ensures
        decode_message(encode_query(id, flags, qs), max) matches Some(m) && m.transaction_id == id
            && m.questions == qs.map_values(|q: WireQuestion| question_of(q)),
{
    let d = encode_query(id, flags, qs);
    let body = encode_questions(qs);
    assert(placed(d, HEADER_LEN as int, body)) by {
        assert(d.subrange(HEADER_LEN as int, HEADER_LEN + body.len()) =~= body);
    }
    assert(be16(d, 0) == id);
    assert(question_count(d) == qs.len());
    assert(answer_count(d) == 0);
    lemma_decode_encoded_questions(d, qs, qs.len());
    assert(qs.subrange(0, qs.len() as int) =~= qs);
}

/// Once a question cannot be read, reading more of them fails too.
proof fn lemma_questions_fail_on(d: Seq<u8>, off: int, m: nat, n: nat)
    requires
        m <= n,
        questions_from(d, off, m) is None,
    ensures
        questions_from(d, off, n) is None,
    decreases n - m,
{
    if m < n {
        lemma_questions_fail_on(d, off, m, (n - 1) as nat);
    }
}

/// Once an answer cannot be read, the answers read stay as they are.
proof fn lemma_answers_stop(d: Seq<u8>, off: int, m: nat, n: nat)
    requires
        m <= n,
        !answers_from(d, off, m).2,
    ensures
        answers_from(d, off, n) == answers_from(d, off, m),
    decreases n - m,
{
    if m < n {
        lemma_answers_stop(d, off, m, (n - 1) as nat);
    }
}

/// Reads the big-endian 16-bit number at `d[i..i + 2]`.
pub fn read_be16(d: &[u8], i: usize) -> (r: u16)
    requires
        i + 2 <= d@.len(),
    ensures
        r == be16(d@, i as int),
{
    (d[i] as u16) * 256 + d[i + 1] as u16
}

/// Reads the big-endian 32-bit number at `d[i..i + 4]`.
pub fn read_be32(d: &[u8], i: usize) -> (r: u32)
    requires
        i + 4 <= d@.len(),
    ensures
        r == be32(d@, i as int),
{
    (d[i] as u32) * 16777216 + (d[i + 1] as u32) * 65536 + (d[i + 2] as u32) * 256 + d[i
        + 3] as u32
}

/// Appends the bytes of `data` to `v`.
pub fn append_bytes(v: &mut Vec<u8>, data: &[u8])
    ensures
        final(v)@ == old(v)@ + data@,
{
    let mut k: usize = 0;
    while k < data.len()
        invariant
            k <= data@.len(),
            v@ == old(v)@ + data@.subrange(0, k as int),
        decreases data@.len() - k,
    {
        v.push(data[k]);
        k = k + 1;
        assert(v@ =~= old(v)@ + data@.subrange(0, k as int));
    }
    assert(data@.subrange(0, data@.len() as int) =~= data@);
}

/// A copy of `d[start..end]`.
pub fn copy_bytes(d: &[u8], start: usize, end: usize) -> (r: Vec<u8>)
    requires
        start <= end <= d@.len(),
    ensures
        r@ == d@.subrange(start as int, end as int),
{
    let mut r: Vec<u8> = Vec::with_capacity(end - start);
    let mut i = start;
    while i < end
        invariant
            start <= i <= end <= d@.len(),
            r@ == d@.subrange(start as int, i as int),
        decreases end - i,
    {
        r.push(d[i]);
        i = i + 1;
        assert(r@ =~= d@.subrange(start as int, i as int));
    }
    r
}

/// The stateless decoder of single DNS messages.
pub struct UdpDnsParser {
    max_packet_size: usize,
}

impl UdpDnsParser {
    /// A decoder that refuses messages longer than `max_packet_size` bytes.
    pub fn new(max_packet_size: usize) -> (r: UdpDnsParser)
        ensures
            r.max_size() == max_packet_size,
    {
        UdpDnsParser { max_packet_size }
    }

    /// The largest message accepted.
    pub closed spec fn max_size(&self) -> nat {
        self.max_packet_size as nat
    }

    /// Reads the name at `offset`, following compression pointers: its
    /// labels and the offset after it.
    pub fn read_name(&self, data: &[u8], offset: usize) -> (r: Option<(Vec<Vec<u8>>, usize)>)
        ensures
            match name_at(data@, offset as int) {
                None => r is None,
                Some((labels, next)) => r matches Some((ls, n)) && ls@.map_values(
                    |l: Vec<u8>| l@,
                ) == labels && n == next,
            },
    {
        let mut found: Vec<Vec<u8>> = Vec::new();
        let mut pos = offset;
        let mut hops_left: usize = MAX_POINTER_HOPS;
        let mut ret: Option<usize> = None;
        assert(found@.map_values(|l: Vec<u8>| l@) =~= Seq::<Seq<u8>>::empty());
        loop
            invariant
                name_at(data@, offset as int) == walk_name(
                    data@,
                    pos as int,
                    hops_left as nat,
                    as_offset(ret),
                    found@.map_values(|l: Vec<u8>| l@),
                ),
                hops_left <= MAX_POINTER_HOPS,
                ret matches Some(r) ==> r <= data@.len(),
            decreases hops_left, data@.len() - pos,
        {
            if pos >= data.len() {
                return None;
            }
            let b = data[pos];
            if b >= 192 {
                if pos + 1 >= data.len() || hops_left == 0 {
                    return None;
                }
                if ret.is_none() {
                    ret = Some(pos + 2);
                }
                pos = (b as usize - 192) * 256 + data[pos + 1] as usize;
                hops_left = hops_left - 1;
            } else if b == 0 {
                let next = match ret {
                    Some(r) => r,
                    None => pos + 1,
                };
                return Some((found, next));
            } else {
                let len = b as usize;
                if len > data.len() - pos - 1 {
                    return None;
                }
                let label = copy_bytes(data, pos + 1, pos + 1 + len);
                let ghost prev = found@;
                found.push(label);
                assert(found@.map_values(|l: Vec<u8>| l@) =~= prev.map_values(|l: Vec<u8>| l@).push(
                    data@.subrange(pos + 1, pos + 1 + len),
                ));
                pos = pos + 1 + len;
            }
        }
    }

    /// The text of a name: its labels decoded as lossy UTF-8, joined by
    /// dots, and lowercased.
    pub fn labels_text(labels: &Vec<Vec<u8>>) -> (r: String)
        ensures
            r@ == name_text(labels@.map_values(|l: Vec<u8>| l@)),
    {
        let ghost ls = labels@.map_values(|l: Vec<u8>| l@);
        let mut name = String::new();
        let mut i: usize = 0;
        while i < labels.len()
            invariant
                i <= labels@.len(),
                ls == labels@.map_values(|l: Vec<u8>| l@),
                name@ == join_labels(ls.subrange(0, i as int)),
            decreases labels@.len() - i,
        {
            let text = utf8_lossy(labels[i].as_slice());
            if i > 0 {
                push_char(&mut name, '.');
            }
            push_str(&mut name, text.as_str());
            proof {
                let next = ls.subrange(0, i + 1);
                assert(next.drop_last() =~= ls.subrange(0, i as int));
                assert(next.last() == labels@[i as int]@);
                if i == 0 {
                    assert(name@ =~= lossy_text(next[0]));
                }
            }
            i = i + 1;
        }
        assert(ls.subrange(0, ls.len() as int) =~= ls);
        lowercase(name.as_str())
    }

    /// Reads the name at `offset`: its text and the offset after it.
    pub fn parse_domain_name(&self, data: &[u8], offset: usize) -> (r: Option<(String, usize)>)
        ensures
            match name_at(data@, offset as int) {
                None => r is None,
                Some((labels, next)) => r matches Some((name, n)) && name@ == name_text(labels)
                    && n == next,
            },
    {
        match self.read_name(data, offset) {
            Some((labels, next)) => Some((Self::labels_text(&labels), next)),
            None => None,
        }
    }

    /// Reads the question at `offset`: the question and the offset after it.
    pub fn parse_question(&self, data: &[u8], offset: usize) -> (r: Option<(DnsQuestion, usize)>)
        ensures
            match question_at(data@, offset as int) {
                None => r is None,
                Some((q, next)) => r matches Some((rq, n)) && rq@ == q && n == next,
            },
    {
        let (name, offset) = match self.parse_domain_name(data, offset) {
            Some(found) => found,
            None => return None,
        };
        if offset > data.len() || data.len() - offset < 4 {
            return None;
        }
        let record_type = read_be16(data, offset);
        let class = read_be16(data, offset + 2);
        Some((DnsQuestion { name, record_type: DnsRecordType::from(record_type), class }, offset + 4))
    }

    fn render_rdata(&self, data: &[u8], t: DnsRecordType, start: usize, len: usize) -> (r: String)
        requires
            start + len <= data@.len(),
        ensures
            r@ == rdata_text(data@, t, start as int, len as int),
    {
        let ghost rd = data@.subrange(start as int, start + len);
        match t {
            DnsRecordType::A => {
                if len == 4 {
                    let mut s = String::new();
                    push_decimal(&mut s, data[start] as u64);
                    push_char(&mut s, '.');
                    push_decimal(&mut s, data[start + 1] as u64);
                    push_char(&mut s, '.');
                    push_decimal(&mut s, data[start + 2] as u64);
                    push_char(&mut s, '.');
                    push_decimal(&mut s, data[start + 3] as u64);
                    assert(s@ =~= dotted_quad(rd));
                    s
                } else {
                    String::from_str("Invalid A record")
                }
            },
            DnsRecordType::AAAA => {
                if len == 16 {
                    let mut s = String::new();
                    let mut k: usize = 0;
                    let total = data.len();
                    while k < 8
                        invariant
                            k <= 8,
                            total == data@.len(),
                            start + len <= data@.len(),
                            len == 16,
                            rd == data@.subrange(start as int, start + len),
                            s@ == hex_groups(rd, k as nat),
                        decreases 8 - k,
                    {
                        if k > 0 {
                            push_char(&mut s, ':');
                        }
                        let g = read_be16(data, start + 2 * k);
                        assert(g == be16(rd, 2 * k));
                        push_hex(&mut s, g as u64);
                        k = k + 1;
                        assert(s@ =~= hex_groups(rd, k as nat));
                    }
                    s
                } else {
                    String::from_str("Invalid AAAA record")
                }
            },
            DnsRecordType::CNAME | DnsRecordType::NS | DnsRecordType::PTR => {
                match self.parse_domain_name(data, start) {
                    Some((domain, _)) => domain,
                    None => String::from_str("Invalid domain name"),
                }
            },
            _ => {
                let mut s = String::new();
                push_char(&mut s, '<');
                push_decimal(&mut s, len as u64);
                push_str(&mut s, " bytes of data>");
                assert(s@ =~= seq!['<'] + decimal(len as nat) + " bytes of data>"@);
                s
            },
        }
    }

    /// Reads the answer record at `offset`: the record and the offset after it.
    pub fn parse_answer(&self, data: &[u8], offset: usize) -> (r: Option<(DnsAnswer, usize)>)
        ensures
            match answer_at(data@, offset as int) {
                None => r is None,
                Some((a, next)) => r matches Some((ra, n)) && ra@ == a && n == next,
            },
    {
        let (name, offset) = match self.parse_domain_name(data, offset) {
            Some(found) => found,
            None => return None,
        };
        if offset > data.len() || data.len() - offset < 10 {
            return None;
        }
        let record_type = read_be16(data, offset);
        let class = read_be16(data, offset + 2);
        let ttl = read_be32(data, offset + 4);
        let data_len = read_be16(data, offset + 8) as usize;
        if data.len() - offset - 10 < data_len {
            return None;
        }
        let start = offset + 10;
        let record_data = copy_bytes(data, start, start + data_len);
        let t = DnsRecordType::from(record_type);
        let data_str = self.render_rdata(data, t, start, data_len);
        Some(
            (
                DnsAnswer { name, record_type: t, class, ttl, data: record_data, data_str },
                start + data_len,
            ),
        )
    }
}

impl UdpDnsParser {
    /// Decodes the single message that `data` holds.
    ///
    /// Fails on fewer than twelve bytes or more than the size limit, on a
    /// question that cannot be read, and on a message left with neither
    /// questions nor answers. An answer that cannot be read ends the answer
    /// section early. Each outcome is counted in `stats`.
    pub fn decode(&self, data: &[u8], stats: &mut StatsCounter) -> (r: Option<DnsMessage>)
        requires
            old(stats).wf(),
        ensures
            match decode_message(data@, self.max_size() as int) {
                None => r is None,
                Some(m) => r matches Some(rm) && rm@ == m,
            },
            final(stats).grew(
                *old(stats),
                |k: Seq<char>| decode_tally(data@, self.max_size() as int, k),
            ),
            data@.len() < HEADER_LEN ==> r is None && final(stats).count("dns.udp.invalid_size"@)
                == crate::stats::sat_add(old(stats).count("dns.udp.invalid_size"@), 1),
    {
        let ghost d = data@;
        let ghost max = self.max_size() as int;
        let ghost s0 = *stats;
        if data.len() < HEADER_LEN || data.len() > self.max_packet_size {
            stats.increment("dns.udp.invalid_size");
            proof {
                lemma_grew_same(
                    s0,
                    *stats,
                    |k: Seq<char>| hit(k, "dns.udp.invalid_size"@),
                    |k: Seq<char>| decode_tally(d, max, k),
                );
            }
            return None;
        }
        let transaction_id = read_be16(data, 0);
        let response = data[2] >= 128;
        let question_total = read_be16(data, 4) as usize;
        let answer_total = read_be16(data, 6) as usize;

        let mut offset: usize = HEADER_LEN;
        let mut questions: Vec<DnsQuestion> = Vec::new();
        let mut i: usize = 0;
        while i < question_total
            invariant
                i <= question_total,
                question_total == question_count(d),
                d == data@,
                max == self.max_size() as int,
                *stats == s0,
                *old(stats) == s0,
                s0.wf(),
                !bad_size(d.len() as int, max),
                questions_from(d, HEADER_LEN as int, i as nat) == Some(
                    (questions@.map_values(|q: DnsQuestion| q@), offset as int),
                ),
            decreases question_total - i,
        {
            match self.parse_question(data, offset) {
                Some((question, next)) => {
                    let ghost before = questions@;
                    questions.push(question);
                    assert(questions@.map_values(|q: DnsQuestion| q@) =~= before.map_values(
                        |q: DnsQuestion| q@,
                    ).push(question@));
                    offset = next;
                },
                None => {
                    proof {
                        lemma_questions_fail_on(
                            d,
                            HEADER_LEN as int,
                            (i + 1) as nat,
                            question_total as nat,
                        );
                    }
                    stats.increment("dns.udp.parse_question_failed");
                    proof {
                        lemma_grew_same(
                            s0,
                            *stats,
                            |k: Seq<char>| hit(k, "dns.udp.parse_question_failed"@),
                            |k: Seq<char>| decode_tally(data@, self.max_size() as int, k),
                        );
                    }
                    return None;
                },
            }
            i = i + 1;
        }
        let ghost qoff = offset as int;

        let mut answers: Vec<DnsAnswer> = Vec::new();
        let mut all_read = true;
        let mut j: usize = 0;
        while j < answer_total
            invariant_except_break
                all_read,
                answers_from(d, qoff, j as nat) == (
                    answers@.map_values(|a: DnsAnswer| a@),
                    offset as int,
                    all_read,
                ),
            invariant
                j <= answer_total,
                answer_total == answer_count(d),
                d == data@,
                max == self.max_size() as int,
                *stats == s0,
                *old(stats) == s0,
                s0.wf(),
            ensures
                answers_from(d, qoff, answer_total as nat) == (
                    answers@.map_values(|a: DnsAnswer| a@),
                    offset as int,
                    all_read,
                ),
            decreases answer_total - j,
        {
            match self.parse_answer(data, offset) {
                Some((answer, next)) => {
                    let ghost before = answers@;
                    answers.push(answer);
                    assert(answers@.map_values(|a: DnsAnswer| a@) =~= before.map_values(
                        |a: DnsAnswer| a@,
                    ).push(answer@));
                    offset = next;
                },
                None => {
                    all_read = false;
                    proof {
                        lemma_answers_stop(d, qoff, (j + 1) as nat, answer_total as nat);
                    }
                    break ;
                },
            }
            j = j + 1;
        }

        let ghost s1 = *stats;
        if questions.len() == 0 && (!all_read || answers.len() == 0) {
            stats.increment("dns.udp.parse_failed");
            proof {
                lemma_grew_same(
                    s0,
                    *stats,
                    |k: Seq<char>| hit(k, "dns.udp.parse_failed"@),
                    |k: Seq<char>| decode_tally(d, max, k),
                );
            }
            return None;
        }
        let ghost t1 = |k: Seq<char>| if !all_read { hit(k, "dns.udp.parse_answer_failed"@) } else { 0 };
        if !all_read {
            stats.increment("dns.udp.parse_answer_failed");
        } else {
            proof {
                crate::stats::lemma_grew_none(s0, t1);
            }
        }
        let ghost s2 = *stats;
        stats.increment("dns.udp.parsed");
        proof {
            lemma_grew_chain(
                s0,
                s2,
                *stats,
                t1,
                |k: Seq<char>| hit(k, "dns.udp.parsed"@),
                |k: Seq<char>| t1(k) + hit(k, "dns.udp.parsed"@),
            );
        }
        let ghost s3 = *stats;
        let ghost kind_key = if response { "dns.udp.response"@ } else { "dns.udp.query"@ };
        let message_type = if response {
            stats.increment("dns.udp.response");
            DnsMessageType::Response
        } else {
            stats.increment("dns.udp.query");
            DnsMessageType::Query
        };
        proof {
            lemma_grew_chain(
                s0,
                s3,
                *stats,
                |k: Seq<char>| t1(k) + hit(k, "dns.udp.parsed"@),
                |k: Seq<char>| hit(k, kind_key),
                |k: Seq<char>| decode_tally(d, max, k),
            );
        }
        Some(
            DnsMessage {
                transaction_id,
                message_type,
                questions,
                answers,
                timestamp: 0,
                protocol: DnsProtocol::Udp,
            },
        )
    }
}

impl DnsParser for UdpDnsParser {
    fn parse(&mut self, data: &[u8], stats: &mut StatsCounter) -> (r: Option<DnsMessage>)
        ensures
            *final(self) == *old(self),
            match decode_message(data@, old(self).max_size() as int) {
                None => r is None,
                Some(m) => r matches Some(rm) && rm@ == m,
            },
            final(stats).grew(
                *old(stats),
                |k: Seq<char>| decode_tally(data@, old(self).max_size() as int, k),
            ),
    {
        self.decode(data, stats)
    }

    fn protocol_type(&self) -> (r: DnsProtocol)
        ensures
            r == DnsProtocol::Udp,
    {
        DnsProtocol::Udp
    }
}

} // verus!
