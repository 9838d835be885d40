use vstd::prelude::*;

verus! {

/// Whether `pat` stands in `d` at `i`.
pub open spec fn at(d: Seq<u8>, i: int, pat: Seq<u8>) -> bool {
    0 <= i && i + pat.len() <= d.len() && forall|j: int| 0 <= j < pat.len() ==> d[i + j] == pat[j]
}

/// `b` with ASCII capitals made small.
pub open spec fn ascii_lower(b: u8) -> u8 {
    if 65 <= b <= 90 {
        (b + 32) as u8
    } else {
        b
    }
}

/// Whether the lowercase pattern `pat` stands in `d` at `i`, ignoring ASCII case.
pub open spec fn at_ci(d: Seq<u8>, i: int, pat: Seq<u8>) -> bool {
    0 <= i && i + pat.len() <= d.len() && forall|j: int|
        0 <= j < pat.len() ==> ascii_lower(d[i + j]) == pat[j]
}

/// The first position at or after `from` where `pat` stands in `d`.
pub open spec fn find_from(d: Seq<u8>, pat: Seq<u8>, from: int) -> Option<int>
    decreases d.len() - from,
{
    if from < 0 || from + pat.len() > d.len() {
        None
    } else if at(d, from, pat) {
        Some(from)
    } else {
        find_from(d, pat, from + 1)
    }
}

/// The first position at or after `from` that holds neither a space nor a tab.
pub open spec fn skip_blanks(d: Seq<u8>, from: int) -> int
    decreases d.len() - from,
{
    if from < 0 || from >= d.len() {
        from
    } else if d[from] == 32 || d[from] == 9 {
        skip_blanks(d, from + 1)
    } else {
        from
    }
}

pub open spec fn crlfcrlf() -> Seq<u8> {
    seq![13u8, 10, 13, 10]
}

pub open spec fn get_method() -> Seq<u8> {
    seq![71u8, 69, 84, 32]
}

pub open spec fn dns_param() -> Seq<u8> {
    seq![100u8, 110, 115, 61]
}

pub open spec fn content_type_name() -> Seq<u8> {
    seq![99u8, 111, 110, 116, 101, 110, 116, 45, 116, 121, 112, 101, 58]
}

pub open spec fn dns_message_type() -> Seq<u8> {
    seq![
        97u8, 112, 112, 108, 105, 99, 97, 116, 105, 111, 110, 47, 100, 110, 115, 45, 109, 101, 115,
        115, 97, 103, 101,
    ]
}

/// Whether a header line starting at `i` of the head `h` is a
/// `Content-Type: application/dns-message` header, in any ASCII case.
pub open spec fn dns_type_at(h: Seq<u8>, i: int) -> bool {
    &&& (i == 0 || (i >= 2 && h[i - 2] == 13 && h[i - 1] == 10))
    &&& at_ci(h, i, content_type_name())
    &&& at_ci(h, skip_blanks(h, i + 13), dns_message_type())
}

/// Whether the head `h` has a `Content-Type: application/dns-message` header.
pub open spec fn has_dns_type(h: Seq<u8>) -> bool {
    exists|i: int| 0 <= i < h.len() && dns_type_at(h, i)
}

/// The value of base64url digit `c`, or -1.
pub open spec fn b64_value(c: u8) -> int {
    if 65 <= c <= 90 {
        c - 65
    } else if 97 <= c <= 122 {
        c - 71
    } else if 48 <= c <= 57 {
        c + 4
    } else if c == 45 {
        62
    } else if c == 95 {
        63
    } else {
        -1
    }
}

/// The bytes of a group of two to four base64url digits.
pub open spec fn b64_group(g: Seq<u8>) -> Seq<u8> {
    let a = b64_value(g[0]);
    let b = b64_value(g[1]);
    let first = seq![(a * 4 + b / 16) as u8];
    if g.len() == 2 {
        first
    } else {
        let c = b64_value(g[2]);
        let second = first.push(((b % 16) * 16 + c / 4) as u8);
        if g.len() == 3 {
            second
        } else {
            second.push(((c % 4) * 64 + b64_value(g[3])) as u8)
        }
    }
}

/// Unpadded base64url text `s` decoded, or `None` when a character is not a
/// base64url digit or the length leaves a lone digit.
pub open spec fn b64_decode(s: Seq<u8>) -> Option<Seq<u8>>
    decreases s.len(),
{
    if s.len() == 0 {
        Some(seq![])
    } else if s.len() == 1 {
        None
    } else {
        let n = if s.len() < 4 { s.len() as int } else { 4 };
        if exists|j: int| 0 <= j < n && b64_value(s[j]) < 0 {
            None
        } else {
            match b64_decode(s.subrange(n, s.len() as int)) {
                None => None,
                Some(rest) => Some(b64_group(s.subrange(0, n)) + rest),
            }
        }
    }
}

/// The first position at or after `from` in the request target `t` where a
/// `dns=` parameter starts, right after `?` or `&`.
pub open spec fn find_dns_param(t: Seq<u8>, from: int) -> Option<int>
    decreases t.len() - from,
{
    if from < 1 || from + 4 > t.len() {
        None
    } else if (t[from - 1] == 63 || t[from - 1] == 38) && at(t, from, dns_param()) {
        Some(from)
    } else {
        find_dns_param(t, from + 1)
    }
}

/// The DNS message an HTTP/1.1 exchange carries: for a GET request, the
/// base64url-decoded `dns` parameter of the target; otherwise the body,
/// when a header gives the content type `application/dns-message`.
pub open spec fn http_dns_body(d: Seq<u8>) -> Option<Seq<u8>> {
    match find_from(d, crlfcrlf(), 0) {
        None => None,
        Some(e) => {
            let head = d.subrange(0, e);
            if at(head, 0, get_method()) {
                let end = match find_from(head, seq![32u8], 4) {
                    Some(s) => s,
                    None => head.len() as int,
                };
                let t = head.subrange(4, end);
                match find_dns_param(t, 1) {
                    None => None,
                    Some(p) => {
                        let vend = match find_from(t, seq![38u8], p + 4) {
                            Some(a) => a,
                            None => t.len() as int,
                        };
                        b64_decode(t.subrange(p + 4, vend))
                    },
                }
            } else if has_dns_type(head) {
                Some(d.subrange(e + 4, d.len() as int))
            } else {
                None
            }
        },
    }
}

proof fn lemma_find_from_bounds(d: Seq<u8>, pat: Seq<u8>, from: int)
    ensures
        find_from(d, pat, from) matches Some(p) ==> from <= p && p + pat.len() <= d.len(),
    decreases d.len() - from,
{
    if !(from < 0 || from + pat.len() > d.len()) && !at(d, from, pat) {
        lemma_find_from_bounds(d, pat, from + 1);
    }
}

proof fn lemma_find_dns_param_bounds(t: Seq<u8>, from: int)
    ensures
        find_dns_param(t, from) matches Some(p) ==> from <= p && 1 <= p && p + 4 <= t.len(),
    decreases t.len() - from,
{
    if !(from < 1 || from + 4 > t.len()) && !((t[from - 1] == 63 || t[from - 1] == 38) && at(
        t,
        from,
        dns_param(),
    )) {
        lemma_find_dns_param_bounds(t, from + 1);
    }
}

/// Whether `pat` (lowercase, when `fold`) stands in `d` at `i`.
pub fn matches_at(d: &[u8], i: usize, pat: &[u8], fold: bool) -> (r: bool)
    ensures
        r == if fold {
            at_ci(d@, i as int, pat@)
        } else {
            at(d@, i as int, pat@)
        },
{
    if i > d.len() || pat.len() > d.len() - i {
        return false;
    }
    let n = d.len();
    let mut j: usize = 0;
    while j < pat.len()
        invariant
            n == d@.len(),
            j <= pat@.len(),
            i + pat@.len() <= d@.len(),
            forall|k: int|
                0 <= k < j ==> (if fold {
                    ascii_lower(d@[i + k]) == pat@[k]
                } else {
                    d@[i + k] == pat@[k]
                }),
        decreases pat@.len() - j,
    {
        let b = d[i + j];
        let c = if fold && 65 <= b && b <= 90 {
            b + 32
        } else {
            b
        };
        if c != pat[j] {
            return false;
        }
        j = j + 1;
    }
    true
}

/// The first position at or after `from` where `pat` stands in `d`.
pub fn find(d: &[u8], pat: &[u8], from: usize) -> (r: Option<usize>)
    ensures
        match find_from(d@, pat@, from as int) {
            None => r is None,
            Some(p) => r matches Some(q) && q as int == p,
        },
        r matches Some(p) ==> from <= p && p + pat@.len() <= d@.len(),
{
    proof {
        lemma_find_from_bounds(d@, pat@, from as int);
    }
    let mut i = from;
    loop
        invariant
            i >= from,
            find_from(d@, pat@, from as int) == find_from(d@, pat@, i as int),
        decreases d@.len() - i,
    {
        if i > d.len() || pat.len() > d.len() - i {
            return None;
        }
        if matches_at(d, i, pat, false) {
            return Some(i);
        }
        i = i + 1;
    }
}

fn skip_blanks_from(d: &[u8], from: usize) -> (r: usize)
    ensures
        r as int == skip_blanks(d@, from as int),
{
    let mut i = from;
    loop
        invariant
            skip_blanks(d@, from as int) == skip_blanks(d@, i as int),
        decreases d@.len() - i,
    {
        if i >= d.len() || (d[i] != 32 && d[i] != 9) {
            return i;
        }
        i = i + 1;
    }
}

fn b64_digit(c: u8) -> (r: Option<u8>)
    ensures
        match r {
            Some(v) => b64_value(c) == v as int && v < 64,
            None => b64_value(c) < 0,
        },
{
    if 65 <= c && c <= 90 {
        Some(c - 65)
    } else if 97 <= c && c <= 122 {
        Some(c - 71)
    } else if 48 <= c && c <= 57 {
        Some(c + 4)
    } else if c == 45 {
        Some(62)
    } else if c == 95 {
        Some(63)
    } else {
        None
    }
}

/// Decodes unpadded base64url text.
pub fn decode_base64url(s: &[u8]) -> (r: Option<Vec<u8>>)
    ensures
        match b64_decode(s@) {
            None => r is None,
            Some(b) => r matches Some(v) && v@ == b,
        },
{
    let mut out: Vec<u8> = Vec::new();
    let mut pos: usize = 0;
    assert(s@.subrange(0, s@.len() as int) =~= s@);
    proof {
        match b64_decode(s@) {
            Some(rest) => {
                assert(out@ + rest =~= rest);
            },
            None => {},
        }
    }
    loop
        invariant
            pos <= s@.len(),
            b64_decode(s@) == match b64_decode(s@.subrange(pos as int, s@.len() as int)) {
                None => None,
                Some(rest) => Some(out@ + rest),
            },
        decreases s@.len() - pos,
    {
        let ghost t = s@.subrange(pos as int, s@.len() as int);
        let left = s.len() - pos;
        if left == 0 {
            assert(out@ + Seq::<u8>::empty() =~= out@);
            return Some(out);
        }
        if left == 1 {
            return None;
        }
        let n: usize = if left < 4 { left } else { 4 };
        let a = match b64_digit(s[pos]) {
            Some(v) => v,
            None => {
                assert(b64_value(t[0]) < 0);
                return None;
            },
        };
        let b = match b64_digit(s[pos + 1]) {
            Some(v) => v,
            None => {
                assert(b64_value(t[1]) < 0);
                return None;
            },
        };
        let ghost before = out@;
        out.push(a * 4 + b / 16);
        let mut c: u8 = 0;
        if n >= 3 {
            c = match b64_digit(s[pos + 2]) {
                Some(v) => v,
                None => {
                    assert(b64_value(t[2]) < 0);
                    return None;
                },
            };
            out.push((b % 16) * 16 + c / 4);
        }
        if n == 4 {
            let e = match b64_digit(s[pos + 3]) {
                Some(v) => v,
                None => {
                    assert(b64_value(t[3]) < 0);
                    return None;
                },
            };
            out.push((c % 4) * 64 + e);
        }
        proof {
            let g = t.subrange(0, n as int);
            assert(!(exists|j: int| 0 <= j < n && b64_value(t[j]) < 0));
            assert(out@ =~= before + b64_group(g));
            assert(t.subrange(n as int, t.len() as int) =~= s@.subrange(pos + n, s@.len() as int));
        }
        pos = pos + n;
    }
}

/// The DNS message that the HTTP/1.1 exchange `d` carries, if any.
pub fn dns_body(d: &[u8]) -> (r: Option<Vec<u8>>)
    ensures
        match http_dns_body(d@) {
            None => r is None,
            Some(b) => r matches Some(v) && v@ == b,
        },
{
    let crlf2: Vec<u8> = vec![13, 10, 13, 10];
    assert(crlf2@ =~= crlfcrlf());
    let e = match find(d, crlf2.as_slice(), 0) {
        Some(e) => e,
        None => return None,
    };
    assert(crlf2@.len() == 4);
    let dl = d.len();
    assert(e + 4 <= dl);
    let head = &d[0..e];
    assert(head@ == d@.subrange(0, e as int));
    assert(find_from(d@, crlfcrlf(), 0) == Some(e as int));
    let get: Vec<u8> = vec![71, 69, 84, 32];
    assert(get@ =~= get_method());
    if matches_at(head, 0, get.as_slice(), false) {
        let space: Vec<u8> = vec![32];
        assert(space@ =~= seq![32u8]);
        let end = match find(head, space.as_slice(), 4) {
            Some(s) => s,
            None => head.len(),
        };
        assert(at(head@, 0, get_method()));
        assert(end as int == match find_from(head@, seq![32u8], 4) {
            Some(s) => s,
            None => head@.len() as int,
        });
        let t = &head[4..end];
        assert(t@ == head@.subrange(4, end as int));
        let p = match find_param(t) {
            Some(p) => p,
            None => {
                assert(http_dns_body(d@) is None);
                return None;
            },
        };
        let amp: Vec<u8> = vec![38];
        assert(amp@ =~= seq![38u8]);
        let vend = match find(t, amp.as_slice(), p + 4) {
            Some(a) => a,
            None => t.len(),
        };
        let v = &t[p + 4..vend];
        assert(v@ == t@.subrange(p + 4, vend as int));
        decode_base64url(v)
    } else if has_content_type(head) {
        Some(crate::wire::copy_bytes(d, e + 4, dl))
    } else {
        None
    }
}

fn find_param(t: &[u8]) -> (r: Option<usize>)
    ensures
        match find_dns_param(t@, 1) {
            None => r is None,
            Some(p) => r matches Some(q) && q as int == p,
        },
        r matches Some(p) ==> 1 <= p && p + 4 <= t@.len(),
{
    proof {
        lemma_find_dns_param_bounds(t@, 1);
    }
    let pat: Vec<u8> = vec![100, 110, 115, 61];
    assert(pat@ =~= dns_param());
    let mut i: usize = 1;
    loop
        invariant
            i >= 1,
            pat@ == dns_param(),
            find_dns_param(t@, 1) == find_dns_param(t@, i as int),
        decreases t@.len() - i,
    {
        if i > t.len() || 4 > t.len() - i {
            return None;
        }
        if (t[i - 1] == 63 || t[i - 1] == 38) && matches_at(t, i, pat.as_slice(), false) {
            return Some(i);
        }
        i = i + 1;
    }
}

fn has_content_type(h: &[u8]) -> (r: bool)
    ensures
        r == has_dns_type(h@),
{
    let name: Vec<u8> = vec![99, 111, 110, 116, 101, 110, 116, 45, 116, 121, 112, 101, 58];
    assert(name@ =~= content_type_name());
    let value: Vec<u8> = vec![
        97, 112, 112, 108, 105, 99, 97, 116, 105, 111, 110, 47, 100, 110, 115, 45, 109, 101, 115,
        115, 97, 103, 101,
    ];
    assert(value@ =~= dns_message_type());
    let mut i: usize = 0;
    while i < h.len()
        invariant
            i <= h@.len(),
            name@ == content_type_name(),
            value@ == dns_message_type(),
            forall|k: int| 0 <= k < i ==> !dns_type_at(h@, k),
        decreases h@.len() - i,
    {
        let line_start = i == 0 || (i >= 2 && h[i - 2] == 13 && h[i - 1] == 10);
        if line_start && matches_at(h, i, name.as_slice(), true) {
            let v = skip_blanks_from(h, i + 13);
            if matches_at(h, v, value.as_slice(), true) {
                assert(dns_type_at(h@, i as int));
                return true;
            }
        }
        i = i + 1;
    }
    false
}

} // verus!
