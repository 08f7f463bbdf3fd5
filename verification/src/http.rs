//! The minimal HTTP/1.1 framing of key exchange: request heads, bodies and response texts.
use vstd::prelude::*;
use vstd::utf8::{encode_utf8, valid_utf8};

use crate::text::{
    append_char, ascii_lowercase, chars_eq_str, chars_of, decimal, decimal_string, is_whitespace,
    parse_unsigned, parse_unsigned_vec, split, split_once, split_once_vec, split_vec, string_of,
    trim, trim_end, trim_start, trim_vec, views, lowercase_vec, char_is_whitespace,
};

verus! {

/// Requests whose head is not complete within this many bytes are refused.
pub const MAX_REQUEST_HEAD_BYTES: usize = 65536;

/// The blank line that ends an HTTP head.
pub open spec fn head_terminator() -> Seq<u8> {
    seq![13u8, 10u8, 13u8, 10u8]
}

pub open spec fn matches_at(h: Seq<u8>, n: Seq<u8>, i: int) -> bool {
    0 <= i && i + n.len() <= h.len() && h.subrange(i, i + n.len()) == n
}

/// The first position at which `needle` occurs in `haystack`.
pub fn find_subslice(haystack: &[u8], needle: &[u8]) -> (r: Option<usize>)
    requires
        needle@.len() > 0,
    ensures
        match r {
            Some(i) => matches_at(haystack@, needle@, i as int) && forall|j: int| 0 <= j < i ==> !matches_at(haystack@, needle@, j),
            None => forall|j: int| !matches_at(haystack@, needle@, j),
        },
{
    let n = needle.len();
    if n > haystack.len() {
        return None;
    }
    let mut i: usize = 0;
    while i <= haystack.len() - n
        invariant
            n == needle@.len(),
            n <= haystack@.len(),
            i <= haystack@.len() - n + 1,
            forall|j: int| 0 <= j < i ==> !matches_at(haystack@, needle@, j),
        decreases haystack.len() - i,
    {
        let mut k: usize = 0;
        let mut same = true;
        while k < n
            invariant
                n == needle@.len(),
                i + n <= haystack.len(),
                k <= n,
                same == forall|m: int| 0 <= m < k ==> haystack@[i + m] == needle@[m],
            decreases n - k,
        {
            if haystack[i + k] != needle[k] {
                same = false;
            }
            k += 1;
        }
        if same {
            assert(haystack@.subrange(i as int, i + n) =~= needle@);
            return Some(i);
        }
        assert(!matches_at(haystack@, needle@, i as int)) by {
            let m = choose|m: int| 0 <= m < n && haystack@[i + m] != needle@[m];
            assert(haystack@.subrange(i as int, i + n)[m] == haystack@[i + m]);
        }
        i += 1;
    }
    None
}

/// Where reading a request head stands.
#[derive(Debug, Clone, PartialEq, Eq, Structural)]
pub enum HeadScan {
    /// The head ends just before `header_end`, after its blank line.
    Complete { header_end: usize },
    /// No blank line within the allowed size.
    TooLarge,
    /// Read more.
    NeedMore,
}

fn terminator() -> (r: Vec<u8>)
    ensures
        r@ == head_terminator(),
{
    let mut r: Vec<u8> = Vec::new();
    r.push(13u8);
    r.push(10u8);
    r.push(13u8);
    r.push(10u8);
    assert(r@ =~= head_terminator());
    r
}

/// Decides, after each read, whether the request head is complete.
pub fn scan_request_head(data: &[u8]) -> (r: HeadScan)
    ensures
        match r {
            HeadScan::Complete { header_end } => exists|i: int| #[trigger] matches_at(data@, head_terminator(), i)
                && header_end == i + 4 && forall|j: int| 0 <= j < i ==> !matches_at(data@, head_terminator(), j),
            HeadScan::TooLarge => (forall|j: int| !matches_at(data@, head_terminator(), j)) && data@.len() > MAX_REQUEST_HEAD_BYTES,
            HeadScan::NeedMore => (forall|j: int| !matches_at(data@, head_terminator(), j)) && data@.len() <= MAX_REQUEST_HEAD_BYTES,
        },
{
    let t = terminator();
    match find_subslice(data, t.as_slice()) {
        Some(index) => {
            assert(matches_at(data@, head_terminator(), index as int));
            assert(index + 4 <= data.len());
            HeadScan::Complete { header_end: index + 4 }
        },
        None => if data.len() > MAX_REQUEST_HEAD_BYTES {
            HeadScan::TooLarge
        } else {
            HeadScan::NeedMore
        },
    }
}

/// The maximal runs of non-whitespace characters found so far, and the run in progress.
pub open spec fn words_acc(s: Seq<char>) -> (Seq<Seq<char>>, Seq<char>)
    decreases s.len(),
{
    if s.len() == 0 {
        (Seq::empty(), Seq::empty())
    } else {
        let (ws, cur) = words_acc(s.drop_last());
        if is_whitespace(s.last()) {
            if cur.len() > 0 {
                (ws.push(cur), Seq::empty())
            } else {
                (ws, Seq::empty())
            }
        } else {
            (ws, cur.push(s.last()))
        }
    }
}

/// What `str::split_whitespace` yields: the maximal runs of non-whitespace characters.
pub open spec fn words(s: Seq<char>) -> Seq<Seq<char>> {
    let (ws, cur) = words_acc(s);
    if cur.len() > 0 {
        ws.push(cur)
    } else {
        ws
    }
}

/// The whitespace-separated words of a text.
pub fn split_words(v: &[char]) -> (r: Vec<Vec<char>>)
    ensures
        views(r@) == words(v@),
{
    let mut out: Vec<Vec<char>> = Vec::new();
    let mut cur: Vec<char> = Vec::new();
    let mut i: usize = 0;
    while i < v.len()
        invariant
            i <= v@.len(),
            words_acc(v@.take(i as int)) == (views(out@), cur@),
        decreases v.len() - i,
    {
        let c = v[i];
        proof {
            assert(v@.take(i + 1).drop_last() == v@.take(i as int));
            assert(v@.take(i + 1).last() == c);
        }
        if char_is_whitespace(c) {
            if cur.len() > 0 {
                let ghost before = views(out@);
                out.push(cur);
                cur = Vec::new();
                assert(views(out@) =~= before.push(views(out@).last()));
            } else {
                cur = Vec::new();
                assert(cur@ =~= Seq::<char>::empty());
            }
        } else {
            cur.push(c);
        }
        i += 1;
    }
    assert(v@.take(v@.len() as int) == v@);
    if cur.len() > 0 {
        let ghost before = views(out@);
        out.push(cur);
        assert(views(out@) =~= before.push(views(out@).last()));
    }
    out
}

/// Why a request could not be read.
#[derive(Debug, Clone, PartialEq, Eq, Structural)]
pub enum HttpRequestError {
    MissingMethod,
    MissingPath,
    ShortBody,
}

/// The parts of a request head that key exchange uses.
#[derive(Debug, Clone, PartialEq, Eq)]
pub struct RequestHead {
    pub path: String,
    pub content_length: usize,
}

/// The length a header line sets, if it is a `Content-Length` header (name in any ASCII
/// case, untrimmed) with a valid `usize` value.
pub open spec fn content_length_of(line: Seq<char>) -> Option<usize> {
    match split_once(line, ':') {
        Some((name, value)) => if ascii_lowercase(name) == "content-length"@ {
            match parse_unsigned(trim(value), usize::MAX as nat) {
                Some(n) => Some(n as usize),
                None => None,
            }
        } else {
            None
        },
        None => None,
    }
}

/// The body length the header lines declare: the last valid `Content-Length`, else 0.
pub open spec fn declared_length(lines: Seq<Seq<char>>) -> usize
    decreases lines.len(),
{
    if lines.len() == 0 {
        0
    } else {
        match content_length_of(lines.last()) {
            Some(n) => n,
            None => declared_length(lines.drop_last()),
        }
    }
}

pub open spec fn spec_request_head(head: Seq<char>) -> Result<(Seq<char>, usize), HttpRequestError> {
    let lines = split(head, '\n');
    let w = words(lines[0]);
    if w.len() == 0 {
        Err(HttpRequestError::MissingMethod)
    } else if w.len() == 1 {
        Err(HttpRequestError::MissingPath)
    } else {
        Ok((w[1], declared_length(lines.drop_first())))
    }
}

fn header_content_length(line: &[char]) -> (r: Option<usize>)
    ensures
        r == content_length_of(line@),
{
    match split_once_vec(line, ':') {
        Some((name, value)) => {
            let lower = lowercase_vec(name.as_slice());
            if chars_eq_str(lower.as_slice(), "content-length") {
                let t = trim_vec(value.as_slice());
                match parse_unsigned_vec(t.as_slice(), usize::MAX as u64) {
                    Some(n) => Some(n as usize),
                    None => None,
                }
            } else {
                None
            }
        },
        None => None,
    }
}

/// Reads the request path (the second word of the request line) and the declared body
/// length from the text of a request head.
pub fn parse_request_head(head: &str) -> (r: Result<RequestHead, HttpRequestError>)
    ensures
        match r {
            Ok(h) => spec_request_head(head@) == Ok::<(Seq<char>, usize), HttpRequestError>((h.path@, h.content_length)),
            Err(e) => spec_request_head(head@) == Err::<(Seq<char>, usize), HttpRequestError>(e),
        },
{
    let chars = chars_of(head);
    let lines = split_vec(chars.as_slice(), '\n');
    proof {
        crate::text::lemma_split_nonempty(head@, '\n');
    }
    let w = split_words(lines[0].as_slice());
    if w.len() == 0 {
        return Err(HttpRequestError::MissingMethod);
    }
    if w.len() == 1 {
        return Err(HttpRequestError::MissingPath);
    }
    let path = string_of(w[1].as_slice());
    let ghost rest = views(lines@).drop_first();
    let mut content_length: usize = 0;
    let mut i: usize = 1;
    while i < lines.len()
        invariant
            1 <= i <= lines@.len(),
            views(lines@) == split(head@, '\n'),
            rest == views(lines@).drop_first(),
            content_length == declared_length(rest.take(i - 1)),
        decreases lines.len() - i,
    {
        proof {
            assert(rest.take(i as int).drop_last() == rest.take(i - 1));
            assert(rest.take(i as int).last() == lines@[i as int]@);
        }
        match header_content_length(lines[i].as_slice()) {
            Some(n) => {
                content_length = n;
            },
            None => {},
        }
        i += 1;
    }
    assert(rest.take(lines@.len() - 1) == rest);
    assert(views(w@)[1] == w@[1]@);
    Ok(RequestHead { path, content_length })
}

/// What `String::from_utf8_lossy` gives for these bytes.
pub uninterp spec fn utf8_lossy(bytes: Seq<u8>) -> Seq<char>;

/// Calls `String::from_utf8_lossy`: the text of the bytes, each invalid UTF-8 sequence
/// replaced by U+FFFD. Claimed: its result is a function of the bytes alone, named
/// `utf8_lossy`, and for valid UTF-8 it is the text those bytes encode. How invalid
/// sequences are split into replacement characters is left unsaid.
#[verifier::external_body]
fn decode_utf8_lossy(bytes: &[u8]) -> (r: String)
    ensures
        r@ == utf8_lossy(bytes@),
        valid_utf8(bytes@) ==> encode_utf8(r@) == bytes@,
{
    String::from_utf8_lossy(bytes).into_owned()
}

fn copy_bytes(data: &[u8], lo: usize, hi: usize) -> (r: Vec<u8>)
    requires
        lo <= hi <= data@.len(),
    ensures
        r@ == data@.subrange(lo as int, hi as int),
{
    let mut r: Vec<u8> = Vec::new();
    let mut i = lo;
    while i < hi
        invariant
            lo <= i <= hi <= data@.len(),
            r@ == data@.subrange(lo as int, i as int),
        decreases hi - i,
    {
        r.push(data[i]);
        i += 1;
        assert(data@.subrange(lo as int, i as int) == data@.subrange(lo as int, i - 1).push(data@[i - 1]));
    }
    r
}

/// The text of a request head: its bytes before `header_end`, decoded lossily.
pub fn request_head_text(data: &[u8], header_end: usize) -> (r: String)
    requires
        header_end <= data@.len(),
    ensures
        r@ == utf8_lossy(data@.subrange(0, header_end as int)),
{
    let head = copy_bytes(data, 0, header_end);
    decode_utf8_lossy(head.as_slice())
}

/// The request body: the `content_length` bytes after the head, decoded lossily; refused
/// when fewer bytes arrived.
pub fn request_body(data: &[u8], header_end: usize, content_length: usize) -> (r: Result<String, HttpRequestError>)
    requires
        header_end <= data@.len(),
        header_end + content_length <= usize::MAX,
    ensures
        match r {
            Ok(b) => header_end + content_length <= data@.len()
                && b@ == utf8_lossy(data@.subrange(header_end as int, header_end + content_length)),
            Err(e) => header_end + content_length > data@.len() && e == HttpRequestError::ShortBody,
        },
{
    let end = header_end + content_length;
    if data.len() < end {
        return Err(HttpRequestError::ShortBody);
    }
    let body = copy_bytes(data, header_end, end);
    Ok(decode_utf8_lossy(body.as_slice()))
}

/// The reason phrase sent with a status code.
pub open spec fn reason_phrase(status_code: u16) -> Seq<char> {
    if status_code == 200 {
        "OK"@
    } else if status_code == 400 {
        "Bad Request"@
    } else if status_code == 401 {
        "Unauthorized"@
    } else if status_code == 404 {
        "Not Found"@
    } else {
        "Error"@
    }
}

fn reason_text(status_code: u16) -> (r: &'static str)
    ensures
        r@ == reason_phrase(status_code),
{
    if status_code == 200 {
        "OK"
    } else if status_code == 400 {
        "Bad Request"
    } else if status_code == 401 {
        "Unauthorized"
    } else if status_code == 404 {
        "Not Found"
    } else {
        "Error"
    }
}

/// The head of a plain-text response.
pub open spec fn spec_response_head(status_code: u16, body_len: usize) -> Seq<char> {
    "HTTP/1.1 "@ + decimal(status_code as nat) + " "@ + reason_phrase(status_code)
        + "\r\nContent-Type: text/plain\r\nContent-Length: "@ + decimal(body_len as nat)
        + "\r\nConnection: close\r\n\r\n"@
}

pub fn response_head(status_code: u16, body_len: usize) -> (r: String)
    ensures
        r@ == spec_response_head(status_code, body_len),
{
    let mut r = "HTTP/1.1 ".to_owned();
    let code = decimal_string(status_code as u128);
    r.append(code.as_str());
    r.append(" ");
    r.append(reason_text(status_code));
    r.append("\r\nContent-Type: text/plain\r\nContent-Length: ");
    let len = decimal_string(body_len as u128);
    r.append(len.as_str());
    r.append("\r\nConnection: close\r\n\r\n");
    r
}

/// The full text of a POST request with a plain-text body; the length is in bytes.
pub open spec fn spec_post_request(address: Seq<char>, port: u16, path: Seq<char>, body: Seq<char>, body_bytes: nat) -> Seq<char> {
    "POST "@ + path + " HTTP/1.1\r\nHost: "@ + address + ":"@ + decimal(port as nat)
        + "\r\nContent-Type: text/plain\r\nContent-Length: "@ + decimal(body_bytes)
        + "\r\nConnection: close\r\n\r\n"@ + body
}

pub fn post_request(address: &str, port: u16, path: &str, body: &str) -> (r: String)
    ensures
        r@ == spec_post_request(address@, port, path@, body@, body.len() as nat),
{
    let mut r = "POST ".to_owned();
    r.append(path);
    r.append(" HTTP/1.1\r\nHost: ");
    r.append(address);
    r.append(":");
    let p = decimal_string(port as u128);
    r.append(p.as_str());
    r.append("\r\nContent-Type: text/plain\r\nContent-Length: ");
    let n = decimal_string(body.len() as u128);
    r.append(n.as_str());
    r.append("\r\nConnection: close\r\n\r\n");
    r.append(body);
    r
}

/// The body of a response: the bytes after its head, decoded lossily; none when the
/// response has no complete head.
pub fn response_body(response: &[u8]) -> (r: Option<String>)
    ensures
        match r {
            Some(b) => exists|i: int| #[trigger] matches_at(response@, head_terminator(), i)
                && (forall|j: int| 0 <= j < i ==> !matches_at(response@, head_terminator(), j))
                && b@ == utf8_lossy(response@.subrange(i + 4, response@.len() as int)),
            None => forall|j: int| !matches_at(response@, head_terminator(), j),
        },
{
    let t = terminator();
    match find_subslice(response, t.as_slice()) {
        Some(i) => {
            assert(matches_at(response@, head_terminator(), i as int));
            assert(i + 4 <= response.len());
            let body = copy_bytes(response, i + 4, response.len());
            Some(decode_utf8_lossy(body.as_slice()))
        },
        None => None,
    }
}


/// How the key-exchange service dealt with one request.
pub enum ExchangeOutcome {
    /// The body was no envelope.
    BadEnvelope,
    /// The path names no service.
    UnknownPath,
    /// The service refused the envelope.
    Rejected,
    /// The service answered with an envelope.
    Answered(crate::envelope::SignedEnvelope),
}

/// The status code and body sent back for each outcome.
pub open spec fn spec_reply(outcome: ExchangeOutcome) -> (u16, Seq<char>) {
    match outcome {
        ExchangeOutcome::BadEnvelope => (400, "invalid envelope"@),
        ExchangeOutcome::UnknownPath => (404, "not found"@),
        ExchangeOutcome::Rejected => (401, "verification failed"@),
        ExchangeOutcome::Answered(e) => (200, crate::envelope::serialized(e@)),
    }
}

/// The reply to a key-exchange request.
pub fn exchange_reply(outcome: &ExchangeOutcome) -> (r: (u16, String))
    ensures
        (r.0, r.1@) == spec_reply(*outcome),
{
    match outcome {
        ExchangeOutcome::BadEnvelope => (400, "invalid envelope".to_owned()),
        ExchangeOutcome::UnknownPath => (404, "not found".to_owned()),
        ExchangeOutcome::Rejected => (401, "verification failed".to_owned()),
        ExchangeOutcome::Answered(e) => (200, crate::envelope::serialize_envelope(e)),
    }
}


/// The outcome of one request: an unreadable envelope first, then an unknown path, then
/// the service's answer or refusal.
pub open spec fn spec_outcome(
    envelope_parsed: bool,
    known_path: bool,
    answer: Result<crate::envelope::EnvelopeView, ()>,
) -> ExchangeOutcomeView {
    if !envelope_parsed {
        ExchangeOutcomeView::BadEnvelope
    } else if !known_path {
        ExchangeOutcomeView::UnknownPath
    } else {
        match answer {
            Ok(e) => ExchangeOutcomeView::Answered(e),
            Err(_) => ExchangeOutcomeView::Rejected,
        }
    }
}

pub enum ExchangeOutcomeView {
    BadEnvelope,
    UnknownPath,
    Rejected,
    Answered(crate::envelope::EnvelopeView),
}

impl View for ExchangeOutcome {
    type V = ExchangeOutcomeView;

    open spec fn view(&self) -> ExchangeOutcomeView {
        match self {
            ExchangeOutcome::BadEnvelope => ExchangeOutcomeView::BadEnvelope,
            ExchangeOutcome::UnknownPath => ExchangeOutcomeView::UnknownPath,
            ExchangeOutcome::Rejected => ExchangeOutcomeView::Rejected,
            ExchangeOutcome::Answered(e) => ExchangeOutcomeView::Answered(e@),
        }
    }
}

/// Chooses the outcome of a request from whether its body parsed as an envelope, whether
/// its path names a service, and what that service answered (consulted only when both
/// checks pass).
pub fn exchange_outcome(
    envelope_parsed: bool,
    known_path: bool,
    answer: Result<crate::envelope::SignedEnvelope, ()>,
) -> (r: ExchangeOutcome)
    ensures
        r@ == spec_outcome(
            envelope_parsed,
            known_path,
            match answer {
                Ok(e) => Ok(e@),
                Err(u) => Err(u),
            },
        ),
{
    if !envelope_parsed {
        ExchangeOutcome::BadEnvelope
    } else if !known_path {
        ExchangeOutcome::UnknownPath
    } else {
        match answer {
            Ok(e) => ExchangeOutcome::Answered(e),
            Err(_) => ExchangeOutcome::Rejected,
        }
    }
}

// ---------------------------------------------------------------------------
// Laws
// ---------------------------------------------------------------------------

/// A `Content-Length: <n>` header line (name in any ASCII case, the line ending in `\r`)
/// sets the body length to `n`, for every `usize`, and a later such line overrides every
/// earlier header line.
pub proof fn law_content_length_header(lines: Seq<Seq<char>>, name: Seq<char>, n: usize)
    requires
        ascii_lowercase(name) == "content-length"@,
    ensures
        content_length_of(name + ": "@ + decimal(n as nat) + "\r"@) == Some(n),
        declared_length(lines.push(name + ": "@ + decimal(n as nat) + "\r"@)) == n,
{
    reveal_strlit("content-length");
    reveal_strlit(": ");
    reveal_strlit("\r");
    let d = decimal(n as nat);
    crate::text::law_decimal_roundtrip(n as nat, usize::MAX as nat);
    let lower = "content-length"@;
    assert forall|j: int| 0 <= j < lower.len() implies lower[j] != ':' by {
        assert(lower =~= seq!['c', 'o', 'n', 't', 'e', 'n', 't', '-', 'l', 'e', 'n', 'g', 't', 'h']);
    }
    assert(!name.contains(':')) by {
        if name.contains(':') {
            let i = choose|i: int| 0 <= i < name.len() && name[i] == ':';
            assert(ascii_lowercase(name)[i] == ':');
            assert(lower[i] != ':');
        }
    }
    let v = seq![' '] + d + seq!['\r'];
    let line = name + ": "@ + d + "\r"@;
    assert(line =~= name.push(':') + v);
    crate::text::lemma_split_once_concat(name, ':', v);
    assert(crate::text::is_digit(d[0]));
    assert(crate::text::is_digit(d[d.len() - 1]));
    assert(v.drop_first() =~= d + seq!['\r']);
    assert(trim_start(v) == trim_start(d + seq!['\r']));
    assert((d + seq!['\r'])[0] == d[0]);
    assert(trim_start(d + seq!['\r']) == d + seq!['\r']);
    assert((d + seq!['\r']).drop_last() =~= d);
    assert(trim_end(d + seq!['\r']) == trim_end(d));
    assert(d.last() == d[d.len() - 1]);
    assert(trim_end(d) == d);
    assert(trim(v) == d);
    assert(lines.push(line).drop_last() == lines);
}

/// A run of non-whitespace characters extends the word in progress.
proof fn lemma_words_acc_run(s: Seq<char>, t: Seq<char>)
    requires
        forall|i: int| 0 <= i < t.len() ==> !is_whitespace(#[trigger] t[i]),
    ensures
        words_acc(s + t) == (words_acc(s).0, words_acc(s).1 + t),
    decreases t.len(),
{
    if t.len() == 0 {
        assert(s + t =~= s);
        assert(words_acc(s).1 + t =~= words_acc(s).1);
    } else {
        let t2 = t.drop_last();
        assert forall|i: int| 0 <= i < t2.len() implies !is_whitespace(#[trigger] t2[i]) by {
            assert(t2[i] == t[i]);
        }
        lemma_words_acc_run(s, t2);
        assert((s + t).drop_last() =~= s + t2);
        assert((s + t).last() == t[t.len() - 1]);
        assert((words_acc(s).1 + t2).push(t.last()) =~= words_acc(s).1 + t);
    }
}

/// A whitespace character ends the word in progress, if any.
proof fn lemma_words_acc_space(s: Seq<char>, c: char)
    requires
        is_whitespace(c),
    ensures
        words_acc(s.push(c)) == (if words_acc(s).1.len() > 0 {
            words_acc(s).0.push(words_acc(s).1)
        } else {
            words_acc(s).0
        }, Seq::<char>::empty()),
{
    assert(s.push(c).drop_last() == s);
}

proof fn lemma_free_concat(s: Seq<char>, t: Seq<char>, c: char)
    requires
        !s.contains(c),
        !t.contains(c),
    ensures
        !(s + t).contains(c),
{
    if (s + t).contains(c) {
        let i = choose|i: int| 0 <= i < (s + t).len() && (s + t)[i] == c;
        if i < s.len() {
            assert(s[i] == c);
        } else {
            assert(t[i - s.len()] == c);
        }
    }
}

proof fn lemma_word_free_of_newline(w: Seq<char>)
    requires
        forall|i: int| 0 <= i < w.len() ==> !is_whitespace(#[trigger] w[i]),
    ensures
        !w.contains('\n'),
{
    if w.contains('\n') {
        let i = choose|i: int| 0 <= i < w.len() && w[i] == '\n';
        assert(!is_whitespace(w[i]));
    }
}

/// A request head `<method> <path> <version>\r\n<header lines>` (method, path and version
/// each a word without whitespace) gives the path and the body length its header lines
/// declare.
pub proof fn law_request_line(method: Seq<char>, path: Seq<char>, version: Seq<char>, headers: Seq<char>)
    requires
        method.len() > 0,
        path.len() > 0,
        version.len() > 0,
        forall|i: int| 0 <= i < method.len() ==> !is_whitespace(#[trigger] method[i]),
        forall|i: int| 0 <= i < path.len() ==> !is_whitespace(#[trigger] path[i]),
        forall|i: int| 0 <= i < version.len() ==> !is_whitespace(#[trigger] version[i]),
    ensures
        spec_request_head(method + " "@ + path + " "@ + version + "\r\n"@ + headers) == Ok::<
            (Seq<char>, usize),
            HttpRequestError,
        >((path, declared_length(split(headers, '\n')))),
{
    reveal_strlit(" ");
    reveal_strlit("\r\n");
    let e = Seq::<char>::empty();
    assert(words_acc(e) == (Seq::<Seq<char>>::empty(), e));
    lemma_words_acc_run(e, method);
    assert(e + method =~= method);
    let a2 = method.push(' ');
    lemma_words_acc_space(method, ' ');
    let a3 = a2 + path;
    lemma_words_acc_run(a2, path);
    assert(e + path =~= path);
    let a4 = a3.push(' ');
    lemma_words_acc_space(a3, ' ');
    let a5 = a4 + version;
    lemma_words_acc_run(a4, version);
    assert(e + version =~= version);
    let a6 = a5.push('\r');
    lemma_words_acc_space(a5, '\r');
    assert(words_acc(a6) == (seq![method, path, version], e));
    assert(words(a6) == seq![method, path, version]);
    let head = method + " "@ + path + " "@ + version + "\r\n"@ + headers;
    assert(head =~= a6.push('\n') + headers);
    crate::text::lemma_split_after_sep(a6, '\n', headers);
    lemma_word_free_of_newline(method);
    lemma_word_free_of_newline(path);
    lemma_word_free_of_newline(version);
    lemma_free_concat(method, seq![' '], '\n');
    lemma_free_concat(a2, path, '\n');
    lemma_free_concat(a3, seq![' '], '\n');
    lemma_free_concat(a4, version, '\n');
    lemma_free_concat(a5, seq!['\r'], '\n');
    assert(a2 =~= method + seq![' ']);
    assert(a4 =~= a3 + seq![' ']);
    assert(a6 =~= a5 + seq!['\r']);
    crate::text::lemma_split_append_plain(e, a6, '\n');
    assert(split(e, '\n') == seq![e]);
    assert(e + a6 =~= a6);
    assert(split(a6, '\n') =~= seq![a6]);
    let lines = split(head, '\n');
    assert(lines =~= seq![a6] + split(headers, '\n'));
    assert(lines[0] == a6);
    assert(lines.drop_first() =~= split(headers, '\n'));
}

} // verus!
