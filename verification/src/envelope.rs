//! The line-based wire format of signed envelopes, and its hex body encoding.
use vstd::prelude::*;

use crate::key_values::{distinct_keys, entries_map, lemma_entries_map_value, KeyValues};
use crate::runtime::{RuntimeError, RuntimeErrorView};
use crate::text::{
    append_char, chars_of, decimal, decimal_string, is_trimmed, law_decimal_roundtrip,
    lemma_split_append_plain, lemma_split_once_concat, lemma_split_push_sep, lemma_trim_of_trimmed, parse_unsigned, parse_unsigned_vec,
    split, split_once, split_once_vec, split_vec, string_of, trim, trim_vec, views,
};

verus! {

/// What a signature covers besides the body: the HTTP exchange or announcement it belongs to.
#[derive(Debug, Clone, PartialEq, Eq)]
pub enum MessageContext {
    HttpRequest { method: String, path: String },
    HttpResponse { status_code: u16, path: String },
    UdpAnnouncement,
}

pub enum MessageContextView {
    HttpRequest { method: Seq<char>, path: Seq<char> },
    HttpResponse { status_code: u16, path: Seq<char> },
    UdpAnnouncement,
}

impl View for MessageContext {
    type V = MessageContextView;

    open spec fn view(&self) -> MessageContextView {
        match self {
            MessageContext::HttpRequest { method, path } => MessageContextView::HttpRequest {
                method: method@,
                path: path@,
            },
            MessageContext::HttpResponse { status_code, path } => MessageContextView::HttpResponse {
                status_code: *status_code,
                path: path@,
            },
            MessageContext::UdpAnnouncement => MessageContextView::UdpAnnouncement,
        }
    }
}

/// A SID-scoped message with its signature.
#[derive(Debug, Clone, PartialEq, Eq)]
pub struct SignedEnvelope {
    pub sid: String,
    pub sender_id: String,
    pub timestamp_secs: u64,
    pub nonce: String,
    pub context: MessageContext,
    pub body: Vec<u8>,
    pub signature_hex: String,
}

pub struct EnvelopeView {
    pub sid: Seq<char>,
    pub sender_id: Seq<char>,
    pub timestamp_secs: u64,
    pub nonce: Seq<char>,
    pub context: MessageContextView,
    pub body: Seq<u8>,
    pub signature_hex: Seq<char>,
}

impl View for SignedEnvelope {
    type V = EnvelopeView;

    open spec fn view(&self) -> EnvelopeView {
        EnvelopeView {
            sid: self.sid@,
            sender_id: self.sender_id@,
            timestamp_secs: self.timestamp_secs,
            nonce: self.nonce@,
            context: self.context@,
            body: self.body@,
            signature_hex: self.signature_hex@,
        }
    }
}

// ---------------------------------------------------------------------------
// Hex
// ---------------------------------------------------------------------------

/// The lowercase hex digit for `n < 16`.
pub open spec fn hex_digit(n: nat) -> char {
    if n < 10 {
        ((n + 48) as u8) as char
    } else {
        ((n + 87) as u8) as char
    }
}

/// Lowercase hex notation of bytes, two digits per byte, high nibble first.
pub open spec fn hex_text(b: Seq<u8>) -> Seq<char>
    decreases b.len(),
{
    if b.len() == 0 {
        Seq::empty()
    } else {
        hex_text(b.drop_last()).push(hex_digit(b.last() as nat / 16)).push(
            hex_digit(b.last() as nat % 16),
        )
    }
}

/// The value of one hex digit of either case.
pub open spec fn spec_decode_nibble(value: u8) -> Option<u8> {
    if 48 <= value <= 57 {
        Some((value - 48) as u8)
    } else if 97 <= value <= 102 {
        Some((value - 87) as u8)
    } else if 65 <= value <= 70 {
        Some((value - 55) as u8)
    } else {
        None
    }
}

/// The value of a hex digit character; characters outside ASCII are no digit.
pub open spec fn hex_char_value(c: char) -> Option<u8> {
    if (c as u32) < 128 {
        spec_decode_nibble((c as u32) as u8)
    } else {
        None
    }
}

/// The bytes that hex text denotes: an even number of hex digits of either case.
pub open spec fn hex_decode(s: Seq<char>) -> Option<Seq<u8>>
    decreases s.len(),
{
    if s.len() % 2 == 1 {
        None
    } else if s.len() == 0 {
        Some(Seq::empty())
    } else {
        match (hex_decode(s.take(s.len() - 2)), hex_char_value(s[s.len() - 2]), hex_char_value(s[s.len() - 1])) {
            (Some(p), Some(h), Some(l)) => Some(p.push((h * 16 + l) as u8)),
            _ => None,
        }
    }
}

/// Decodes one hex digit.
pub fn decode_nibble(value: u8) -> (r: Option<u8>)
    ensures
        r == spec_decode_nibble(value),
{
    if 48u8 <= value && value <= 57u8 {
        Some(value - 48u8)
    } else if 97u8 <= value && value <= 102u8 {
        Some(value - 87u8)
    } else if 65u8 <= value && value <= 70u8 {
        Some(value - 55u8)
    } else {
        None
    }
}

fn hex_value_of(c: char) -> (r: Option<u8>)
    ensures
        r == hex_char_value(c),
{
    let u = c as u32;
    if u < 128 {
        decode_nibble(u as u8)
    } else {
        None
    }
}

fn hex_digit_char(n: u8) -> (r: char)
    requires
        n < 16,
    ensures
        r == hex_digit(n as nat),
{
    if n < 10 {
        (n + 48) as char
    } else {
        (n + 87) as char
    }
}

/// Lowercase hex encoding of bytes.
pub fn to_hex(bytes: &[u8]) -> (r: String)
    ensures
        r@ == hex_text(bytes@),
{
    let mut out = String::new();
    let mut i: usize = 0;
    while i < bytes.len()
        invariant
            i <= bytes@.len(),
            out@ == hex_text(bytes@.take(i as int)),
        decreases bytes.len() - i,
    {
        let byte = bytes[i];
        append_char(&mut out, hex_digit_char(byte / 16));
        append_char(&mut out, hex_digit_char(byte % 16));
        i += 1;
        assert(bytes@.take(i as int).drop_last() == bytes@.take(i - 1));
    }
    assert(bytes@.take(bytes@.len() as int) == bytes@);
    out
}

pub proof fn lemma_hex_decode_prefix(s: Seq<char>, k: int)
    requires
        0 <= k <= s.len(),
        k % 2 == 0,
        hex_decode(s) is Some,
    ensures
        hex_decode(s.take(k)) is Some,
    decreases s.len(),
{
    if k < s.len() {
        assert(s.len() % 2 == 0);
        assert(s.take(s.len() - 2).take(k) == s.take(k));
        lemma_hex_decode_prefix(s.take(s.len() - 2), k);
    } else {
        assert(s.take(k) == s);
    }
}

/// Decodes hex text of either case; `None` unless it is an even number of hex digits.
pub fn from_hex(value: &str) -> (r: Option<Vec<u8>>)
    ensures
        match r {
            Some(b) => hex_decode(value@) == Some(b@),
            None => hex_decode(value@) is None,
        },
{
    let v = chars_of(value);
    let n = v.len();
    if n % 2 != 0 {
        return None;
    }
    let mut out: Vec<u8> = Vec::new();
    let mut idx: usize = 0;
    while idx < n
        invariant
            idx <= n == v@.len(),
            v@ == value@,
            n % 2 == 0,
            idx % 2 == 0,
            hex_decode(v@.take(idx as int)) == Some(out@),
        decreases n - idx,
    {
        let ghost s2 = v@.take(idx + 2);
        assert(s2.take(s2.len() - 2) == v@.take(idx as int));
        assert(s2[s2.len() - 2] == v@[idx as int]);
        assert(s2[s2.len() - 1] == v@[idx + 1]);
        let high = match hex_value_of(v[idx]) {
            Some(h) => h,
            None => {
                proof {
                    if hex_decode(v@) is Some {
                        lemma_hex_decode_prefix(v@, idx + 2);
                    }
                }
                return None;
            },
        };
        let low = match hex_value_of(v[idx + 1]) {
            Some(l) => l,
            None => {
                proof {
                    if hex_decode(v@) is Some {
                        lemma_hex_decode_prefix(v@, idx + 2);
                    }
                }
                return None;
            },
        };
        out.push(high * 16 + low);
        idx += 2;
    }
    assert(v@.take(n as int) == v@);
    Some(out)
}

pub proof fn lemma_hex_digit_value(n: nat)
    requires
        n < 16,
    ensures
        hex_char_value(hex_digit(n)) == Some(n as u8),
        hex_digit(n) != '\n',
        !crate::text::is_whitespace(hex_digit(n)),
{
}

/// No character of hex text is whitespace or a line break.
pub open spec fn plain_chars(s: Seq<char>) -> bool {
    forall|i: int| 0 <= i < s.len() ==> #[trigger] s[i] != '\n' && !crate::text::is_whitespace(s[i])
}

pub proof fn lemma_plain_chars(s: Seq<char>)
    requires
        plain_chars(s),
    ensures
        !s.contains('\n'),
        is_trimmed(s),
{
    if s.len() > 0 {
        assert(s[0] != '\n' && !crate::text::is_whitespace(s[0]));
        assert(s[s.len() - 1] != '\n');
    }
}

/// Hex digits are read without regard to case: a character and its ASCII lowercase have
/// the same value (or are both no digit).
pub proof fn law_hex_case_blind(c: char)
    ensures
        hex_char_value(c) == hex_char_value(crate::text::ascii_lower(c)),
{
    let u = c as u32;
    if 65 <= u <= 90 {
        let l = crate::text::ascii_lower(c);
        assert(((u as u8) + 32) as u32 == u + 32) by (bit_vector)
            requires 65 <= u <= 90;
        assert(l as u32 == u + 32);
    }
}

/// Hex text is lowercase: byte `k` of the input is written at positions `2k` and `2k + 1`
/// as the digits of `0123456789abcdef` for its high and low nibble.
pub proof fn law_hex_digits(b: Seq<u8>, k: int)
    requires
        0 <= k < b.len(),
    ensures
        hex_text(b).len() == 2 * b.len(),
        hex_text(b)[2 * k] == "0123456789abcdef"@[(b[k] / 16) as int],
        hex_text(b)[2 * k + 1] == "0123456789abcdef"@[(b[k] % 16) as int],
    decreases b.len(),
{
    reveal_strlit("0123456789abcdef");
    law_hex_roundtrip(b);
    let table = "0123456789abcdef"@;
    assert forall|n: nat| n < 16 implies #[trigger] hex_digit(n) == table[n as int] by {
        assert(table =~= seq!['0', '1', '2', '3', '4', '5', '6', '7', '8', '9', 'a', 'b', 'c', 'd', 'e', 'f']);
        if n == 0 {
        } else if n == 1 {
        } else if n == 2 {
        } else if n == 3 {
        } else if n == 4 {
        } else if n == 5 {
        } else if n == 6 {
        } else if n == 7 {
        } else if n == 8 {
        } else if n == 9 {
        } else if n == 10 {
        } else if n == 11 {
        } else if n == 12 {
        } else if n == 13 {
        } else if n == 14 {
        } else {
        }
    }
    let p = b.drop_last();
    law_hex_roundtrip(p);
    if k < b.len() - 1 {
        law_hex_digits(p, k);
        assert(hex_text(b)[2 * k] == hex_text(p)[2 * k]);
        assert(hex_text(b)[2 * k + 1] == hex_text(p)[2 * k + 1]);
        assert(p[k] == b[k]);
    } else {
        assert(b.last() == b[k]);
        assert(hex_digit(b[k] as nat / 16) == table[(b[k] / 16) as int]);
        assert(hex_digit(b[k] as nat % 16) == table[(b[k] % 16) as int]);
    }
}

/// Hex text decodes back to the bytes it encodes.
pub proof fn law_hex_roundtrip(b: Seq<u8>)
    ensures
        hex_decode(hex_text(b)) == Some(b),
        hex_text(b).len() == 2 * b.len(),
        plain_chars(hex_text(b)),
    decreases b.len(),
{
    if b.len() > 0 {
        law_hex_roundtrip(b.drop_last());
        let x = b.last() as nat;
        lemma_hex_digit_value(x / 16);
        lemma_hex_digit_value(x % 16);
        let t = hex_text(b);
        let p = hex_text(b.drop_last());
        assert(t.take(t.len() - 2) == p);
        assert((x / 16) * 16 + x % 16 == x) by (nonlinear_arith);
        assert(b.drop_last().push(b.last()) == b);
        assert forall|i: int| 0 <= i < t.len() implies #[trigger] t[i] != '\n' && !crate::text::is_whitespace(t[i]) by {
            if i < p.len() {
                assert(t[i] == p[i]);
            }
        }
    }
}


// ---------------------------------------------------------------------------
// Wire format
// ---------------------------------------------------------------------------

/// One `key=value` line.
pub open spec fn kv_line(k: Seq<char>, v: Seq<char>) -> Seq<char> {
    k.push('=') + v.push('\n')
}

/// The lines of a list of fields, in order.
pub open spec fn kv_text(pairs: Seq<(Seq<char>, Seq<char>)>) -> Seq<char>
    decreases pairs.len(),
{
    if pairs.len() == 0 {
        Seq::empty()
    } else {
        kv_text(pairs.drop_last()) + kv_line(pairs.last().0, pairs.last().1)
    }
}

pub open spec fn context_pairs(c: MessageContextView) -> Seq<(Seq<char>, Seq<char>)> {
    match c {
        MessageContextView::HttpRequest { method, path } => seq![
            ("context"@, "http_request"@),
            ("method"@, method),
            ("path"@, path),
        ],
        MessageContextView::HttpResponse { status_code, path } => seq![
            ("context"@, "http_response"@),
            ("status_code"@, decimal(status_code as nat)),
            ("path"@, path),
        ],
        MessageContextView::UdpAnnouncement => seq![("context"@, "udp_announcement"@)],
    }
}

/// The fields of an envelope, in the order in which they are written.
pub open spec fn envelope_pairs(e: EnvelopeView) -> Seq<(Seq<char>, Seq<char>)> {
    seq![
        ("sid"@, e.sid),
        ("sender_id"@, e.sender_id),
        ("timestamp_secs"@, decimal(e.timestamp_secs as nat)),
        ("nonce"@, e.nonce),
        ("signature_hex"@, e.signature_hex),
    ] + context_pairs(e.context) + seq![("body_hex"@, hex_text(e.body))]
}

/// The text an envelope is written as.
pub open spec fn serialized(e: EnvelopeView) -> Seq<char> {
    kv_text(envelope_pairs(e))
}

fn push_field(out: &mut String, key: &str, value: &str)
    ensures
        final(out)@ == old(out)@ + kv_line(key@, value@),
{
    out.append(key);
    append_char(out, '=');
    out.append(value);
    append_char(out, '\n');
    assert(final(out)@ == old(out)@ + kv_line(key@, value@));
}

proof fn lemma_kv_text_push(p: Seq<(Seq<char>, Seq<char>)>, x: (Seq<char>, Seq<char>))
    ensures
        kv_text(p.push(x)) == kv_text(p) + kv_line(x.0, x.1),
{
    assert(p.push(x).drop_last() == p);
}

/// Writes an envelope as `key=value` lines.
pub fn serialize_envelope(envelope: &SignedEnvelope) -> (r: String)
    ensures
        r@ == serialized(envelope@),
{
    let ghost e = envelope@;
    let mut out = String::new();
    let ghost mut ps: Seq<(Seq<char>, Seq<char>)> = Seq::empty();
    assert(out@ == kv_text(ps));
    push_field(&mut out, "sid", envelope.sid.as_str());
    proof {
        lemma_kv_text_push(ps, ("sid"@, e.sid));
        ps = ps.push(("sid"@, e.sid));
    }
    push_field(&mut out, "sender_id", envelope.sender_id.as_str());
    proof {
        lemma_kv_text_push(ps, ("sender_id"@, e.sender_id));
        ps = ps.push(("sender_id"@, e.sender_id));
    }
    let ts = decimal_string(envelope.timestamp_secs as u128);
    push_field(&mut out, "timestamp_secs", ts.as_str());
    proof {
        lemma_kv_text_push(ps, ("timestamp_secs"@, decimal(e.timestamp_secs as nat)));
        ps = ps.push(("timestamp_secs"@, decimal(e.timestamp_secs as nat)));
    }
    push_field(&mut out, "nonce", envelope.nonce.as_str());
    proof {
        lemma_kv_text_push(ps, ("nonce"@, e.nonce));
        ps = ps.push(("nonce"@, e.nonce));
    }
    push_field(&mut out, "signature_hex", envelope.signature_hex.as_str());
    proof {
        lemma_kv_text_push(ps, ("signature_hex"@, e.signature_hex));
        ps = ps.push(("signature_hex"@, e.signature_hex));
    }
    match &envelope.context {
        MessageContext::HttpRequest { method, path } => {
            push_field(&mut out, "context", "http_request");
            proof {
                lemma_kv_text_push(ps, ("context"@, "http_request"@));
                ps = ps.push(("context"@, "http_request"@));
            }
            push_field(&mut out, "method", method.as_str());
            proof {
                lemma_kv_text_push(ps, ("method"@, method@));
                ps = ps.push(("method"@, method@));
            }
            push_field(&mut out, "path", path.as_str());
            proof {
                lemma_kv_text_push(ps, ("path"@, path@));
                ps = ps.push(("path"@, path@));
            }
        },
        MessageContext::HttpResponse { status_code, path } => {
            push_field(&mut out, "context", "http_response");
            proof {
                lemma_kv_text_push(ps, ("context"@, "http_response"@));
                ps = ps.push(("context"@, "http_response"@));
            }
            let code = decimal_string(*status_code as u128);
            push_field(&mut out, "status_code", code.as_str());
            proof {
                lemma_kv_text_push(ps, ("status_code"@, decimal(*status_code as nat)));
                ps = ps.push(("status_code"@, decimal(*status_code as nat)));
            }
            push_field(&mut out, "path", path.as_str());
            proof {
                lemma_kv_text_push(ps, ("path"@, path@));
                ps = ps.push(("path"@, path@));
            }
        },
        MessageContext::UdpAnnouncement => {
            push_field(&mut out, "context", "udp_announcement");
            proof {
                lemma_kv_text_push(ps, ("context"@, "udp_announcement"@));
                ps = ps.push(("context"@, "udp_announcement"@));
            }
        },
    }
    let body = to_hex(envelope.body.as_slice());
    push_field(&mut out, "body_hex", body.as_str());
    proof {
        lemma_kv_text_push(ps, ("body_hex"@, hex_text(e.body)));
        ps = ps.push(("body_hex"@, hex_text(e.body)));
        assert(ps =~= envelope_pairs(e));
    }
    out
}

/// The field that one line gives: the trimmed text before and after its first `=`.
pub open spec fn field_line(line: Seq<char>) -> Option<(Seq<char>, Seq<char>)> {
    match split_once(line, '=') {
        Some((k, v)) => Some((trim(k), trim(v))),
        None => None,
    }
}

pub open spec fn field_map(lines: Seq<Seq<char>>) -> Map<Seq<char>, Seq<char>>
    decreases lines.len(),
{
    if lines.len() == 0 {
        Map::empty()
    } else {
        let m = field_map(lines.drop_last());
        match field_line(lines.last()) {
            Some((k, v)) => m.insert(k, v),
            None => m,
        }
    }
}

/// The fields of an envelope's text; a later line for a key wins.
pub open spec fn envelope_fields(text: Seq<char>) -> Map<Seq<char>, Seq<char>> {
    field_map(split(text, '\n'))
}

pub open spec fn parse_context(m: Map<Seq<char>, Seq<char>>) -> Option<MessageContextView> {
    if !m.contains_key("context"@) {
        None
    } else if m["context"@] == "http_request"@ {
        if m.contains_key("method"@) && m.contains_key("path"@) {
            Some(MessageContextView::HttpRequest { method: m["method"@], path: m["path"@] })
        } else {
            None
        }
    } else if m["context"@] == "http_response"@ {
        if m.contains_key("status_code"@) && m.contains_key("path"@) {
            match parse_unsigned(m["status_code"@], u16::MAX as nat) {
                Some(n) => Some(MessageContextView::HttpResponse { status_code: n as u16, path: m["path"@] }),
                None => None,
            }
        } else {
            None
        }
    } else if m["context"@] == "udp_announcement"@ {
        Some(MessageContextView::UdpAnnouncement)
    } else {
        None
    }
}

/// The envelope that a text denotes, if any.
pub open spec fn parsed_envelope(text: Seq<char>) -> Option<EnvelopeView> {
    let m = envelope_fields(text);
    if m.contains_key("sid"@) && m.contains_key("sender_id"@) && m.contains_key("timestamp_secs"@)
        && m.contains_key("nonce"@) && m.contains_key("signature_hex"@) && m.contains_key("body_hex"@)
        && parse_unsigned(m["timestamp_secs"@], u64::MAX as nat) is Some
        && parse_context(m) is Some && hex_decode(m["body_hex"@]) is Some {
        Some(EnvelopeView {
            sid: m["sid"@],
            sender_id: m["sender_id"@],
            timestamp_secs: parse_unsigned(m["timestamp_secs"@], u64::MAX as nat)->0 as u64,
            nonce: m["nonce"@],
            context: parse_context(m)->0,
            body: hex_decode(m["body_hex"@])->0,
            signature_hex: m["signature_hex"@],
        })
    } else {
        None
    }
}

/// Collects the `key=value` fields of an envelope's text.
fn collect_fields(text: &str) -> (r: KeyValues)
    ensures
        r@ == envelope_fields(text@),
{
    let chars = chars_of(text);
    let lines = split_vec(chars.as_slice(), '\n');
    let mut map = KeyValues::new();
    let mut i: usize = 0;
    while i < lines.len()
        invariant
            i <= lines@.len(),
            views(lines@) == split(text@, '\n'),
            map@ == field_map(views(lines@).take(i as int)),
        decreases lines.len() - i,
    {
        proof {
            assert(views(lines@).take(i + 1).drop_last() == views(lines@).take(i as int));
            assert(views(lines@).take(i + 1).last() == lines@[i as int]@);
        }
        match split_once_vec(lines[i].as_slice(), '=') {
            Some((k, v)) => {
                let key = trim_vec(k.as_slice());
                let value = trim_vec(v.as_slice());
                map.insert(string_of(key.as_slice()), string_of(value.as_slice()));
            },
            None => {},
        }
        i += 1;
    }
    assert(views(lines@).take(lines@.len() as int) == views(lines@));
    map
}

fn parse_context_fields(m: &KeyValues) -> (r: Option<MessageContext>)
    ensures
        match r {
            Some(c) => parse_context(m@) == Some(c@),
            None => parse_context(m@) is None,
        },
{
    let kind = match m.get("context") {
        Some(k) => k,
        None => return None,
    };
    let kind_chars = chars_of(kind.as_str());
    if crate::text::chars_eq_str(kind_chars.as_slice(), "http_request") {
        let method = match m.get("method") {
            Some(x) => x,
            None => return None,
        };
        let path = match m.get("path") {
            Some(x) => x,
            None => return None,
        };
        Some(MessageContext::HttpRequest { method, path })
    } else if crate::text::chars_eq_str(kind_chars.as_slice(), "http_response") {
        let code = match m.get("status_code") {
            Some(x) => x,
            None => return None,
        };
        let path = match m.get("path") {
            Some(x) => x,
            None => return None,
        };
        let code_chars = chars_of(code.as_str());
        match parse_unsigned_vec(code_chars.as_slice(), u16::MAX as u64) {
            Some(n) => Some(MessageContext::HttpResponse { status_code: n as u16, path }),
            None => None,
        }
    } else if crate::text::chars_eq_str(kind_chars.as_slice(), "udp_announcement") {
        Some(MessageContext::UdpAnnouncement)
    } else {
        None
    }
}

/// Reads an envelope from its `key=value` lines.
pub fn parse_envelope(text: &str) -> (r: Result<SignedEnvelope, RuntimeError>)
    ensures
        match r {
            Ok(e) => parsed_envelope(text@) == Some(e@),
            Err(err) => parsed_envelope(text@) is None && err@ == RuntimeErrorView::ParseEnvelope,
        },
{
    let values = collect_fields(text);
    let sid = match values.get("sid") {
        Some(x) => x,
        None => return Err(RuntimeError::ParseEnvelope),
    };
    let sender_id = match values.get("sender_id") {
        Some(x) => x,
        None => return Err(RuntimeError::ParseEnvelope),
    };
    let ts_text = match values.get("timestamp_secs") {
        Some(x) => x,
        None => return Err(RuntimeError::ParseEnvelope),
    };
    let ts_chars = chars_of(ts_text.as_str());
    let timestamp_secs = match parse_unsigned_vec(ts_chars.as_slice(), u64::MAX) {
        Some(n) => n,
        None => return Err(RuntimeError::ParseEnvelope),
    };
    let nonce = match values.get("nonce") {
        Some(x) => x,
        None => return Err(RuntimeError::ParseEnvelope),
    };
    let signature_hex = match values.get("signature_hex") {
        Some(x) => x,
        None => return Err(RuntimeError::ParseEnvelope),
    };
    let context = match parse_context_fields(&values) {
        Some(c) => c,
        None => return Err(RuntimeError::ParseEnvelope),
    };
    let body_hex = match values.get("body_hex") {
        Some(x) => x,
        None => return Err(RuntimeError::ParseEnvelope),
    };
    let body = match from_hex(body_hex.as_str()) {
        Some(b) => b,
        None => return Err(RuntimeError::ParseEnvelope),
    };
    Ok(SignedEnvelope { sid, sender_id, timestamp_secs, nonce, context, body, signature_hex })
}


proof fn lemma_kv_text_line(p: Seq<(Seq<char>, Seq<char>)>, text: Seq<char>, k: Seq<char>, key_eq: Seq<char>, v: Seq<char>)
    requires
        kv_text(p) == text,
        key_eq == k.push('='),
    ensures
        kv_text(p.push((k, v))) == text + key_eq + v + "\n"@,
{
    reveal_strlit("\n");
    lemma_kv_text_push(p, (k, v));
    assert(text + kv_line(k, v) =~= text + key_eq + v + "\n"@);
}

/// The text of an envelope, line by line: `sid=`, `sender_id=`, `timestamp_secs=` (in
/// decimal), `nonce=`, `signature_hex=`, then the context's lines (`context=http_request`
/// with `method=` and `path=`; `context=http_response` with `status_code=` in decimal and
/// `path=`; or `context=udp_announcement`), then `body_hex=` with the body in lowercase hex.
pub proof fn law_serialized_lines(e: EnvelopeView)
    ensures
        ({
            let head = "sid="@ + e.sid + "\n"@ + "sender_id="@ + e.sender_id + "\n"@ + "timestamp_secs="@
                + decimal(e.timestamp_secs as nat) + "\n"@ + "nonce="@ + e.nonce + "\n"@ + "signature_hex="@
                + e.signature_hex + "\n"@;
            let tail = "body_hex="@ + hex_text(e.body) + "\n"@;
            &&& e.context matches MessageContextView::HttpRequest { method, path } ==> serialized(e) == head
                + "context=http_request\n"@ + "method="@ + method + "\n"@ + "path="@ + path + "\n"@ + tail
            &&& e.context matches MessageContextView::HttpResponse { status_code, path } ==> serialized(e) == head
                + "context=http_response\n"@ + "status_code="@ + decimal(status_code as nat) + "\n"@ + "path="@ + path
                + "\n"@ + tail
            &&& e.context matches MessageContextView::UdpAnnouncement ==> serialized(e) == head
                + "context=udp_announcement\n"@ + tail
        }),
{
    reveal_strlit("\n");
    reveal_strlit("sid");
    reveal_strlit("sid=");
    reveal_strlit("sender_id");
    reveal_strlit("sender_id=");
    reveal_strlit("timestamp_secs");
    reveal_strlit("timestamp_secs=");
    reveal_strlit("nonce");
    reveal_strlit("nonce=");
    reveal_strlit("signature_hex");
    reveal_strlit("signature_hex=");
    reveal_strlit("context");
    reveal_strlit("context=");
    reveal_strlit("method");
    reveal_strlit("method=");
    reveal_strlit("path");
    reveal_strlit("path=");
    reveal_strlit("status_code");
    reveal_strlit("status_code=");
    reveal_strlit("body_hex");
    reveal_strlit("body_hex=");
    reveal_strlit("http_request");
    reveal_strlit("http_response");
    reveal_strlit("udp_announcement");
    reveal_strlit("context=http_request\n");
    reveal_strlit("context=http_response\n");
    reveal_strlit("context=udp_announcement\n");
    let p0: Seq<(Seq<char>, Seq<char>)> = Seq::empty();
    let t0 = Seq::<char>::empty();
    assert(kv_text(p0) == t0);
    let p1 = p0.push(("sid"@, e.sid));
    assert("sid="@ =~= "sid"@.push('='));
    lemma_kv_text_line(p0, t0, "sid"@, "sid="@, e.sid);
    assert(t0 + "sid="@ + e.sid + "\n"@ =~= "sid="@ + e.sid + "\n"@);
    let t1 = "sid="@ + e.sid + "\n"@;
    let p2 = p1.push(("sender_id"@, e.sender_id));
    assert("sender_id="@ =~= "sender_id"@.push('='));
    lemma_kv_text_line(p1, t1, "sender_id"@, "sender_id="@, e.sender_id);
    let t2 = t1 + "sender_id="@ + e.sender_id + "\n"@;
    let ts = decimal(e.timestamp_secs as nat);
    let p3 = p2.push(("timestamp_secs"@, ts));
    assert("timestamp_secs="@ =~= "timestamp_secs"@.push('='));
    lemma_kv_text_line(p2, t2, "timestamp_secs"@, "timestamp_secs="@, ts);
    let t3 = t2 + "timestamp_secs="@ + ts + "\n"@;
    let p4 = p3.push(("nonce"@, e.nonce));
    assert("nonce="@ =~= "nonce"@.push('='));
    lemma_kv_text_line(p3, t3, "nonce"@, "nonce="@, e.nonce);
    let t4 = t3 + "nonce="@ + e.nonce + "\n"@;
    let p5 = p4.push(("signature_hex"@, e.signature_hex));
    assert("signature_hex="@ =~= "signature_hex"@.push('='));
    lemma_kv_text_line(p4, t4, "signature_hex"@, "signature_hex="@, e.signature_hex);
    let head = t4 + "signature_hex="@ + e.signature_hex + "\n"@;
    assert("context="@ =~= "context"@.push('='));
    assert("body_hex="@ =~= "body_hex"@.push('='));
    let body = hex_text(e.body);
    match e.context {
        MessageContextView::HttpRequest { method, path } => {
            let p6 = p5.push(("context"@, "http_request"@));
            lemma_kv_text_line(p5, head, "context"@, "context="@, "http_request"@);
            assert(head + "context="@ + "http_request"@ + "\n"@ =~= head + "context=http_request\n"@);
            let t6 = head + "context=http_request\n"@;
            let p7 = p6.push(("method"@, method));
            assert("method="@ =~= "method"@.push('='));
            lemma_kv_text_line(p6, t6, "method"@, "method="@, method);
            let t7 = t6 + "method="@ + method + "\n"@;
            let p8 = p7.push(("path"@, path));
            assert("path="@ =~= "path"@.push('='));
            lemma_kv_text_line(p7, t7, "path"@, "path="@, path);
            let t8 = t7 + "path="@ + path + "\n"@;
            let p9 = p8.push(("body_hex"@, body));
            lemma_kv_text_line(p8, t8, "body_hex"@, "body_hex="@, body);
            assert(p9 =~= envelope_pairs(e));
            assert(t8 + "body_hex="@ + body + "\n"@ =~= t8 + ("body_hex="@ + body + "\n"@));
        },
        MessageContextView::HttpResponse { status_code, path } => {
            let code = decimal(status_code as nat);
            let p6 = p5.push(("context"@, "http_response"@));
            lemma_kv_text_line(p5, head, "context"@, "context="@, "http_response"@);
            assert(head + "context="@ + "http_response"@ + "\n"@ =~= head + "context=http_response\n"@);
            let t6 = head + "context=http_response\n"@;
            let p7 = p6.push(("status_code"@, code));
            assert("status_code="@ =~= "status_code"@.push('='));
            lemma_kv_text_line(p6, t6, "status_code"@, "status_code="@, code);
            let t7 = t6 + "status_code="@ + code + "\n"@;
            let p8 = p7.push(("path"@, path));
            assert("path="@ =~= "path"@.push('='));
            lemma_kv_text_line(p7, t7, "path"@, "path="@, path);
            let t8 = t7 + "path="@ + path + "\n"@;
            let p9 = p8.push(("body_hex"@, body));
            lemma_kv_text_line(p8, t8, "body_hex"@, "body_hex="@, body);
            assert(p9 =~= envelope_pairs(e));
            assert(t8 + "body_hex="@ + body + "\n"@ =~= t8 + ("body_hex="@ + body + "\n"@));
        },
        MessageContextView::UdpAnnouncement => {
            let p6 = p5.push(("context"@, "udp_announcement"@));
            lemma_kv_text_line(p5, head, "context"@, "context="@, "udp_announcement"@);
            assert(head + "context="@ + "udp_announcement"@ + "\n"@ =~= head + "context=udp_announcement\n"@);
            let t6 = head + "context=udp_announcement\n"@;
            let p7 = p6.push(("body_hex"@, body));
            lemma_kv_text_line(p6, t6, "body_hex"@, "body_hex="@, body);
            assert(p7 =~= envelope_pairs(e));
            assert(t6 + "body_hex="@ + body + "\n"@ =~= t6 + ("body_hex="@ + body + "\n"@));
        },
    }
}

// ---------------------------------------------------------------------------
// Round trip
// ---------------------------------------------------------------------------

/// A field value that survives the wire format: one line, no surrounding whitespace.
pub open spec fn field_value_ok(v: Seq<char>) -> bool {
    !v.contains('\n') && is_trimmed(v)
}

pub open spec fn field_key_ok(k: Seq<char>) -> bool {
    field_value_ok(k) && !k.contains('=')
}

pub open spec fn pairs_ok(p: Seq<(Seq<char>, Seq<char>)>) -> bool {
    forall|i: int| 0 <= i < p.len() ==> field_key_ok(#[trigger] p[i].0) && field_value_ok(p[i].1)
}

/// The lines (without their line breaks) that a list of fields is written as.
pub open spec fn kv_lines(p: Seq<(Seq<char>, Seq<char>)>) -> Seq<Seq<char>> {
    Seq::new(p.len(), |i: int| p[i].0.push('=') + p[i].1)
}

proof fn lemma_split_kv_text(p: Seq<(Seq<char>, Seq<char>)>)
    requires
        pairs_ok(p),
    ensures
        split(kv_text(p), '\n') == kv_lines(p).push(Seq::<char>::empty()),
    decreases p.len(),
{
    if p.len() == 0 {
        assert(split(kv_text(p), '\n') =~= seq![Seq::<char>::empty()]);
        assert(kv_lines(p).push(Seq::<char>::empty()) =~= seq![Seq::<char>::empty()]);
    } else {
        let q = p.drop_last();
        let x = p.last();
        assert(pairs_ok(q)) by {
            assert forall|i: int| 0 <= i < q.len() implies field_key_ok(#[trigger] q[i].0) && field_value_ok(q[i].1) by {
                assert(q[i] == p[i]);
            }
        }
        lemma_split_kv_text(q);
        assert(field_key_ok(p[p.len() - 1].0));
        let line = x.0.push('=') + x.1;
        assert(!line.contains('\n')) by {
            if line.contains('\n') {
                let i = choose|i: int| 0 <= i < line.len() && line[i] == '\n';
                if i < x.0.len() {
                    assert(x.0[i] == '\n');
                } else if i > x.0.len() {
                    assert(x.1[i - x.0.len() - 1] == '\n');
                }
            }
        }
        assert(kv_text(p) == (kv_text(q) + line).push('\n'));
        lemma_split_push_sep(kv_text(q) + line, '\n');
        lemma_split_append_plain(kv_text(q), line, '\n');
        assert(Seq::<char>::empty() + line == line);
        assert(kv_lines(q).push(line) =~= kv_lines(p));
    }
}

proof fn lemma_field_map_kv(p: Seq<(Seq<char>, Seq<char>)>)
    requires
        pairs_ok(p),
    ensures
        field_map(kv_lines(p)) == entries_map(p),
    decreases p.len(),
{
    if p.len() > 0 {
        let q = p.drop_last();
        let x = p.last();
        assert(pairs_ok(q)) by {
            assert forall|i: int| 0 <= i < q.len() implies field_key_ok(#[trigger] q[i].0) && field_value_ok(q[i].1) by {
                assert(q[i] == p[i]);
            }
        }
        lemma_field_map_kv(q);
        assert(field_key_ok(p[p.len() - 1].0));
        assert(kv_lines(p).drop_last() =~= kv_lines(q));
        lemma_split_once_concat(x.0, '=', x.1);
        lemma_trim_of_trimmed(x.0);
        lemma_trim_of_trimmed(x.1);
    }
}

/// An envelope whose text fields all survive the wire format.
pub open spec fn envelope_well_formed(e: EnvelopeView) -> bool {
    &&& field_value_ok(e.sid)
    &&& field_value_ok(e.sender_id)
    &&& field_value_ok(e.nonce)
    &&& field_value_ok(e.signature_hex)
    &&& match e.context {
        MessageContextView::HttpRequest { method, path } => field_value_ok(method) && field_value_ok(path),
        MessageContextView::HttpResponse { path, .. } => field_value_ok(path),
        MessageContextView::UdpAnnouncement => true,
    }
}

proof fn lemma_decimal_field(n: nat, max: nat)
    requires
        n <= max,
    ensures
        field_value_ok(decimal(n)),
        parse_unsigned(decimal(n), max) == Some(n),
{
    law_decimal_roundtrip(n, max);
    crate::text::lemma_digits_plain(decimal(n));
    lemma_plain_chars(decimal(n));
}

/// Reading back a written envelope gives the same envelope, whenever each of its text
/// fields is one line without surrounding whitespace.
pub proof fn law_envelope_roundtrip(e: EnvelopeView)
    requires
        envelope_well_formed(e),
    ensures
        parsed_envelope(serialized(e)) == Some(e),
{
    reveal_strlit("sid");
    reveal_strlit("sender_id");
    reveal_strlit("timestamp_secs");
    reveal_strlit("nonce");
    reveal_strlit("signature_hex");
    reveal_strlit("context");
    reveal_strlit("method");
    reveal_strlit("path");
    reveal_strlit("status_code");
    reveal_strlit("body_hex");
    reveal_strlit("http_request");
    reveal_strlit("http_response");
    reveal_strlit("udp_announcement");
    let p = envelope_pairs(e);
    lemma_decimal_field(e.timestamp_secs as nat, u64::MAX as nat);
    law_hex_roundtrip(e.body);
    lemma_plain_chars(hex_text(e.body));
    match e.context {
        MessageContextView::HttpResponse { status_code, .. } => {
            lemma_decimal_field(status_code as nat, u16::MAX as nat);
        },
        _ => {},
    }
    assert(pairs_ok(p));
    assert(distinct_keys(p));
    lemma_split_kv_text(p);
    lemma_field_map_kv(p);
    assert(field_line(Seq::<char>::empty()) is None);
    assert(kv_lines(p).push(Seq::<char>::empty()).drop_last() == kv_lines(p));
    let m = envelope_fields(serialized(e));
    assert(m == entries_map(p));
    assert forall|i: int| 0 <= i < p.len() implies #[trigger] m.contains_key(p[i].0) && m[p[i].0] == p[i].1 by {
        lemma_entries_map_value(p, i);
    }
    assert(m.contains_key(p[0].0) && m.contains_key(p[1].0) && m.contains_key(p[2].0));
    assert(m.contains_key(p[3].0) && m.contains_key(p[4].0) && m.contains_key(p[5].0));
    assert(m.contains_key(p[p.len() - 1].0));
    match e.context {
        MessageContextView::HttpRequest { .. } => {
            assert(m.contains_key(p[6].0) && m.contains_key(p[7].0));
        },
        MessageContextView::HttpResponse { .. } => {
            assert(m.contains_key(p[6].0) && m.contains_key(p[7].0));
        },
        MessageContextView::UdpAnnouncement => {},
    }
}

} // verus!
