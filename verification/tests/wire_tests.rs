use ssh_key_sync::envelope::{
    decode_nibble, from_hex, parse_envelope, serialize_envelope, to_hex, MessageContext,
    SignedEnvelope,
};
use ssh_key_sync::http::{
    exchange_outcome, exchange_reply, ExchangeOutcome,
    find_subslice, parse_request_head, post_request, request_body, request_head_text,
    response_body, response_head, scan_request_head, HeadScan, HttpRequestError,
};
use ssh_key_sync::peers::{
    advertised_address, broadcast_target, collect_endpoints, format_nonce, next_sync_time,
    parse_bootstrap_peer, parse_port, record_fetched_key, should_write_keys, sync_due, sync_targets, PeerEndpoint,
};
use ssh_key_sync::key_values::KeyValues;
use ssh_key_sync::runtime::RuntimeError;
use ssh_key_sync::text::{decimal_string, trim_str};

fn envelope(context: MessageContext) -> SignedEnvelope {
    SignedEnvelope {
        sid: "group-a".to_owned(),
        sender_id: "node-a".to_owned(),
        timestamp_secs: 1_700_000_000,
        nonce: "n-1".to_owned(),
        context,
        body: vec![0, 1, 0xab, 0xff],
        signature_hex: "deadbeef".to_owned(),
    }
}

#[test]
fn envelope_text_layout() {
    let e = envelope(MessageContext::HttpRequest { method: "POST".to_owned(), path: "/k".to_owned() });
    assert_eq!(
        serialize_envelope(&e),
        "sid=group-a\nsender_id=node-a\ntimestamp_secs=1700000000\nnonce=n-1\nsignature_hex=deadbeef\n\
         context=http_request\nmethod=POST\npath=/k\nbody_hex=0001abff\n"
    );
}

#[test]
fn envelopes_round_trip() {
    for context in [
        MessageContext::HttpRequest { method: "POST".to_owned(), path: "/k".to_owned() },
        MessageContext::HttpResponse { status_code: 200, path: "/k".to_owned() },
        MessageContext::UdpAnnouncement,
    ] {
        let e = envelope(context);
        assert_eq!(parse_envelope(&serialize_envelope(&e)), Ok(e));
    }
}

#[test]
fn envelope_parse_errors() {
    assert_eq!(parse_envelope(""), Err(RuntimeError::ParseEnvelope));
    let e = envelope(MessageContext::UdpAnnouncement);
    let text = serialize_envelope(&e).replace("udp_announcement", "other");
    assert_eq!(parse_envelope(&text), Err(RuntimeError::ParseEnvelope));
    let text = serialize_envelope(&e).replace("0001abff", "0001abf");
    assert_eq!(parse_envelope(&text), Err(RuntimeError::ParseEnvelope));
    let text = serialize_envelope(&e).replace("1700000000", "17x");
    assert_eq!(parse_envelope(&text), Err(RuntimeError::ParseEnvelope));
}

#[test]
fn envelope_fields_are_trimmed_and_last_wins() {
    let text = " sid = g \r\nsender_id=s\ntimestamp_secs=+5\nnonce=n\nsignature_hex=x\ncontext=udp_announcement\nbody_hex=\nsid=h\n";
    let e = parse_envelope(text).unwrap();
    assert_eq!(e.sid, "h");
    assert_eq!(e.timestamp_secs, 5);
    assert!(e.body.is_empty());
}

#[test]
fn hex_encoding() {
    assert_eq!(to_hex(&[0x00, 0x7f, 0xa0]), "007fa0");
    assert_eq!(from_hex("007FA0"), Some(vec![0x00, 0x7f, 0xa0]));
    assert_eq!(from_hex("abc"), None);
    assert_eq!(from_hex("zz"), None);
    assert_eq!(from_hex("é1"), None);
    assert_eq!(decode_nibble(b'c'), Some(12));
    assert_eq!(decode_nibble(b'C'), Some(12));
    assert_eq!(decode_nibble(b'g'), None);
}

#[test]
fn bootstrap_peer_notation() {
    let e = parse_bootstrap_peer(" node-a @ 10.0.0.2:2222 ").unwrap();
    assert_eq!(e, PeerEndpoint { participant_id: "node-a".to_owned(), address: "10.0.0.2".to_owned(), port: 2222 });
    let e = parse_bootstrap_peer("10.0.0.4:2222").unwrap();
    assert_eq!(e, PeerEndpoint { participant_id: "10.0.0.4:2222".to_owned(), address: "10.0.0.4".to_owned(), port: 2222 });
    assert_eq!(parse_bootstrap_peer("   "), None);
    assert_eq!(parse_bootstrap_peer("host"), None);
    assert_eq!(parse_bootstrap_peer("host:70000"), None);
}

#[test]
fn listen_address_parts() {
    assert_eq!(parse_port("0.0.0.0:9922"), Ok(9922));
    assert_eq!(parse_port("[::1]:80"), Ok(80));
    assert_eq!(parse_port("nohost"), Err(RuntimeError::ParseListenAddress("nohost".to_owned())));
    assert_eq!(advertised_address("0.0.0.0:9922", "node-a"), "node-a");
    assert_eq!(advertised_address("10.1.1.1:9922", "node-a"), "10.1.1.1");
    assert_eq!(advertised_address("host", "node-a"), "host");
}

#[test]
fn endpoints_are_merged_by_participant() {
    let peers = vec!["a@h1:1".to_owned(), "bad".to_owned(), "b@h2:2".to_owned(), "a@h3:3".to_owned()];
    let discovered = vec![PeerEndpoint { participant_id: "b".to_owned(), address: "h9".to_owned(), port: 9 }];
    let all = collect_endpoints(&peers, &discovered);
    assert_eq!(all.len(), 2);
    assert_eq!(all[0], PeerEndpoint { participant_id: "a".to_owned(), address: "h3".to_owned(), port: 3 });
    assert_eq!(all[1], PeerEndpoint { participant_id: "b".to_owned(), address: "h9".to_owned(), port: 9 });
    let targets = sync_targets(&all, &"a".to_owned());
    assert_eq!(targets, vec![all[1].clone()]);
}

#[test]
fn schedule_decisions() {
    assert!(sync_due(10, 10, false));
    assert!(!sync_due(9, 10, false));
    assert!(sync_due(9, 10, true));
    assert_eq!(next_sync_time(100, 30), 130);
    assert_eq!(next_sync_time(100, 0), 101);
    assert!(should_write_keys(true, false));
    assert!(!should_write_keys(true, true));
    assert!(!should_write_keys(false, false));
    assert_eq!(broadcast_target(9923), "255.255.255.255:9923");
    assert_eq!(format_nonce(123), "n-123");
}

#[test]
fn request_heads() {
    let data = b"POST /keys HTTP/1.1\r\nHost: x\r\ncontent-length: 3\r\n\r\nabcdef";
    let end = match scan_request_head(data) {
        HeadScan::Complete { header_end } => header_end,
        other => panic!("head should be complete: {other:?}"),
    };
    assert_eq!(end, data.len() - 6);
    let head = parse_request_head(&request_head_text(data, end)).unwrap();
    assert_eq!(head.path, "/keys");
    assert_eq!(head.content_length, 3);
    assert_eq!(request_body(data, end, head.content_length), Ok("abc".to_owned()));
    assert_eq!(request_body(data, end, 7), Err(HttpRequestError::ShortBody));
    assert_eq!(scan_request_head(b"GET / HTTP/1.1\r\n"), HeadScan::NeedMore);
    assert_eq!(scan_request_head(&vec![b'a'; 65537]), HeadScan::TooLarge);
    assert_eq!(parse_request_head("\r\n\r\n"), Err(HttpRequestError::MissingMethod));
    assert_eq!(parse_request_head("GET\r\n\r\n"), Err(HttpRequestError::MissingPath));
    let head = parse_request_head("GET /p\r\nContent-Length: x\r\n\r\n").unwrap();
    assert_eq!(head.content_length, 0);
}

#[test]
fn lossy_decoding_replaces_invalid_bytes() {
    let data = b"\xffok";
    assert_eq!(request_body(data, 0, 3), Ok("\u{fffd}ok".to_owned()));
}

#[test]
fn response_texts() {
    assert_eq!(
        response_head(404, 9),
        "HTTP/1.1 404 Not Found\r\nContent-Type: text/plain\r\nContent-Length: 9\r\nConnection: close\r\n\r\n"
    );
    assert_eq!(response_head(500, 0).lines().next(), Some("HTTP/1.1 500 Error"));
    assert_eq!(
        post_request("h", 80, "/p", "é"),
        "POST /p HTTP/1.1\r\nHost: h:80\r\nContent-Type: text/plain\r\nContent-Length: 2\r\nConnection: close\r\n\r\né"
    );
    assert_eq!(response_body(b"HTTP/1.1 200 OK\r\n\r\nbody"), Some("body".to_owned()));
    assert_eq!(response_body(b"HTTP/1.1 200 OK\r\n"), None);
    assert_eq!(find_subslice(b"abcabc", b"ca"), Some(2));
    assert_eq!(find_subslice(b"ab", b"abc"), None);
}

#[test]
fn text_helpers() {
    assert_eq!(decimal_string(0), "0");
    assert_eq!(decimal_string(1234567890123), "1234567890123");
    assert_eq!(trim_str("\u{3000} x \u{85}"), "x");
}

#[test]
fn exchange_replies() {
    assert_eq!(exchange_reply(&ExchangeOutcome::BadEnvelope), (400, "invalid envelope".to_owned()));
    assert_eq!(exchange_reply(&ExchangeOutcome::UnknownPath), (404, "not found".to_owned()));
    assert_eq!(exchange_reply(&ExchangeOutcome::Rejected), (401, "verification failed".to_owned()));
    let e = envelope(MessageContext::HttpResponse { status_code: 200, path: "/k".to_owned() });
    let (code, body) = exchange_reply(&ExchangeOutcome::Answered(e.clone()));
    assert_eq!(code, 200);
    assert_eq!(body, serialize_envelope(&e));
}

#[test]
fn exchange_outcomes_are_chosen_in_order() {
    let e = envelope(MessageContext::UdpAnnouncement);
    assert!(matches!(exchange_outcome(false, false, Ok(e.clone())), ExchangeOutcome::BadEnvelope));
    assert!(matches!(exchange_outcome(true, false, Ok(e.clone())), ExchangeOutcome::UnknownPath));
    assert!(matches!(exchange_outcome(true, true, Err(())), ExchangeOutcome::Rejected));
    match exchange_outcome(true, true, Ok(e.clone())) {
        ExchangeOutcome::Answered(a) => assert_eq!(a, e),
        _ => panic!("should be answered"),
    }
}

#[test]
fn fetched_keys_are_recorded_by_participant() {
    let mut keys = KeyValues::new();
    record_fetched_key(&mut keys, &"a".to_owned(), Ok("ssh-ed25519 AAA a".to_owned()));
    record_fetched_key(&mut keys, &"b".to_owned(), Err(RuntimeError::HttpRequest));
    record_fetched_key(&mut keys, &"a".to_owned(), Ok("ssh-ed25519 BBB a".to_owned()));
    assert_eq!(keys.get("a"), Some("ssh-ed25519 BBB a".to_owned()));
    assert_eq!(keys.get("b"), None);
    assert_eq!(keys.values(), vec!["ssh-ed25519 BBB a".to_owned()]);
}
