use looklapi::envelope::{MqMessage, decode_envelope};

fn msg(guid: &[u8], ts: &[u8], retry: u32, content: &[u8]) -> MqMessage {
    MqMessage {
        guid: guid.to_vec(),
        timespan: ts.to_vec(),
        current_retry: retry,
        json_content: content.to_vec(),
    }
}

#[test]
fn encode_canonical_frame() {
    let m = msg(b"abc", b"2024-01-02T03:04:05+00:00", 7, b"{\"a\":1}");
    let frame = m.encode();
    assert_eq!(
        String::from_utf8(frame).unwrap(),
        "{\"guid\":\"abc\",\"timespan\":\"2024-01-02T03:04:05+00:00\",\"current_retry\":7,\"json_content\":\"{\\\"a\\\":1}\"}"
    );
}

#[test]
fn encode_escapes_quote_backslash_and_controls() {
    let m = msg(b"g", b"t", 0, &[0x22, 0x5c, 0x0a, 0x01, 0x41]);
    let frame = m.encode();
    let text = String::from_utf8(frame).unwrap();
    assert!(text.ends_with("\"json_content\":\"\\\"\\\\\\u000a\\u0001A\"}"));
}

#[test]
fn decode_undoes_encode() {
    let m = msg(b"0123456789abcdef", b"2024-06-01T00:00:00+00:00", 3, b"[1,2,3]");
    let back = decode_envelope(&m.encode()).expect("round trip");
    assert_eq!(back, m);
}

#[test]
fn decode_undoes_encode_with_awkward_bytes() {
    let m = msg(&[0x00, 0x22, 0x5c, 0x41, 0x1f], &[0x7f, 0xc3, 0xa9], u32::MAX, &[0x5c, 0x22]);
    let back = decode_envelope(&m.encode()).expect("round trip");
    assert_eq!(back, m);
}

#[test]
fn decode_rejects_empty_and_garbage() {
    assert!(decode_envelope(&Vec::new()).is_none());
    assert!(decode_envelope(&b"hello".to_vec()).is_none());
    assert!(decode_envelope(&b"{}".to_vec()).is_none());
}

#[test]
fn decode_rejects_trailing_bytes() {
    let mut frame = msg(b"g", b"t", 0, b"1").encode();
    frame.push(0x20);
    assert!(decode_envelope(&frame).is_none());
}

#[test]
fn decode_rejects_truncated_frame() {
    let frame = msg(b"g", b"t", 0, b"1").encode();
    let cut = frame[..frame.len() - 1].to_vec();
    assert!(decode_envelope(&cut).is_none());
}

#[test]
fn decode_rejects_retry_too_large_for_u32() {
    let text = "{\"guid\":\"g\",\"timespan\":\"t\",\"current_retry\":99999999999,\"json_content\":\"1\"}";
    assert!(decode_envelope(&text.as_bytes().to_vec()).is_none());
}

#[test]
fn decode_rejects_raw_control_in_string() {
    let mut frame = Vec::new();
    frame.extend_from_slice(b"{\"guid\":\"");
    frame.push(0x01);
    frame.extend_from_slice(b"\",\"timespan\":\"t\",\"current_retry\":0,\"json_content\":\"1\"}");
    assert!(decode_envelope(&frame).is_none());
}

#[test]
fn decode_reads_unicode_escapes() {
    let text = "{\"guid\":\"a\\u0000b\",\"timespan\":\"t\",\"current_retry\":2,\"json_content\":\"\\\\\"}";
    let m = decode_envelope(&text.as_bytes().to_vec()).expect("valid frame");
    assert_eq!(m.guid, vec![0x61, 0x00, 0x62]);
    assert_eq!(m.current_retry, 2);
    assert_eq!(m.json_content, vec![0x5c]);
}

#[test]
fn fresh_envelope_has_hex_guid_and_rfc3339_timespan() {
    let m = MqMessage::new(b"{\"x\":1}".to_vec());
    assert_eq!(m.current_retry, 0);
    assert_eq!(m.json_content, b"{\"x\":1}".to_vec());
    assert_eq!(m.guid.len(), 32);
    for b in &m.guid {
        assert!((0x30..=0x39).contains(b) || (0x61..=0x66).contains(b));
    }
    assert!(!m.timespan.is_empty());
    for b in &m.timespan {
        let ok = (0x30..=0x39).contains(b)
            || [0x2d, 0x3a, 0x54, 0x2e, 0x2b, 0x5a].contains(b);
        assert!(ok, "unexpected timestamp byte {b}");
    }
    let other = MqMessage::new(b"{\"x\":1}".to_vec());
    assert_ne!(m.guid, other.guid);
}
