//! Framing and classification.

use serde_json::Value;

use dap_mux::json::{json_from_value, value_from_json, Json};
use dap_mux::protocol::{
    decode_body, decode_header, encode_message, is_event, is_request, is_response, read_message,
    ErrorKind, HeaderBuffer, ProtocolError,
};
use dap_mux::text::NumberError;

fn value(text: &str) -> Value {
    serde_json::from_str(text).unwrap()
}

fn json(text: &str) -> Json {
    json_from_value(value(text))
}

#[test]
fn classification() {
    assert!(is_request(&json(
        r#"{"type": "request", "command": "next"}"#
    )));
    assert!(!is_request(&json(
        r#"{"type": "event", "event": "stopped"}"#
    )));
    assert!(is_response(&json(
        r#"{"type": "response", "command": "next"}"#
    )));
    assert!(is_event(&json(
        r#"{"type": "event", "event": "stopped"}"#
    )));
}

#[test]
fn other_values_are_no_messages() {
    for text in [r#"{}"#, r#"{"type": 1}"#, r#"["request"]"#, "null", "\"request\""] {
        let message = json(text);
        assert!(!is_request(&message));
        assert!(!is_response(&message));
        assert!(!is_event(&message));
    }
}

#[test]
fn encode_round_trips() {
    let message = value(r#"{"seq": 1, "type": "request", "command": "next"}"#);
    let bytes = encode_message(&json_from_value(message.clone()));
    let sep: usize = bytes.windows(4).position(|w| w == b"\r\n\r\n").unwrap();
    let len: usize = decode_header(&bytes[..sep + 4]).unwrap();
    let body = &bytes[sep + 4..];
    assert_eq!(len, body.len());
    assert_eq!(value_from_json(&decode_body(body).unwrap()), message);
}

#[test]
fn decode_header_missing() {
    assert!(decode_header(b"Cromulent: 5\r\n\r\n").is_err());
}

#[test]
fn read_write_round_trip() {
    let message = value(
        r#"{"seq": 7, "type": "event", "event": "stopped", "body": {"reason": "step"}}"#,
    );
    let bytes = encode_message(&json_from_value(message.clone()));
    let (got, used) = read_message(&bytes).unwrap();
    assert_eq!(value_from_json(&got), message);
    assert_eq!(used, bytes.len());
}

#[test]
fn read_eof_is_error() {
    let err = read_message(&[]).unwrap_err();
    assert!(matches!(err, ProtocolError::UnexpectedEof));
}

#[test]
fn the_frame_is_exact() {
    let bytes = encode_message(&json(r#"{"a": 1}"#));
    assert_eq!(bytes, b"Content-Length: 7\r\n\r\n{\"a\":1}".to_vec());
}

#[test]
fn messages_are_read_one_by_one() {
    let first = value(r#"{"seq": 1, "text": "é世"}"#);
    let second = value(r#"{"seq": 2, "list": [1, 2.5, null, true, "x"]}"#);
    let mut stream = encode_message(&json_from_value(first.clone()));
    let length: usize = stream.len();
    stream.extend(encode_message(&json_from_value(second.clone())));
    let (got, used) = read_message(&stream).unwrap();
    assert_eq!(value_from_json(&got), first);
    assert_eq!(used, length);
    let (got, used) = read_message(&stream[length..]).unwrap();
    assert_eq!(value_from_json(&got), second);
    assert_eq!(length + used, stream.len());
}

#[test]
fn a_truncated_frame_is_an_unexpected_end() {
    let bytes = encode_message(&json(r#"{"seq": 1}"#));
    let header = bytes.len() - br#"{"seq":1}"#.len();
    for n in 0..bytes.len() {
        let err = read_message(&bytes[..n]).unwrap_err();
        assert_eq!(err.kind(), ErrorKind::UnexpectedEof);
        if n < header {
            assert!(matches!(err, ProtocolError::UnexpectedEof));
        } else {
            assert!(matches!(err, ProtocolError::TruncatedBody));
        }
    }
}

#[test]
fn header_fields_may_stand_in_any_order() {
    let header = b"Content-Type: dap\r\nContent-Length:   42 \r\n\r\n";
    assert_eq!(decode_header(header).unwrap(), 42);
    assert_eq!(decode_header(b"Content-Length:7").unwrap(), 7);
    assert_eq!(decode_header(b"Content-Length: +7\r\n\r\n").unwrap(), 7);
}

#[test]
fn header_names_are_case_sensitive() {
    let err = decode_header(b"content-length: 5\r\n\r\n").unwrap_err();
    match err {
        ProtocolError::MissingContentLength(text) => {
            assert_eq!(text, "content-length: 5\r\n\r\n")
        }
        other => panic!("unexpected {other:?}"),
    }
}

#[test]
fn a_bad_length_is_reported() {
    let bad = |data: &[u8]| match decode_header(data).unwrap_err() {
        ProtocolError::BadContentLength(e) => e,
        other => panic!("unexpected {other:?}"),
    };
    assert_eq!(bad(b"Content-Length: \r\n\r\n"), NumberError::Empty);
    assert_eq!(bad(b"Content-Length: -1\r\n\r\n"), NumberError::InvalidDigit);
    assert_eq!(bad(b"Content-Length: 1x\r\n\r\n"), NumberError::InvalidDigit);
    assert_eq!(
        bad(b"Content-Length: 99999999999999999999\r\n\r\n"),
        NumberError::TooLarge
    );
}

#[test]
fn a_header_that_is_no_text_is_reported() {
    let err = decode_header(&[0xff, 0xfe]).unwrap_err();
    assert!(matches!(err, ProtocolError::NonUtf8Header(_)));
}

#[test]
fn a_body_that_is_no_document_is_reported() {
    let err = decode_body(b"{").unwrap_err();
    assert!(matches!(err, ProtocolError::InvalidBody(_)));
    let err = read_message(b"Content-Length: 1\r\n\r\n{").unwrap_err();
    assert!(matches!(err, ProtocolError::InvalidBody(_)));
}

#[test]
fn a_header_is_complete_at_the_empty_line() {
    let mut header = HeaderBuffer::new();
    let bytes = b"Content-Length: 3\r\n\r\n";
    for (i, byte) in bytes.iter().enumerate() {
        assert_eq!(header.push(*byte), i + 1 == bytes.len());
    }
    assert_eq!(header.content_length().unwrap(), 3);
}

#[test]
fn a_body_that_is_no_object_is_reported() {
    for text in ["5", "[1]", "null", "true", "\"x\""] {
        let err = decode_body(text.as_bytes()).unwrap_err();
        assert!(matches!(err, ProtocolError::NotAnObject));
        let frame = format!("Content-Length: {}\r\n\r\n{text}", text.len());
        let err = read_message(frame.as_bytes()).unwrap_err();
        assert!(matches!(err, ProtocolError::NotAnObject));
    }
    assert!(decode_body(b"{}").is_ok());
}

#[test]
fn a_frame_around_no_object_does_not_read_back() {
    let bytes = encode_message(&json("[1]"));
    assert_eq!(bytes, b"Content-Length: 3\r\n\r\n[1]".to_vec());
    let err = read_message(&bytes).unwrap_err();
    assert!(matches!(err, ProtocolError::NotAnObject));
}

#[test]
fn a_length_that_nothing_backs_is_an_unexpected_end() {
    let frame = format!("Content-Length: {}\r\n\r\n{{}}", usize::MAX);
    let err = read_message(frame.as_bytes()).unwrap_err();
    assert!(matches!(err, ProtocolError::TruncatedBody));
    assert_eq!(err.kind(), ErrorKind::UnexpectedEof);
}

#[test]
fn errors_say_what_went_wrong() {
    let said = |data: &[u8], detail: &str| decode_header(data).unwrap_err().message(detail);
    assert_eq!(
        said(b"Content-Length: \r\n\r\n", "unused"),
        "bad Content-Length: cannot parse integer from empty string"
    );
    assert_eq!(
        said(b"Content-Length: 1x\r\n\r\n", "unused"),
        "bad Content-Length: invalid digit found in string"
    );
    assert_eq!(
        said(b"Content-Length: 99999999999999999999\r\n\r\n", "unused"),
        "bad Content-Length: number too large to fit in target type"
    );
    assert_eq!(
        said(b"Cromulent: \"5\"\r\n\r\n", "unused"),
        "Missing Content-Length in header: \"Cromulent: \\\"5\\\"\\r\\n\\r\\n\""
    );
    assert_eq!(
        decode_header(b"Cromulent: 5").unwrap_err().message_with("it"),
        "Missing Content-Length in header: it"
    );
    assert_eq!(said(&[0xff], "why"), "non-ASCII header: why");
    assert_eq!(
        decode_body(b"{").unwrap_err().message("why"),
        "invalid DAP body: why"
    );
    assert_eq!(
        decode_body(b"5").unwrap_err().message("unused"),
        "invalid DAP body: not a JSON object"
    );
    assert_eq!(
        ProtocolError::UnexpectedEof.message("unused"),
        "Connection closed while reading DAP header"
    );
    assert_eq!(ProtocolError::TruncatedBody.message("unused"), "early eof");
    assert_eq!(
        read_message(b"Content-Length: 3\r\n\r\n{}").unwrap_err().message("unused"),
        "early eof"
    );
}

#[test]
fn number_errors_read_as_those_of_the_standard_library() {
    for text in ["", "x", "99999999999999999999"] {
        let ours = match decode_header(format!("Content-Length: {text}").as_bytes()).unwrap_err() {
            ProtocolError::BadContentLength(e) => e.message(),
            other => panic!("unexpected {other:?}"),
        };
        assert_eq!(ours, text.parse::<usize>().unwrap_err().to_string());
    }
}

#[test]
fn what_is_no_message_is_invalid_data() {
    for data in [&b"{"[..], b"5"] {
        assert_eq!(decode_body(data).unwrap_err().kind(), ErrorKind::InvalidData);
    }
    for data in [&b"\xff"[..], b"Content-Length: x", b"Other: 1"] {
        assert_eq!(decode_header(data).unwrap_err().kind(), ErrorKind::InvalidData);
    }
    assert_eq!(
        read_message(b"").unwrap_err().kind(),
        ErrorKind::UnexpectedEof
    );
}
