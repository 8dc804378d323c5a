use unity_cli::framing::encode_frame;
use unity_cli::framing::header_status;
use unity_cli::framing::parse_content_length;
use unity_cli::framing::HeaderProgress;
use unity_cli::framing::MAX_HEADER_BYTES;
use unity_cli::jsonval::serialized_ref_entry_len;

#[test]
fn frames_announce_the_body_length() {
    let body: Vec<u8> = Vec::from("{\"jsonrpc\":\"2.0\"}".as_bytes());
    let frame = encode_frame(&body);
    let expected = format!("Content-Length: {}\r\n\r\n{{\"jsonrpc\":\"2.0\"}}", body.len());
    assert_eq!(frame, expected.as_bytes());
}

#[test]
fn an_encoded_header_parses_back_to_the_length() {
    let body: Vec<u8> = vec![1, 2, 3, 4, 5];
    let frame = encode_frame(&body);
    let header_end = frame.len() - body.len();
    let header = std::str::from_utf8(&frame[..header_end]).expect("an ASCII header");
    assert_eq!(parse_content_length(header), Some(5));
}

#[test]
fn header_reading_stops_at_the_empty_line_or_the_bound() {
    let mut h: Vec<u8> = Vec::from("Content-Length: 2\r\n\r".as_bytes());
    assert!(matches!(header_status(&h), HeaderProgress::NeedMore));
    h.push(b'\n');
    assert!(matches!(header_status(&h), HeaderProgress::Done));

    let oversized: Vec<u8> = vec![b'x'; MAX_HEADER_BYTES + 1];
    assert!(matches!(header_status(&oversized), HeaderProgress::TooLong));
}

#[test]
fn the_content_length_key_is_matched_case_insensitively() {
    assert_eq!(parse_content_length("content-LENGTH:  42  \r\n\r\n"), Some(42));
    assert_eq!(
        parse_content_length("X-Other: 9\r\nContent-Length: 17\r\n\r\n"),
        Some(17)
    );
    assert_eq!(parse_content_length("X-Other: 9\r\n\r\n"), None);
    assert_eq!(parse_content_length("Content-Length: +42\r\n\r\n"), Some(42));
    assert_eq!(parse_content_length("Content-Length: many\r\n\r\n"), None);
}

#[test]
fn the_measured_entry_size_is_the_real_encoding_size() {
    let snippet = String::from("var player = new Player(\"héro\");");
    let n = serialized_ref_entry_len(7, 13, &snippet);

    let mut m = serde_json::Map::new();
    m.insert(String::from("line"), serde_json::Value::from(7u64));
    m.insert(String::from("column"), serde_json::Value::from(13u64));
    m.insert(String::from("snippet"), serde_json::Value::from(snippet));
    let expected = serde_json::to_vec(&serde_json::Value::Object(m)).expect("serializable");
    assert_eq!(n, expected.len());
    assert!(n > 0);
}
