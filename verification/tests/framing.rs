use relay_http::decode;
use relay_http::encode;
use relay_http::DecodeError;
use relay_http::EncodeError;
use relay_http::Header;
use relay_http::StructuredRequest;
use relay_http::Version;

fn header(name: &[u8], value: &[u8]) -> Header {
    Header { name: name.to_vec(), value: value.to_vec() }
}

fn get_request(target: &[u8], headers: Vec<Header>, body: Vec<u8>) -> StructuredRequest {
    StructuredRequest {
        method: b"GET".to_vec(),
        target: target.to_vec(),
        version: Version::Http11,
        headers,
        body,
        host: Some(String::from("example.org")),
    }
}

#[test]
fn encode_get_exact_bytes() {
    let req = get_request(b"/index.html", vec![header(b"Host", b"example.org")], vec![]);
    let bytes = encode(&req).unwrap();
    assert_eq!(bytes, b"GET /index.html HTTP/1.1\nHost: example.org\n\n".to_vec());
}

#[test]
fn encode_http10_and_body() {
    let req = StructuredRequest {
        method: b"POST".to_vec(),
        target: b"/submit?q=1".to_vec(),
        version: Version::Http10,
        headers: vec![header(b"A", b"1"), header(b"A", b"2")],
        body: b"payload".to_vec(),
        host: None,
    };
    let bytes = encode(&req).unwrap();
    assert_eq!(bytes, b"POST /submit?q=1 HTTP/1.0\nA: 1\nA: 2\n\npayload".to_vec());
}

#[test]
fn encode_missing_target_fails() {
    let req = get_request(b"", vec![header(b"Host", b"example.org")], vec![]);
    assert_eq!(encode(&req).unwrap_err(), EncodeError::MissingTarget);
}

#[test]
fn encode_empty_header_name_fails() {
    let req = get_request(b"/", vec![header(b"Host", b"x"), header(b"", b"y")], vec![]);
    assert_eq!(encode(&req).unwrap_err(), EncodeError::EmptyHeaderName);
}

#[test]
fn encode_bad_header_value_fails() {
    let req = get_request(b"/", vec![header(b"Host", b"two\nlines")], vec![]);
    assert_eq!(encode(&req).unwrap_err(), EncodeError::InvalidHeaderValue);
}

#[test]
fn encode_reports_first_bad_header() {
    let req = get_request(b"/", vec![header(b"H", b"bad\x01"), header(b"", b"y")], vec![]);
    assert_eq!(encode(&req).unwrap_err(), EncodeError::InvalidHeaderValue);
}

#[test]
fn decode_basic_response() {
    let raw = b"HTTP/1.1 200 OK\nContent-Type: text/plain\n\nhello".to_vec();
    let resp = decode(&raw).unwrap();
    assert_eq!(resp.status, 200);
    assert_eq!(resp.version, Version::Http11);
    assert_eq!(resp.headers.len(), 1);
    assert_eq!(resp.headers[0].name, b"Content-Type".to_vec());
    assert_eq!(resp.headers[0].value, b"text/plain".to_vec());
    assert_eq!(resp.body, b"hello".to_vec());
}

#[test]
fn decode_unterminated_headers_fail() {
    let raw = b"HTTP/1.1 200 OK\nContent-Type: text/plain\n".to_vec();
    assert_eq!(decode(&raw).unwrap_err(), DecodeError::Incomplete);
}

#[test]
fn decode_empty_input_fails() {
    assert_eq!(decode(&Vec::new()).unwrap_err(), DecodeError::Incomplete);
}

#[test]
fn decode_unterminated_status_line_fails() {
    let raw = b"HTTP/1.1 200 OK".to_vec();
    assert_eq!(decode(&raw).unwrap_err(), DecodeError::Incomplete);
}

#[test]
fn decode_missing_version_fails() {
    let raw = b"XTTP/1.1 200 OK\n\n".to_vec();
    assert_eq!(decode(&raw).unwrap_err(), DecodeError::MissingVersion);
}

#[test]
fn decode_missing_status_fails() {
    let raw = b"HTTP/1.1 20x OK\n\n".to_vec();
    assert_eq!(decode(&raw).unwrap_err(), DecodeError::MissingStatus);
}

#[test]
fn decode_status_out_of_range_fails() {
    let raw = b"HTTP/1.1 099 Low\n\n".to_vec();
    assert_eq!(decode(&raw).unwrap_err(), DecodeError::InvalidStatus);
    let raw = b"HTTP/1.1 600 High\n\n".to_vec();
    assert_eq!(decode(&raw).unwrap_err(), DecodeError::InvalidStatus);
}

#[test]
fn decode_version_mapping() {
    let resp = decode(&b"HTTP/1.0 200 OK\n\n".to_vec()).unwrap();
    assert_eq!(resp.version, Version::Http10);
    let resp = decode(&b"HTTP/1.7 200 OK\n\n".to_vec()).unwrap();
    assert_eq!(resp.version, Version::Http11);
}

#[test]
fn decode_no_reason_phrase() {
    let resp = decode(&b"HTTP/1.1 204\n\n".to_vec()).unwrap();
    assert_eq!(resp.status, 204);
    assert_eq!(resp.headers.len(), 0);
    assert_eq!(resp.body, Vec::<u8>::new());
}

#[test]
fn decode_tolerates_crlf() {
    let raw = b"HTTP/1.1 200 OK\r\nServer: a\r\n\r\nbody".to_vec();
    let resp = decode(&raw).unwrap();
    assert_eq!(resp.status, 200);
    assert_eq!(resp.headers.len(), 1);
    assert_eq!(resp.headers[0].name, b"Server".to_vec());
    assert_eq!(resp.headers[0].value, b"a".to_vec());
    assert_eq!(resp.body, b"body".to_vec());
}

#[test]
fn decode_trims_value_whitespace() {
    let raw = b"HTTP/1.1 200 OK\nA:   padded value \t\nB:\n\n".to_vec();
    let resp = decode(&raw).unwrap();
    assert_eq!(resp.headers.len(), 2);
    assert_eq!(resp.headers[0].value, b"padded value".to_vec());
    assert_eq!(resp.headers[1].value, Vec::<u8>::new());
}

#[test]
fn decode_keeps_duplicate_headers_in_order() {
    let raw = b"HTTP/1.1 200 OK\nSet-Cookie: a=1\nSet-Cookie: b=2\n\n".to_vec();
    let resp = decode(&raw).unwrap();
    assert_eq!(resp.headers.len(), 2);
    assert_eq!(resp.headers[0].value, b"a=1".to_vec());
    assert_eq!(resp.headers[1].value, b"b=2".to_vec());
}

#[test]
fn decode_header_without_colon_fails() {
    let raw = b"HTTP/1.1 200 OK\nno colon here\n\n".to_vec();
    assert_eq!(decode(&raw).unwrap_err(), DecodeError::InvalidHeader);
}

#[test]
fn decode_control_byte_in_value_fails() {
    let raw = b"HTTP/1.1 200 OK\nA: bad\x01value\n\n".to_vec();
    assert_eq!(decode(&raw).unwrap_err(), DecodeError::InvalidHeader);
}

#[test]
fn decode_sixteen_headers_pass() {
    let mut raw = b"HTTP/1.1 200 OK\n".to_vec();
    for i in 0..16 {
        raw.extend_from_slice(format!("H{}: v\n", i).as_bytes());
    }
    raw.extend_from_slice(b"\nrest");
    let resp = decode(&raw).unwrap();
    assert_eq!(resp.headers.len(), 16);
    assert_eq!(resp.body, b"rest".to_vec());
}

#[test]
fn decode_seventeen_headers_fail() {
    let mut raw = b"HTTP/1.1 200 OK\n".to_vec();
    for i in 0..17 {
        raw.extend_from_slice(format!("H{}: v\n", i).as_bytes());
    }
    raw.extend_from_slice(b"\n");
    assert_eq!(decode(&raw).unwrap_err(), DecodeError::TooManyHeaders);
}

#[test]
fn decode_body_is_everything_after_blank_line() {
    let raw = b"HTTP/1.1 200 OK\n\nfirst\nsecond\n\nthird".to_vec();
    let resp = decode(&raw).unwrap();
    assert_eq!(resp.body, b"first\nsecond\n\nthird".to_vec());
}

#[test]
fn framing_round_trip() {
    let headers = vec![header(b"Host", b"example.org"), header(b"Accept", b"*/*")];
    let body = b"the body".to_vec();
    let req = get_request(b"/page", headers, body.clone());
    let encoded = encode(&req).unwrap();
    let line_end = encoded.iter().position(|&b| b == b'\n').unwrap();
    let mut response_bytes = b"HTTP/1.1 200 OK".to_vec();
    response_bytes.extend_from_slice(&encoded[line_end..]);
    let resp = decode(&response_bytes).unwrap();
    assert_eq!(resp.headers.len(), req.headers.len());
    for (got, sent) in resp.headers.iter().zip(req.headers.iter()) {
        assert_eq!(got.name, sent.name);
        assert_eq!(got.value, sent.value);
    }
    assert_eq!(resp.body, body);
}
