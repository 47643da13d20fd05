use relay_http::Client;
use relay_http::DecodeError;
use relay_http::DirectoryCache;
use relay_http::EncodeError;
use relay_http::Error;
use relay_http::Header;
use relay_http::StructuredRequest;
use relay_http::Version;

fn empty_cache() -> DirectoryCache {
    DirectoryCache { tmp_dir: None, nodes: None, relays: None }
}

fn request_to(host: Option<&str>, target: &[u8], body: Vec<u8>) -> StructuredRequest {
    StructuredRequest {
        method: b"GET".to_vec(),
        target: target.to_vec(),
        version: Version::Http11,
        headers: vec![Header { name: b"Host".to_vec(), value: b"example.org".to_vec() }],
        body,
        host: host.map(String::from),
    }
}

#[test]
fn new_keeps_directory_cache() {
    let client = Client::new(DirectoryCache {
        tmp_dir: Some(String::from("scratch")),
        nodes: Some(vec![String::from("n1")]),
        relays: None,
    });
    assert_eq!(client.dir_cache.tmp_dir.as_deref(), Some("scratch"));
    assert_eq!(client.dir_cache.nodes.as_deref(), Some(&[String::from("n1")][..]));
    assert!(client.dir_cache.relays.is_none());
}

#[test]
fn prepare_send_builds_transmission() {
    let client = Client::new(empty_cache());
    let req = request_to(Some("example.org"), b"/index.html", vec![]);
    let t = client.prepare_send(&req).unwrap();
    assert_eq!(t.host, "example.org");
    assert_eq!(t.payload, b"GET /index.html HTTP/1.1\nHost: example.org\n\n".to_vec());
}

#[test]
fn prepare_send_missing_host_fails() {
    let client = Client::new(empty_cache());
    let req = request_to(None, b"/index.html", vec![]);
    assert_eq!(client.prepare_send(&req).unwrap_err(), Error::MissingHost);
}

#[test]
fn prepare_send_missing_target_fails() {
    let client = Client::new(empty_cache());
    let req = request_to(Some("example.org"), b"", vec![]);
    assert_eq!(
        client.prepare_send(&req).unwrap_err(),
        Error::Encoding(EncodeError::MissingTarget)
    );
}

#[test]
fn prepare_send_rejects_non_utf8_payload() {
    let client = Client::new(empty_cache());
    let req = request_to(Some("example.org"), b"/bin", vec![0xff, 0xfe]);
    assert_eq!(
        client.prepare_send(&req).unwrap_err(),
        Error::Encoding(EncodeError::PayloadNotUtf8)
    );
}

#[test]
fn prepare_send_accepts_utf8_body() {
    let client = Client::new(empty_cache());
    let req = request_to(Some("example.org"), b"/text", "héllo".as_bytes().to_vec());
    let t = client.prepare_send(&req).unwrap();
    assert!(String::from_utf8(t.payload).is_ok());
}

#[test]
fn finish_send_decodes_response() {
    let client = Client::new(empty_cache());
    let raw = b"HTTP/1.1 200 OK\nContent-Length: 5\n\nhello".to_vec();
    let resp = client.finish_send(&raw).unwrap();
    assert_eq!(resp.status, 200);
    assert_eq!(resp.body, b"hello".to_vec());
}

#[test]
fn finish_send_wraps_decode_error() {
    let client = Client::new(empty_cache());
    let raw = b"HTTP/1.1 200 OK\nHalf: done\n".to_vec();
    assert_eq!(
        client.finish_send(&raw).unwrap_err(),
        Error::Decoding(DecodeError::Incomplete)
    );
}
