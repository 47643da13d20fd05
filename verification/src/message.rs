//! The structured (in-memory, field-decomposed) form of HTTP/1.x messages,
//! the error taxonomy, and the byte-validity predicates shared by the
//! encoder and the decoder.

use vstd::prelude::*;

verus! {

/// The two representable protocol versions.  Higher versions are not
/// representable; the decoder maps any `HTTP/1.x` with `x != 0` to `Http11`.
#[derive(Clone, Copy, Debug, PartialEq, Eq, Structural)]
pub enum Version {
    Http10,
    Http11,
}

/// One header field: a name and a value, kept verbatim.  Headers are stored
/// as an ordered sequence of such pairs; duplicates are permitted and their
/// order is preserved.
#[derive(Clone, Debug)]
pub struct Header {
    pub name: Vec<u8>,
    pub value: Vec<u8>,
}

/// The mathematical model of a header: its name and value as byte sequences.
#[verifier::ext_equal]
pub ghost struct HeaderView {
    pub name: Seq<u8>,
    pub value: Seq<u8>,
}

impl View for Header {
    type V = HeaderView;

    open spec fn view(&self) -> HeaderView {
        HeaderView { name: self.name@, value: self.value@ }
    }
}

/// The model of an ordered header sequence.
pub open spec fn headers_view(hs: Seq<Header>) -> Seq<HeaderView> {
    hs.map_values(|h: Header| h@)
}

/// A structured HTTP request.  `target` is the path plus optional query of
/// the request URI, with no scheme or authority; `host` carries the
/// authority's host component separately (the caller derives both from one
/// well-formed URI).  An empty `target` stands for a URI with no
/// path-and-query component and is rejected by the encoder.
#[derive(Clone, Debug)]
pub struct StructuredRequest {
    pub method: Vec<u8>,
    pub target: Vec<u8>,
    pub version: Version,
    pub headers: Vec<Header>,
    pub body: Vec<u8>,
    pub host: Option<String>,
}

/// The mathematical model of a request.
#[verifier::ext_equal]
pub ghost struct ReqView {
    pub method: Seq<u8>,
    pub target: Seq<u8>,
    pub version: Version,
    pub headers: Seq<HeaderView>,
    pub body: Seq<u8>,
    pub host: Option<Seq<char>>,
}

impl View for StructuredRequest {
    type V = ReqView;

    open spec fn view(&self) -> ReqView {
        ReqView {
            method: self.method@,
            target: self.target@,
            version: self.version,
            headers: headers_view(self.headers@),
            body: self.body@,
            host: match self.host {
                Some(h) => Some(h@),
                None => None,
            },
        }
    }
}

/// A structured HTTP response: status code, version, ordered headers, and
/// the body taken verbatim from everything after the header section.
#[derive(Clone, Debug)]
pub struct StructuredResponse {
    pub status: u16,
    pub version: Version,
    pub headers: Vec<Header>,
    pub body: Vec<u8>,
}

/// The mathematical model of a response.
#[verifier::ext_equal]
pub ghost struct RespView {
    pub status: u16,
    pub version: Version,
    pub headers: Seq<HeaderView>,
    pub body: Seq<u8>,
}

impl View for StructuredResponse {
    type V = RespView;

    open spec fn view(&self) -> RespView {
        RespView {
            status: self.status,
            version: self.version,
            headers: headers_view(self.headers@),
            body: self.body@,
        }
    }
}

/// Why encoding a request failed.
#[derive(Clone, Copy, Debug, PartialEq, Eq, Structural)]
pub enum EncodeError {
    /// The target has no path-and-query component (it is empty).
    MissingTarget,
    /// A header has an absent (empty) name.
    EmptyHeaderName,
    /// A header value holds a byte that cannot appear in a header string.
    InvalidHeaderValue,
    /// The encoded message is not valid UTF-8, so it cannot cross the
    /// string-based transport boundary.
    PayloadNotUtf8,
}

/// Why decoding a response failed.
#[derive(Clone, Copy, Debug, PartialEq, Eq, Structural)]
pub enum DecodeError {
    /// The input ends before the blank line that closes the header section.
    Incomplete,
    /// The status line carries no version token.
    MissingVersion,
    /// The status line carries no numeric status code.
    MissingStatus,
    /// The status code lies outside 100..=599.
    InvalidStatus,
    /// A header line is malformed (no colon, or an invalid name or value).
    InvalidHeader,
    /// The header section holds more than `MAX_HEADERS` headers.
    TooManyHeaders,
}

/// The failure of a whole send: every stage fails fast, with no retry and
/// no partial result.
#[derive(Clone, Debug, PartialEq, Eq)]
pub enum Error {
    /// The request URI carries no host component.
    MissingHost,
    /// The request could not be turned into wire bytes.
    Encoding(EncodeError),
    /// An opaque failure of the external transport, passed on unchanged.
    Transport(String),
    /// The response bytes could not be parsed.
    Decoding(DecodeError),
}

/// Space or horizontal tab: the whitespace that surrounds header values.
pub open spec fn is_ws(b: u8) -> bool {
    b == 32 || b == 9
}

/// An ASCII decimal digit.
pub open spec fn is_digit(b: u8) -> bool {
    48 <= b && b <= 57
}

/// A byte that may appear in a header value: horizontal tab, or visible
/// ASCII including space.  This is what "representable as a UTF-8-compatible
/// header string" means on this wire.
pub open spec fn valid_value_byte(b: u8) -> bool {
    b == 9 || (32 <= b && b <= 126)
}

/// A well-formed header value in the structured form.
pub open spec fn valid_header_value(v: Seq<u8>) -> bool {
    forall|i: int| 0 <= i < v.len() ==> valid_value_byte(#[trigger] v[i])
}

/// A byte that may appear in a header name: visible ASCII other than the
/// colon that separates the name from the value.
pub open spec fn valid_name_byte(b: u8) -> bool {
    33 <= b && b <= 126 && b != 58
}

/// A well-formed, non-empty header name in the structured form.
pub open spec fn valid_header_name(n: Seq<u8>) -> bool {
    n.len() > 0 && forall|i: int| 0 <= i < n.len() ==> valid_name_byte(#[trigger] n[i])
}

/// Reports whether every byte of `v` may appear in a header value.
pub fn check_header_value(v: &Vec<u8>) -> (r: bool)
    ensures
        r == valid_header_value(v@),
{
    let mut i: usize = 0;
    while i < v.len()
        invariant
            i <= v@.len(),
            forall|j: int| 0 <= j < i ==> valid_value_byte(#[trigger] v@[j]),
        decreases v@.len() - i,
    {
        let b = v[i];
        if !(b == 9 || (32 <= b && b <= 126)) {
            assert(!valid_value_byte(v@[i as int]));
            return false;
        }
        i += 1;
    }
    true
}

/// Reports whether `n` is a well-formed, non-empty header name.
pub fn check_header_name(n: &Vec<u8>) -> (r: bool)
    ensures
        r == valid_header_name(n@),
{
    if n.len() == 0 {
        return false;
    }
    let mut i: usize = 0;
    while i < n.len()
        invariant
            i <= n@.len(),
            n@.len() > 0,
            forall|j: int| 0 <= j < i ==> valid_name_byte(#[trigger] n@[j]),
        decreases n@.len() - i,
    {
        let b = n[i];
        if !(33 <= b && b <= 126 && b != 58) {
            assert(!valid_name_byte(n@[i as int]));
            return false;
        }
        i += 1;
    }
    true
}

} // verus!
