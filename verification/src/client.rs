//! The client orchestration: one stateless request/response exchange.
//! The exchange is a linear pipeline — extract the host, encode the
//! request, hand the bytes to the externally supplied transport, decode
//! what comes back — and every stage fails fast, with no retry and no
//! partial result.
//!
//! The transport itself (an anonymizing, string-based channel keyed by the
//! directory cache) is outside this library: `prepare_send` builds
//! everything the transport needs, and `finish_send` decodes what it
//! returned.  The caller runs the transport between the two.

use vstd::prelude::*;

use crate::decode::decode;
use crate::decode::decode_spec;
use crate::encode::encode;
use crate::encode::encode_result;
use crate::message::DecodeError;
use crate::message::EncodeError;
use crate::message::Error;
use crate::message::RespView;
use crate::message::StructuredRequest;
use crate::message::StructuredResponse;

verus! {

/// The routing configuration for the transport: an optional scratch
/// directory and optional node and relay lists.  The client never inspects
/// it; it is handed to the transport unchanged on every call.
#[derive(Clone, Debug)]
pub struct DirectoryCache {
    pub tmp_dir: Option<String>,
    pub nodes: Option<Vec<String>>,
    pub relays: Option<Vec<String>>,
}

/// What one send hands to the transport: the host to reach and the encoded
/// request bytes, already checked to be valid UTF-8 so that they can cross
/// the string-based transport boundary.
#[derive(Debug)]
pub struct Transmission {
    pub host: String,
    pub payload: Vec<u8>,
}

/// Relies on core::str::from_utf8: it returns `Ok` exactly when the bytes
/// are valid UTF-8, which vstd states as `valid_utf8`.
#[verifier::external_body]
fn check_utf8(b: &Vec<u8>) -> (r: bool)
    ensures
        r == vstd::utf8::valid_utf8(b@),
{
    match core::str::from_utf8(b.as_slice()) {
        Ok(_) => true,
        Err(_) => false,
    }
}

/// A client for single request/response exchanges, holding only the
/// immutable directory cache configuration across calls.
pub struct Client {
    /// The configuration handed unchanged to the transport on every call.
    pub dir_cache: DirectoryCache,
}

impl Client {
    /// Creates a client around the given directory cache configuration.
    pub fn new(dir_cache: DirectoryCache) -> (c: Client)
        ensures
            c.dir_cache == dir_cache,
    {
        Client { dir_cache }
    }

    /// The first half of a send: checks that the request's URI carries a
    /// host, encodes the request, and checks that the encoded bytes are
    /// valid UTF-8 for the string-based transport.  Returns exactly the
    /// host and the encoded bytes, or the first failure: `MissingHost` when
    /// the host is absent, the encoder's error when encoding fails, and
    /// `PayloadNotUtf8` when the bytes cannot cross the string boundary.
    pub fn prepare_send(&self, req: &StructuredRequest) -> (r: Result<Transmission, Error>)
        ensures
            match r {
                Ok(t) => {
                    &&& req@.host matches Some(h) && t.host@ == h
                    &&& encode_result(req@) matches Ok(bytes) && bytes == t.payload@
                    &&& vstd::utf8::valid_utf8(t.payload@)
                },
                Err(e) => match e {
                    Error::MissingHost => req@.host is None,
                    Error::Encoding(ee) => req@.host is Some && (encode_result(req@) == Err::<
                        Seq<u8>,
                        EncodeError,
                    >(ee) || (ee == EncodeError::PayloadNotUtf8 && (encode_result(req@) matches Ok(
                        bytes,
                    ) && !vstd::utf8::valid_utf8(bytes)))),
                    _ => false,
                },
            },
    {
        let host: String = match &req.host {
            None => {
                return Err(Error::MissingHost);
            },
            Some(h) => h.clone(),
        };
        let payload = match encode(req) {
            Err(e) => {
                return Err(Error::Encoding(e));
            },
            Ok(p) => p,
        };
        if !check_utf8(&payload) {
            return Err(Error::Encoding(EncodeError::PayloadNotUtf8));
        }
        Ok(Transmission { host, payload })
    }

    /// The second half of a send: decodes the raw bytes the transport
    /// returned.  Returns exactly the decoded structured response, or the
    /// decoder's failure.
    pub fn finish_send(&self, raw: &Vec<u8>) -> (r: Result<StructuredResponse, Error>)
        ensures
            match r {
                Ok(resp) => decode_spec(raw@) == Ok::<RespView, DecodeError>(resp@),
                Err(e) => e matches Error::Decoding(de) && decode_spec(raw@) == Err::<
                    RespView,
                    DecodeError,
                >(de),
            },
    {
        match decode(raw) {
            Ok(resp) => Ok(resp),
            Err(e) => Err(Error::Decoding(e)),
        }
    }
}

} // verus!
