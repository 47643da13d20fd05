//! The request encoder: serializes a structured request into raw wire
//! bytes.  The request line and every header, in original order, are
//! emitted verbatim (no case normalization, no folding, no escaping), each
//! line terminated by a single `\n`; one empty line closes the header
//! section and the body bytes follow unmodified.  No Content-Length or
//! other header is synthesized.

use vstd::prelude::*;
use vstd::assert_seqs_equal;

use crate::frame::encoded_request_bytes;
use crate::frame::header_line_bytes;
use crate::frame::header_lines_bytes;
use crate::frame::push_all;
use crate::frame::request_line_bytes;
use crate::frame::version_token;
use crate::message::EncodeError;
use crate::message::HeaderView;
use crate::message::ReqView;
use crate::message::StructuredRequest;
use crate::message::Version;
use crate::message::check_header_value;
use crate::message::headers_view;
use crate::message::valid_header_value;

verus! {

/// A header the encoder accepts: a present (non-empty) name, and a value
/// whose bytes can all appear in a header string.
pub open spec fn encodable_header(h: HeaderView) -> bool {
    h.name.len() > 0 && valid_header_value(h.value)
}

/// The error for the first header, in order, that the encoder rejects; or
/// `None` when every header is encodable.  An absent name is reported
/// before an invalid value of the same header.
pub open spec fn first_header_err(hs: Seq<HeaderView>) -> Option<EncodeError>
    decreases hs.len(),
{
    if hs.len() == 0 {
        None
    } else if hs[0].name.len() == 0 {
        Some(EncodeError::EmptyHeaderName)
    } else if !valid_header_value(hs[0].value) {
        Some(EncodeError::InvalidHeaderValue)
    } else {
        first_header_err(hs.drop_first())
    }
}

/// Exactly what `encode` returns: the request's wire bytes, or the error
/// for an empty target or the first unencodable header.
pub open spec fn encode_result(r: ReqView) -> Result<Seq<u8>, EncodeError> {
    if r.target.len() == 0 {
        Err(EncodeError::MissingTarget)
    } else {
        match first_header_err(r.headers) {
            Some(e) => Err(e),
            None => Ok(encoded_request_bytes(r)),
        }
    }
}

/// As long as the first `i` headers are good, the first error of the whole
/// sequence is the first error of what remains.
proof fn lemma_first_err_skip(hs: Seq<HeaderView>, i: int)
    requires
        0 <= i <= hs.len(),
        forall|j: int| 0 <= j < i ==> encodable_header(#[trigger] hs[j]),
    ensures
        first_header_err(hs) == first_header_err(hs.skip(i)),
    decreases i,
{
    if i == 0 {
        assert_seqs_equal!(hs.skip(0), hs);
    } else {
        lemma_first_err_skip(hs, i - 1);
        assert(encodable_header(hs[i - 1]));
        let t = hs.skip(i - 1);
        assert(t[0] == hs[i - 1]);
        assert(first_header_err(t) == first_header_err(t.drop_first()));
        assert_seqs_equal!(t.drop_first(), hs.skip(i));
    }
}

/// Splitting the last header line off an emitted header block.
proof fn lemma_header_lines_snoc(hs: Seq<HeaderView>)
    requires
        hs.len() > 0,
    ensures
        header_lines_bytes(hs) == header_lines_bytes(hs.drop_last())
            + header_line_bytes(hs.last()),
    decreases hs.len(),
{
    if hs.len() == 1 {
        assert(hs.drop_first().len() == 0);
        assert(header_lines_bytes(hs.drop_first()) == Seq::<u8>::empty());
        assert(hs.drop_last().len() == 0);
        assert(header_lines_bytes(hs.drop_last()) == Seq::<u8>::empty());
        assert(hs.last() == hs[0]);
        assert_seqs_equal!(header_lines_bytes(hs),
            header_lines_bytes(hs.drop_last()) + header_line_bytes(hs.last()));
    } else {
        let t = hs.drop_first();
        lemma_header_lines_snoc(t);
        assert(t.last() == hs.last());
        assert_seqs_equal!(t.drop_last(), hs.drop_last().drop_first());
        assert(header_lines_bytes(hs.drop_last()) == header_line_bytes(hs[0])
            + header_lines_bytes(hs.drop_last().drop_first()));
        assert_seqs_equal!(header_lines_bytes(hs),
            header_lines_bytes(hs.drop_last()) + header_line_bytes(hs.last()));
    }
}

/// Appends the version token of `v` to `out`.
fn push_version(out: &mut Vec<u8>, v: Version)
    ensures
        final(out)@ == old(out)@ + version_token(v),
{
    out.push(72);
    out.push(84);
    out.push(84);
    out.push(80);
    out.push(47);
    out.push(49);
    out.push(46);
    match v {
        Version::Http10 => out.push(48),
        Version::Http11 => out.push(49),
    }
    proof {
        assert_seqs_equal!(out@, old(out)@ + version_token(v));
    }
}

/// Serializes a structured request into its wire bytes, exactly as
/// `encode_result` states: the request line, the headers in original order,
/// the empty line closing the header section, then the raw body.  Fails on
/// an empty target, and on the first header whose name is absent or whose
/// value holds a byte that cannot appear in a header string.
pub fn encode(req: &StructuredRequest) -> (r: Result<Vec<u8>, EncodeError>)
    ensures
        match r {
            Ok(bytes) => encode_result(req@) == Ok::<Seq<u8>, EncodeError>(bytes@),
            Err(e) => encode_result(req@) == Err::<Seq<u8>, EncodeError>(e),
        },
{
    if req.target.len() == 0 {
        return Err(EncodeError::MissingTarget);
    }
    let ghost hs: Seq<HeaderView> = req@.headers;

    let mut out: Vec<u8> = Vec::new();
    push_all(&mut out, &req.method);
    out.push(32);
    push_all(&mut out, &req.target);
    out.push(32);
    push_version(&mut out, req.version);
    out.push(10);
    proof {
        assert_seqs_equal!(out@,
            request_line_bytes(req@.method, req@.target, req@.version));
    }
    let ghost line: Seq<u8> = request_line_bytes(req@.method, req@.target, req@.version);

    let mut i: usize = 0;
    while i < req.headers.len()
        invariant
            i <= req.headers@.len(),
            req@.target.len() > 0,
            hs == req@.headers,
            hs == headers_view(req.headers@),
            hs.len() == req.headers@.len(),
            line == request_line_bytes(req@.method, req@.target, req@.version),
            out@ == line + header_lines_bytes(hs.take(i as int)),
            forall|j: int| 0 <= j < i ==> encodable_header(#[trigger] hs[j]),
        decreases req.headers@.len() - i,
    {
        let h = &req.headers[i];
        proof {
            assert(hs[i as int] == req.headers@[i as int]@);
        }
        if h.name.len() == 0 {
            proof {
                lemma_first_err_skip(hs, i as int);
                assert(hs.skip(i as int).len() == hs.len() - i);
                assert(hs.skip(i as int)[0] == hs[i as int]);
                assert(first_header_err(hs.skip(i as int))
                    == Some(EncodeError::EmptyHeaderName));
            }
            return Err(EncodeError::EmptyHeaderName);
        }
        if !check_header_value(&h.value) {
            proof {
                lemma_first_err_skip(hs, i as int);
                assert(hs.skip(i as int).len() == hs.len() - i);
                assert(hs.skip(i as int)[0] == hs[i as int]);
                assert(first_header_err(hs.skip(i as int))
                    == Some(EncodeError::InvalidHeaderValue));
            }
            return Err(EncodeError::InvalidHeaderValue);
        }
        push_all(&mut out, &h.name);
        out.push(58);
        out.push(32);
        push_all(&mut out, &h.value);
        out.push(10);
        proof {
            let prefix = hs.take(i as int);
            lemma_header_lines_snoc(hs.take(i + 1));
            assert_seqs_equal!(hs.take(i + 1).drop_last(), prefix);
            assert(hs.take(i + 1).last() == hs[i as int]);
            assert_seqs_equal!(out@, line + header_lines_bytes(hs.take(i + 1)));
        }
        i += 1;
    }
    proof {
        lemma_first_err_skip(hs, hs.len() as int);
        assert(hs.skip(hs.len() as int).len() == 0);
        assert_seqs_equal!(hs.take(hs.len() as int), hs);
    }
    out.push(10);
    push_all(&mut out, &req.body);
    proof {
        assert_seqs_equal!(out@, encoded_request_bytes(req@));
    }
    Ok(out)
}

} // verus!
