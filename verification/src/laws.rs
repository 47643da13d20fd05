//! The framing laws: what holds of the encoder and decoder together, for
//! all messages, proved from the contracts in this crate.
//!
//! The wire framing is symmetric between the two directions: the header
//! section and body that `encode` emits after the request line are exactly
//! what the response parser recovers, and a whole response assembled from a
//! status line, header lines and a body decodes to exactly those parts.
//! Truncated input — header lines with no closing empty line — always
//! fails, never silently truncates.

use vstd::prelude::*;
use vstd::assert_seqs_equal;
use vstd::arithmetic::div_mod::lemma_div_denominator;
use vstd::arithmetic::div_mod::lemma_fundamental_div_mod;

use crate::decode::MAX_HEADERS;
use crate::decode::decode_spec;
use crate::decode::has_status_code;
use crate::decode::has_version_token;
use crate::decode::line_content;
use crate::decode::parse_header_line;
use crate::decode::parse_headers_from;
use crate::decode::parse_status_line;
use crate::encode::encodable_header;
use crate::encode::encode_result;
use crate::encode::first_header_err;
use crate::frame::header_line_bytes;
use crate::frame::header_lines_bytes;
use crate::frame::header_section_bytes;
use crate::frame::lemma_find_from_at;
use crate::frame::lemma_skip_ws_at;
use crate::frame::lemma_trim_end_at;
use crate::frame::request_line_bytes;
use crate::frame::status_digits;
use crate::frame::status_line_bytes;
use crate::frame::version_token;
use crate::message::DecodeError;
use crate::message::EncodeError;
use crate::message::HeaderView;
use crate::message::ReqView;
use crate::message::RespView;
use crate::message::Version;
use crate::message::is_ws;
use crate::message::valid_header_name;
use crate::message::valid_header_value;

verus! {

/// A header that survives the wire unchanged: a well-formed name, a
/// well-formed value, and no whitespace at either end of the value (the
/// decoder strips such whitespace, so it could not come back).
pub open spec fn round_trip_safe_header(h: HeaderView) -> bool {
    &&& valid_header_name(h.name)
    &&& valid_header_value(h.value)
    &&& h.value.len() > 0 ==> !is_ws(h.value[0]) && !is_ws(h.value[h.value.len() - 1])
}

/// A reason phrase that stays within its status line: no line terminator
/// bytes.
pub open spec fn clean_reason(reason: Seq<u8>) -> bool {
    forall|k: int| 0 <= k < reason.len() ==> reason[k] != 10 && #[trigger] reason[k] != 13
}

/// A request whose framing survives the wire: a present target, headers
/// that are round-trip safe, and no more headers than the decoder accepts.
pub open spec fn round_trip_safe_request(r: ReqView) -> bool {
    &&& r.target.len() > 0
    &&& forall|j: int| 0 <= j < r.headers.len() ==> round_trip_safe_header(#[trigger] r.headers[j])
    &&& r.headers.len() <= MAX_HEADERS
}

/// No header of an all-encodable sequence is rejected by the encoder.
proof fn lemma_no_header_err(hs: Seq<HeaderView>)
    requires
        forall|j: int| 0 <= j < hs.len() ==> encodable_header(#[trigger] hs[j]),
    ensures
        first_header_err(hs) is None,
    decreases hs.len(),
{
    if hs.len() > 0 {
        assert(encodable_header(hs[0]));
        lemma_no_header_err(hs.drop_first());
    }
}

/// The bytes of one emitted header line: its length, its terminator, and
/// that no other byte of it is a line terminator.
proof fn lemma_header_line_shape(h: HeaderView)
    requires
        valid_header_name(h.name),
        valid_header_value(h.value),
    ensures
        header_line_bytes(h).len() == h.name.len() + 3 + h.value.len(),
        header_line_bytes(h).last() == 10,
        forall|k: int|
            0 <= k < header_line_bytes(h).len() - 1 ==> #[trigger] header_line_bytes(h)[k] != 10
                && header_line_bytes(h)[k] != 13,
{
    let l = header_line_bytes(h);
    let nl = h.name.len() as int;
    assert forall|k: int| 0 <= k < l.len() - 1 implies l[k] != 10 && l[k] != 13 by {
        if k < nl {
            assert(l[k] == h.name[k]);
        } else if k == nl {
            assert(l[k] == 58);
        } else if k == nl + 1 {
            assert(l[k] == 32);
        } else {
            assert(l[k] == h.value[k - nl - 2]);
        }
    }
}

/// Parsing the content of one emitted header line gives the header back,
/// provided it is round-trip safe.
proof fn lemma_parse_safe_header_line(h: HeaderView)
    requires
        round_trip_safe_header(h),
    ensures
        parse_header_line(h.name + seq![58u8, 32u8] + h.value) == Some(h),
{
    let c = h.name + seq![58u8, 32u8] + h.value;
    let nl = h.name.len() as int;
    assert(c.len() == nl + 2 + h.value.len());
    assert forall|k: int| 0 <= k < nl implies c[k] != 58 by {
        assert(c[k] == h.name[k]);
    }
    assert(c[nl] == 58);
    lemma_find_from_at(c, 0, 58, nl);
    assert_seqs_equal!(c.subrange(0, nl), h.name);
    assert(c[nl + 1] == 32);
    if h.value.len() > 0 {
        assert(c[nl + 2] == h.value[0]);
        lemma_skip_ws_at(c, nl + 1, nl + 2);
        assert(c[c.len() - 1] == h.value[h.value.len() - 1]);
        lemma_trim_end_at(c, c.len() as int, c.len() as int);
        assert_seqs_equal!(c.subrange(nl + 2, c.len() as int), h.value);
        let parsed = parse_header_line(c);
        assert(parsed matches Some(p) && p =~= h);
    } else {
        lemma_skip_ws_at(c, nl + 1, c.len() as int);
        lemma_trim_end_at(c, c.len() as int, nl + 1);
        let parsed = parse_header_line(c);
        assert(parsed matches Some(p) && p =~= h);
    }
}

/// The core of the framing symmetry: parsing an assembled header section —
/// any prefix, the emitted header lines, the empty line, then anything —
/// recovers exactly the headers, and places the body right after the empty
/// line.
pub proof fn lemma_parse_header_section(
    prefix: Seq<u8>,
    hs: Seq<HeaderView>,
    body: Seq<u8>,
    max: int,
)
    requires
        forall|j: int| 0 <= j < hs.len() ==> round_trip_safe_header(#[trigger] hs[j]),
        hs.len() <= max,
    ensures
        parse_headers_from(
            prefix + header_section_bytes(hs) + body,
            prefix.len() as int,
            max,
        ) == Ok::<(Seq<HeaderView>, int), DecodeError>(
            (hs, prefix.len() + header_lines_bytes(hs).len() + 1 as int),
        ),
    decreases hs.len(),
{
    let s = prefix + header_section_bytes(hs) + body;
    let pos = prefix.len() as int;
    if hs.len() == 0 {
        assert(header_lines_bytes(hs) == Seq::<u8>::empty());
        assert_seqs_equal!(s, prefix + seq![10u8] + body);
        assert(s[pos] == 10);
        lemma_find_from_at(s, pos, 10, pos);
        assert(line_content(s, pos) =~= Seq::<u8>::empty());
        assert(parse_headers_from(s, pos, max) == Ok::<(Seq<HeaderView>, int), DecodeError>(
            (Seq::<HeaderView>::empty(), pos + 1),
        ));
        assert(hs =~= Seq::<HeaderView>::empty());
    } else {
        let h0 = hs[0];
        let t = hs.drop_first();
        let lc = h0.name + seq![58u8, 32u8] + h0.value;
        let line = header_line_bytes(h0);
        assert_seqs_equal!(line, lc + seq![10u8]);
        assert(header_lines_bytes(hs) == line + header_lines_bytes(t));
        let prefix2 = prefix + line;
        assert_seqs_equal!(s, prefix2 + header_section_bytes(t) + body);
        assert forall|j: int| 0 <= j < t.len() implies round_trip_safe_header(#[trigger] t[j]) by {
            assert(t[j] == hs[j + 1]);
        }
        lemma_parse_header_section(prefix2, t, body, max - 1);
        lemma_header_line_shape(h0);
        let e = pos + lc.len();
        assert forall|k: int| pos <= k < e implies s[k] != 10 && s[k] != 13 by {
            assert(s[k] == line[k - pos]);
        }
        assert(s[e] == line[line.len() - 1]);
        lemma_find_from_at(s, pos, 10, e);
        assert(e > pos);
        assert(line_content(s, pos) =~= lc) by {
            assert_seqs_equal!(s.subrange(pos, e), lc);
        }
        lemma_parse_safe_header_line(h0);
        assert(lc.len() > 0);
        assert(max >= 1);
        let rec = parse_headers_from(s, e + 1, max - 1);
        assert(e + 1 == prefix2.len() as int);
        assert(rec == Ok::<(Seq<HeaderView>, int), DecodeError>(
            (t, prefix2.len() + header_lines_bytes(t).len() + 1 as int),
        ));
        assert(parse_headers_from(s, pos, max) == Ok::<(Seq<HeaderView>, int), DecodeError>(
            (seq![h0] + t, prefix2.len() + header_lines_bytes(t).len() + 1 as int),
        ));
        assert_seqs_equal!(seq![h0] + t, hs);
        assert(prefix2.len() + header_lines_bytes(t).len() + 1 == prefix.len()
            + header_lines_bytes(hs).len() + 1);
    }
}

/// Parsing header lines that are never closed by the empty line fails with
/// `Incomplete`, however many well-formed headers stand before the cut.
proof fn lemma_parse_headers_unterminated(
    prefix: Seq<u8>,
    hs: Seq<HeaderView>,
    tail: Seq<u8>,
    max: int,
)
    requires
        forall|j: int| 0 <= j < hs.len() ==> round_trip_safe_header(#[trigger] hs[j]),
        hs.len() <= max,
        forall|k: int| 0 <= k < tail.len() ==> #[trigger] tail[k] != 10,
    ensures
        parse_headers_from(
            prefix + header_lines_bytes(hs) + tail,
            prefix.len() as int,
            max,
        ) == Err::<(Seq<HeaderView>, int), DecodeError>(DecodeError::Incomplete),
    decreases hs.len(),
{
    let s = prefix + header_lines_bytes(hs) + tail;
    let pos = prefix.len() as int;
    if hs.len() == 0 {
        assert(header_lines_bytes(hs) == Seq::<u8>::empty());
        assert_seqs_equal!(s, prefix + tail);
        assert forall|k: int| pos <= k < s.len() implies s[k] != 10 by {
            assert(s[k] == tail[k - pos]);
        }
        lemma_find_from_at(s, pos, 10, s.len() as int);
    } else {
        let h0 = hs[0];
        let t = hs.drop_first();
        let lc = h0.name + seq![58u8, 32u8] + h0.value;
        let line = header_line_bytes(h0);
        assert_seqs_equal!(line, lc + seq![10u8]);
        assert(header_lines_bytes(hs) == line + header_lines_bytes(t));
        let prefix2 = prefix + line;
        assert_seqs_equal!(s, prefix2 + header_lines_bytes(t) + tail);
        assert forall|j: int| 0 <= j < t.len() implies round_trip_safe_header(#[trigger] t[j]) by {
            assert(t[j] == hs[j + 1]);
        }
        lemma_parse_headers_unterminated(prefix2, t, tail, max - 1);
        lemma_header_line_shape(h0);
        let e = pos + lc.len();
        assert forall|k: int| pos <= k < e implies s[k] != 10 && s[k] != 13 by {
            assert(s[k] == line[k - pos]);
        }
        assert(s[e] == line[line.len() - 1]);
        lemma_find_from_at(s, pos, 10, e);
        assert(line_content(s, pos) =~= lc) by {
            assert_seqs_equal!(s.subrange(pos, e), lc);
        }
        lemma_parse_safe_header_line(h0);
        assert(e + 1 == prefix2.len() as int);
    }
}

/// The bytes of an emitted status line: its length, its terminator, that
/// no other byte of it is a line terminator, and that its content parses
/// back to exactly the version and code it was made from.
proof fn lemma_status_line_parses(v: Version, code: u16, reason: Seq<u8>)
    requires
        100 <= code <= 599,
        clean_reason(reason),
    ensures
        status_line_bytes(v, code, reason).len() >= 13,
        status_line_bytes(v, code, reason).last() == 10,
        forall|k: int|
            0 <= k < status_line_bytes(v, code, reason).len() - 1 ==> #[trigger] status_line_bytes(
                v,
                code,
                reason,
            )[k] != 10 && status_line_bytes(v, code, reason)[k] != 13,
        parse_status_line(
            status_line_bytes(v, code, reason).subrange(
                0,
                status_line_bytes(v, code, reason).len() - 1,
            ),
        ) == Ok::<(Version, u16), DecodeError>((v, code)),
{
    let sl = status_line_bytes(v, code, reason);
    let vt = version_token(v);
    let ci = code as int;
    let d1: u8 = (48 + ci / 100) as u8;
    let d2: u8 = (48 + (ci / 10) % 10) as u8;
    let d3: u8 = (48 + ci % 10) as u8;
    assert(1 <= ci / 100 <= 5) by (nonlinear_arith)
        requires
            100 <= ci <= 599,
    ;
    assert(0 <= (ci / 10) % 10 <= 9) by (nonlinear_arith)
        requires
            100 <= ci <= 599,
    ;
    assert(0 <= ci % 10 <= 9) by (nonlinear_arith)
        requires
            100 <= ci <= 599,
    ;
    assert(status_digits(ci) == seq![d1, d2, d3]);
    assert(vt[0] == 72 && vt[1] == 84 && vt[2] == 84 && vt[3] == 80 && vt[4] == 47 && vt[5] == 49
        && vt[6] == 46 && (vt[7] == 48 || vt[7] == 49));
    let c = sl.subrange(0, sl.len() - 1);
    if reason.len() == 0 {
        assert_seqs_equal!(sl, vt + seq![32u8] + seq![d1, d2, d3] + seq![10u8]);
        assert(c.len() == 12);
    } else {
        assert_seqs_equal!(sl,
            vt + seq![32u8] + seq![d1, d2, d3] + seq![32u8] + reason + seq![10u8]);
        assert(c.len() == 13 + reason.len());
    }
    assert(sl.last() == 10);
    assert forall|k: int| 0 <= k < sl.len() - 1 implies sl[k] != 10 && sl[k] != 13 by {
        if k < 8 {
            assert(sl[k] == vt[k]);
        } else if k == 8 {
            assert(sl[k] == 32);
        } else if k == 9 {
            assert(sl[k] == d1);
        } else if k == 10 {
            assert(sl[k] == d2);
        } else if k == 11 {
            assert(sl[k] == d3);
        } else if k == 12 {
            assert(reason.len() > 0);
            assert(sl[k] == 32);
        } else {
            assert(reason.len() > 0);
            assert(sl[k] == reason[k - 13]);
        }
    }
    assert(forall|k: int| 0 <= k < c.len() ==> c[k] == sl[k]);
    assert(has_version_token(c));
    assert(has_status_code(c));
    assert(c[7] == vt[7]);
    assert(c[9] == d1 && c[10] == d2 && c[11] == d3);
    assert(100 * (ci / 100) + 10 * ((ci / 10) % 10) + ci % 10 == ci) by {
        lemma_fundamental_div_mod(ci, 10);
        lemma_fundamental_div_mod(ci / 10, 10);
        lemma_div_denominator(ci, 10, 10);
    }
    assert(100 * (c[9] - 48) + 10 * (c[10] - 48) + (c[11] - 48) == ci);
    assert(parse_status_line(c) == Ok::<(Version, u16), DecodeError>((v, code)));
}

/// For all responses assembled from a status code in range, a version, at
/// most `MAX_HEADERS` round-trip-safe headers and any body, `decode`
/// reconstructs exactly that code, that version, the headers in their
/// original order, and the body.
pub proof fn lemma_decode_reconstructs(
    v: Version,
    code: u16,
    reason: Seq<u8>,
    hs: Seq<HeaderView>,
    body: Seq<u8>,
)
    requires
        100 <= code <= 599,
        clean_reason(reason),
        forall|j: int| 0 <= j < hs.len() ==> round_trip_safe_header(#[trigger] hs[j]),
        hs.len() <= MAX_HEADERS,
    ensures
        decode_spec(status_line_bytes(v, code, reason) + header_section_bytes(hs) + body) == Ok::<
            RespView,
            DecodeError,
        >(RespView { status: code, version: v, headers: hs, body }),
{
    lemma_status_line_parses(v, code, reason);
    let sl = status_line_bytes(v, code, reason);
    let s = sl + header_section_bytes(hs) + body;
    let e = sl.len() - 1;
    assert forall|k: int| 0 <= k < e implies s[k] != 10 && s[k] != 13 by {
        assert(s[k] == sl[k]);
    }
    assert(s[e] == sl[e]);
    lemma_find_from_at(s, 0, 10, e);
    assert(line_content(s, 0) =~= sl.subrange(0, e)) by {
        assert_seqs_equal!(s.subrange(0, e), sl.subrange(0, e));
    }
    lemma_parse_header_section(sl, hs, body, MAX_HEADERS as int);
    let b = sl.len() + header_lines_bytes(hs).len() + 1;
    assert(b == sl.len() + header_section_bytes(hs).len());
    assert_seqs_equal!(s.skip(b as int), body);
    assert(decode_spec(s) matches Ok(r) && r =~= (RespView {
        status: code,
        version: v,
        headers: hs,
        body,
    }));
}

/// Framing symmetry for requests: a round-trip-safe request encodes to its
/// request line, its header section and its body — and the response header
/// parser, run right after the request line, recovers exactly the headers
/// and leaves exactly the body.  (The start line itself is the one
/// asymmetric part: requests and responses begin differently.)
pub proof fn lemma_request_round_trip(r: ReqView)
    requires
        round_trip_safe_request(r),
    ensures
        encode_result(r) == Ok::<Seq<u8>, EncodeError>(
            request_line_bytes(r.method, r.target, r.version) + header_section_bytes(r.headers)
                + r.body,
        ),
        parse_headers_from(
            request_line_bytes(r.method, r.target, r.version) + header_section_bytes(r.headers)
                + r.body,
            request_line_bytes(r.method, r.target, r.version).len() as int,
            MAX_HEADERS as int,
        ) == Ok::<(Seq<HeaderView>, int), DecodeError>(
            (
                r.headers,
                request_line_bytes(r.method, r.target, r.version).len() + header_lines_bytes(
                    r.headers,
                ).len() + 1 as int,
            ),
        ),
        (request_line_bytes(r.method, r.target, r.version) + header_section_bytes(r.headers)
            + r.body).skip(
            request_line_bytes(r.method, r.target, r.version).len() + header_lines_bytes(
                r.headers,
            ).len() + 1 as int,
        ) == r.body,
{
    let line = request_line_bytes(r.method, r.target, r.version);
    let s = line + header_section_bytes(r.headers) + r.body;
    assert forall|j: int| 0 <= j < r.headers.len() implies encodable_header(
        #[trigger] r.headers[j],
    ) by {
        assert(round_trip_safe_header(r.headers[j]));
    }
    lemma_no_header_err(r.headers);
    assert_seqs_equal!(crate::frame::encoded_request_bytes(r), s);
    lemma_parse_header_section(line, r.headers, r.body, MAX_HEADERS as int);
    let b = line.len() + header_lines_bytes(r.headers).len() + 1;
    assert_seqs_equal!(s.skip(b as int), r.body);
}

/// Truncated input must fail: a complete status line followed by header
/// lines that are never closed by the empty line decodes to `Incomplete`,
/// never to a response with a silently truncated header section.
pub proof fn lemma_truncated_head_fails(
    v: Version,
    code: u16,
    reason: Seq<u8>,
    hs: Seq<HeaderView>,
    tail: Seq<u8>,
)
    requires
        100 <= code <= 599,
        clean_reason(reason),
        forall|j: int| 0 <= j < hs.len() ==> round_trip_safe_header(#[trigger] hs[j]),
        hs.len() <= MAX_HEADERS,
        forall|k: int| 0 <= k < tail.len() ==> #[trigger] tail[k] != 10,
    ensures
        decode_spec(status_line_bytes(v, code, reason) + header_lines_bytes(hs) + tail) == Err::<
            RespView,
            DecodeError,
        >(DecodeError::Incomplete),
{
    lemma_status_line_parses(v, code, reason);
    let sl = status_line_bytes(v, code, reason);
    let s = sl + header_lines_bytes(hs) + tail;
    let e = sl.len() - 1;
    assert forall|k: int| 0 <= k < e implies s[k] != 10 && s[k] != 13 by {
        assert(s[k] == sl[k]);
    }
    assert(s[e] == sl[e]);
    lemma_find_from_at(s, 0, 10, e);
    assert(line_content(s, 0) =~= sl.subrange(0, e)) by {
        assert_seqs_equal!(s.subrange(0, e), sl.subrange(0, e));
    }
    lemma_parse_headers_unterminated(sl, hs, tail, MAX_HEADERS as int);
}

} // verus!
