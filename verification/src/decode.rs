//! The response decoder: parses raw bytes into a structured response using
//! the HTTP/1.x response grammar — a status line, at most `MAX_HEADERS`
//! header lines, and the empty line that closes the header section.  The
//! input must hold the complete header section already (no streaming): an
//! unterminated section is a hard failure, never a silent truncation.
//! Everything after the empty line is the body, verbatim.
//!
//! Lines end at `\n`; a `\r` directly before the `\n` is tolerated and
//! dropped.  A version indicator of 0 maps to `HTTP/1.0`; any other digit
//! maps to `HTTP/1.1` (higher versions are not representable).

use vstd::prelude::*;
use vstd::assert_seqs_equal;

use crate::frame::copy_range;
use crate::frame::find_from;
use crate::frame::find_from_exec;
use crate::frame::lemma_skip_ws_bounds;
use crate::frame::lemma_trim_end_bounds;
use crate::frame::skip_ws_from;
use crate::frame::trim_end_from;
use crate::message::DecodeError;
use crate::message::Header;
use crate::message::HeaderView;
use crate::message::RespView;
use crate::message::StructuredResponse;
use crate::message::Version;
use crate::message::check_header_name;
use crate::message::check_header_value;
use crate::message::headers_view;
use crate::message::is_digit;

verus! {

/// The most headers the decoder accepts in one response: an explicit,
/// deliberate limit on the header section.  Exceeding it is a failure, not
/// a truncation.
pub const MAX_HEADERS: usize = 16;

/// Whether a `\n` terminates the line that starts at `pos`.
pub open spec fn line_terminated(s: Seq<u8>, pos: int) -> bool {
    find_from(s, pos, 10) < s.len()
}

/// The content of the line starting at `pos`: the bytes up to its `\n`,
/// with one `\r` directly before the `\n` dropped.
pub open spec fn line_content(s: Seq<u8>, pos: int) -> Seq<u8> {
    let e = find_from(s, pos, 10);
    if e > pos && s[e - 1] == 13 {
        s.subrange(pos, e - 1)
    } else {
        s.subrange(pos, e)
    }
}

/// Whether the status line `c` starts with a version token `HTTP/1.` plus
/// one digit.
pub open spec fn has_version_token(c: Seq<u8>) -> bool {
    c.len() >= 8 && c[0] == 72 && c[1] == 84 && c[2] == 84 && c[3] == 80 && c[4] == 47
        && c[5] == 49 && c[6] == 46 && is_digit(c[7])
}

/// Whether the status line `c` carries a three-digit status code after the
/// version token, followed by the line end or the space before a reason
/// phrase.
pub open spec fn has_status_code(c: Seq<u8>) -> bool {
    c.len() >= 12 && c[8] == 32 && is_digit(c[9]) && is_digit(c[10]) && is_digit(c[11]) && (
    c.len() == 12 || c[12] == 32)
}

/// Parses a status line: the version (digit 0 maps to `Http10`, any other
/// digit to `Http11`) and the numeric status code.  The reason phrase is
/// not kept in the structured form.
pub open spec fn parse_status_line(c: Seq<u8>) -> Result<(Version, u16), DecodeError> {
    if !has_version_token(c) {
        Err(DecodeError::MissingVersion)
    } else if !has_status_code(c) {
        Err(DecodeError::MissingStatus)
    } else {
        Ok(
            (
                if c[7] == 48 {
                    Version::Http10
                } else {
                    Version::Http11
                },
                (100 * (c[9] - 48) + 10 * (c[10] - 48) + (c[11] - 48)) as u16,
            ),
        )
    }
}

/// Parses one header line `NAME: VALUE`: the name is everything before the
/// first colon, the value is what follows with surrounding whitespace
/// removed.  `None` when there is no colon or the name or value is not
/// well-formed in the structured form.
pub open spec fn parse_header_line(c: Seq<u8>) -> Option<HeaderView> {
    let ci = find_from(c, 0, 58);
    if ci >= c.len() {
        None
    } else {
        let name = c.subrange(0, ci);
        let a = skip_ws_from(c, ci + 1);
        let z = trim_end_from(c, c.len() as int);
        let value = if a < z {
            c.subrange(a, z)
        } else {
            Seq::<u8>::empty()
        };
        if crate::message::valid_header_name(name) && crate::message::valid_header_value(value) {
            Some(HeaderView { name, value })
        } else {
            None
        }
    }
}

/// Parses header lines from `pos` until the empty line, collecting at most
/// `max` headers in parse order, and returns them with the offset where the
/// body starts.
pub open spec fn parse_headers_from(s: Seq<u8>, pos: int, max: int) -> Result<
    (Seq<HeaderView>, int),
    DecodeError,
>
    decreases max,
{
    if !line_terminated(s, pos) {
        Err(DecodeError::Incomplete)
    } else {
        let c = line_content(s, pos);
        let next = find_from(s, pos, 10) + 1;
        if c.len() == 0 {
            Ok((Seq::empty(), next))
        } else if max <= 0 {
            Err(DecodeError::TooManyHeaders)
        } else {
            match parse_header_line(c) {
                None => Err(DecodeError::InvalidHeader),
                Some(h) => match parse_headers_from(s, next, max - 1) {
                    Err(e) => Err(e),
                    Ok((rest, b)) => Ok((seq![h] + rest, b)),
                },
            }
        }
    }
}

/// Exactly what `decode` returns: the structured response, or the first
/// failure of the response grammar.  The body is everything after the empty
/// line that closes the header section, verbatim.
pub open spec fn decode_spec(s: Seq<u8>) -> Result<RespView, DecodeError> {
    if !line_terminated(s, 0) {
        Err(DecodeError::Incomplete)
    } else {
        match parse_status_line(line_content(s, 0)) {
            Err(e) => Err(e),
            Ok((v, code)) => if !(100 <= code && code <= 599) {
                Err(DecodeError::InvalidStatus)
            } else {
                match parse_headers_from(s, find_from(s, 0, 10) + 1, MAX_HEADERS as int) {
                    Err(e) => Err(e),
                    Ok((hs, b)) => Ok(
                        RespView { status: code, version: v, headers: hs, body: s.skip(b) },
                    ),
                }
            },
        }
    }
}

/// Prepending one header commutes with taking the header models.
proof fn lemma_headers_view_prepend(h: Header, rest: Seq<Header>)
    ensures
        headers_view(rest.insert(0, h)) == seq![h@] + headers_view(rest),
{
    assert_seqs_equal!(headers_view(rest.insert(0, h)), seq![h@] + headers_view(rest));
}

/// Finds the first non-whitespace byte at or after `pos`.
fn skip_ws_exec(s: &Vec<u8>, pos: usize) -> (r: usize)
    requires
        pos <= s@.len(),
    ensures
        r as int == skip_ws_from(s@, pos as int),
        pos <= r <= s@.len(),
{
    proof {
        lemma_skip_ws_bounds(s@, pos as int);
    }
    let mut i: usize = pos;
    while i < s.len() && (s[i] == 32 || s[i] == 9)
        invariant
            pos <= i <= s@.len(),
            skip_ws_from(s@, pos as int) == skip_ws_from(s@, i as int),
        decreases s@.len() - i,
    {
        assert(skip_ws_from(s@, i as int) == skip_ws_from(s@, i + 1));
        i += 1;
    }
    assert(skip_ws_from(s@, i as int) == i as int);
    i
}

/// Finds the end of `s` with trailing whitespace removed.
fn trim_end_exec(s: &Vec<u8>) -> (r: usize)
    ensures
        r as int == trim_end_from(s@, s@.len() as int),
        r <= s@.len(),
{
    proof {
        lemma_trim_end_bounds(s@, s@.len() as int);
    }
    let mut z: usize = s.len();
    while z > 0 && (s[z - 1] == 32 || s[z - 1] == 9)
        invariant
            z <= s@.len(),
            trim_end_from(s@, s@.len() as int) == trim_end_from(s@, z as int),
        decreases z,
    {
        assert(trim_end_from(s@, z as int) == trim_end_from(s@, z - 1));
        z -= 1;
    }
    assert(trim_end_from(s@, z as int) == z as int);
    z
}

/// Parses one header line held in `c`, as `parse_header_line` states.
fn parse_header_vec(c: &Vec<u8>) -> (r: Option<Header>)
    ensures
        match r {
            Some(h) => parse_header_line(c@) == Some(h@),
            None => parse_header_line(c@) is None,
        },
{
    let n = c.len();
    let ci = find_from_exec(c, 0, 58);
    if ci == n {
        return None;
    }
    let name = copy_range(c, 0, ci);
    let a = skip_ws_exec(c, ci + 1);
    let z = trim_end_exec(c);
    let value = if a < z {
        copy_range(c, a, z)
    } else {
        Vec::new()
    };
    assert(value@ == (if a < z {
        c@.subrange(a as int, z as int)
    } else {
        Seq::<u8>::empty()
    }));
    if check_header_name(&name) && check_header_value(&value) {
        Some(Header { name, value })
    } else {
        None
    }
}

/// Parses header lines from `pos` on, as `parse_headers_from` states.
fn parse_headers_exec(s: &Vec<u8>, pos: usize, max: usize) -> (r: Result<
    (Vec<Header>, usize),
    DecodeError,
>)
    requires
        pos <= s@.len(),
    ensures
        match r {
            Ok(p) => {
                &&& parse_headers_from(s@, pos as int, max as int) matches Ok(q)
                &&& q.0 == headers_view(p.0@)
                &&& q.1 == p.1 as int
                &&& pos <= p.1 <= s@.len()
            },
            Err(e) => parse_headers_from(s@, pos as int, max as int) == Err::<
                (Seq<HeaderView>, int),
                DecodeError,
            >(e),
        },
    decreases max,
{
    let n = s.len();
    let e = find_from_exec(s, pos, 10);
    if e == n {
        return Err(DecodeError::Incomplete);
    }
    let ce = if e > pos && s[e - 1] == 13 {
        e - 1
    } else {
        e
    };
    let ghost c = line_content(s@, pos as int);
    assert(c == s@.subrange(pos as int, ce as int));
    if ce == pos {
        let empty: Vec<Header> = Vec::new();
        proof {
            assert(c.len() == 0);
            assert_seqs_equal!(headers_view(empty@), Seq::<HeaderView>::empty());
        }
        return Ok((empty, e + 1));
    }
    if max == 0 {
        return Err(DecodeError::TooManyHeaders);
    }
    let content = copy_range(s, pos, ce);
    match parse_header_vec(&content) {
        None => Err(DecodeError::InvalidHeader),
        Some(h) => {
            match parse_headers_exec(s, e + 1, max - 1) {
                Err(er) => Err(er),
                Ok((mut hs, b)) => {
                    let ghost tail = hs@;
                    hs.insert(0, h);
                    proof {
                        lemma_headers_view_prepend(h, tail);
                    }
                    Ok((hs, b))
                },
            }
        },
    }
}

/// Parses raw response bytes into a structured response, exactly as
/// `decode_spec` states: a complete status line, at most `MAX_HEADERS`
/// well-formed header lines, the empty line, and then the body verbatim.
/// Incomplete input — a header section not terminated by the empty line —
/// is rejected, never silently truncated.
pub fn decode(raw: &Vec<u8>) -> (r: Result<StructuredResponse, DecodeError>)
    ensures
        match r {
            Ok(resp) => decode_spec(raw@) == Ok::<RespView, DecodeError>(resp@),
            Err(e) => decode_spec(raw@) == Err::<RespView, DecodeError>(e),
        },
{
    let n = raw.len();
    let e0 = find_from_exec(raw, 0, 10);
    if e0 == n {
        return Err(DecodeError::Incomplete);
    }
    let ce = if e0 > 0 && raw[e0 - 1] == 13 {
        e0 - 1
    } else {
        e0
    };
    let ghost c = line_content(raw@, 0);
    assert(c == raw@.subrange(0, ce as int));
    assert(forall|k: int| 0 <= k < ce ==> c[k] == raw@[k]);
    let version_ok = ce >= 8 && raw[0] == 72 && raw[1] == 84 && raw[2] == 84 && raw[3] == 80
        && raw[4] == 47 && raw[5] == 49 && raw[6] == 46 && 48 <= raw[7] && raw[7] <= 57;
    assert(version_ok == has_version_token(c));
    if !version_ok {
        return Err(DecodeError::MissingVersion);
    }
    let status_ok = ce >= 12 && raw[8] == 32 && 48 <= raw[9] && raw[9] <= 57 && 48 <= raw[10]
        && raw[10] <= 57 && 48 <= raw[11] && raw[11] <= 57 && (ce == 12 || raw[12] == 32);
    assert(status_ok == has_status_code(c));
    if !status_ok {
        return Err(DecodeError::MissingStatus);
    }
    let version = if raw[7] == 48 {
        Version::Http10
    } else {
        Version::Http11
    };
    let code: u16 = (raw[9] - 48) as u16 * 100 + (raw[10] - 48) as u16 * 10 + (raw[11] - 48) as u16;
    assert(code as int == 100 * (c[9] - 48) + 10 * (c[10] - 48) + (c[11] - 48));
    if !(100 <= code && code <= 599) {
        return Err(DecodeError::InvalidStatus);
    }
    match parse_headers_exec(raw, e0 + 1, MAX_HEADERS) {
        Err(e) => Err(e),
        Ok((headers, b)) => {
            let body = copy_range(raw, b, n);
            proof {
                assert_seqs_equal!(raw@.skip(b as int), raw@.subrange(b as int, n as int));
            }
            Ok(StructuredResponse { status: code, version, headers, body })
        },
    }
}

} // verus!
