//! The wire form of HTTP/1.x framing: spec functions that state exactly
//! which bytes a message is made of, byte-scanning spec functions with
//! their characterization lemmas, and the small executable byte helpers
//! that the encoder and decoder share.
//!
//! The line terminator on this wire is a single `\n` (byte 10); the decoder
//! additionally tolerates a `\r` (byte 13) directly before it.

use vstd::prelude::*;
use vstd::assert_seqs_equal;

use crate::message::HeaderView;
use crate::message::ReqView;
use crate::message::Version;
use crate::message::is_ws;

verus! {

/// The textual token of a protocol version, as emitted on the wire.
pub open spec fn version_token(v: Version) -> Seq<u8> {
    match v {
        Version::Http10 => seq![72u8, 84u8, 84u8, 80u8, 47u8, 49u8, 46u8, 48u8],
        Version::Http11 => seq![72u8, 84u8, 84u8, 80u8, 47u8, 49u8, 46u8, 49u8],
    }
}

/// One emitted header line: `NAME`, a colon and one space, `VALUE`, `\n`.
pub open spec fn header_line_bytes(h: HeaderView) -> Seq<u8> {
    h.name + seq![58u8, 32u8] + h.value + seq![10u8]
}

/// The emitted header lines, in their original order.
pub open spec fn header_lines_bytes(hs: Seq<HeaderView>) -> Seq<u8>
    decreases hs.len(),
{
    if hs.len() == 0 {
        Seq::empty()
    } else {
        header_line_bytes(hs[0]) + header_lines_bytes(hs.drop_first())
    }
}

/// The whole header section: every header line, then the empty line that
/// closes the section.
pub open spec fn header_section_bytes(hs: Seq<HeaderView>) -> Seq<u8> {
    header_lines_bytes(hs) + seq![10u8]
}

/// The emitted request line: `METHOD SP TARGET SP VERSION-TOKEN \n`.
pub open spec fn request_line_bytes(method: Seq<u8>, target: Seq<u8>, v: Version) -> Seq<u8> {
    method + seq![32u8] + target + seq![32u8] + version_token(v) + seq![10u8]
}

/// Every byte of a well-formed encoded request: request line, header
/// section, then the body verbatim.
pub open spec fn encoded_request_bytes(r: ReqView) -> Seq<u8> {
    request_line_bytes(r.method, r.target, r.version) + header_section_bytes(r.headers)
        + r.body
}

/// The three ASCII digits of a status code below 1000.
pub open spec fn status_digits(c: int) -> Seq<u8> {
    seq![(48 + c / 100) as u8, (48 + (c / 10) % 10) as u8, (48 + c % 10) as u8]
}

/// A status line as a server emits it: version token, space, three status
/// digits, an optional reason phrase after one more space, and `\n`.
pub open spec fn status_line_bytes(v: Version, code: u16, reason: Seq<u8>) -> Seq<u8> {
    version_token(v) + seq![32u8] + status_digits(code as int) + (if reason.len() == 0 {
        seq![10u8]
    } else {
        seq![32u8] + reason + seq![10u8]
    })
}

/// The index of the first occurrence of `b` in `s` at or after `pos`, or
/// `s.len()` if there is none.
pub open spec fn find_from(s: Seq<u8>, pos: int, b: u8) -> int
    decreases s.len() - pos,
{
    if pos >= s.len() {
        s.len() as int
    } else if s[pos] == b {
        pos
    } else {
        find_from(s, pos + 1, b)
    }
}

/// The index of the first non-whitespace byte of `s` at or after `pos`, or
/// `s.len()` if all that follows is whitespace.
pub open spec fn skip_ws_from(s: Seq<u8>, pos: int) -> int
    decreases s.len() - pos,
{
    if pos >= s.len() {
        s.len() as int
    } else if is_ws(s[pos]) {
        skip_ws_from(s, pos + 1)
    } else {
        pos
    }
}

/// The end of `s[..end]` with trailing whitespace removed: the least index
/// `z <= end` such that every byte of `s[z..end]` is whitespace and `s[z-1]`
/// is not (or 0).
pub open spec fn trim_end_from(s: Seq<u8>, end: int) -> int
    decreases end,
{
    if end <= 0 {
        0
    } else if is_ws(s[end - 1]) {
        trim_end_from(s, end - 1)
    } else {
        end
    }
}

/// What `find_from` returns: a position in bounds, holding `b` if within
/// the sequence, with no `b` before it.
pub proof fn lemma_find_from_bounds(s: Seq<u8>, pos: int, b: u8)
    requires
        0 <= pos <= s.len(),
    ensures
        pos <= find_from(s, pos, b) <= s.len(),
        find_from(s, pos, b) < s.len() ==> s[find_from(s, pos, b)] == b,
        forall|k: int| pos <= k < find_from(s, pos, b) ==> s[k] != b,
    decreases s.len() - pos,
{
    if pos < s.len() && s[pos] != b {
        lemma_find_from_bounds(s, pos + 1, b);
    }
}

/// `find_from` is pinned down by its characterization: if no `b` stands in
/// `[pos, j)` and `j` is the end or holds `b`, the find stops at `j`.
pub proof fn lemma_find_from_at(s: Seq<u8>, pos: int, b: u8, j: int)
    requires
        0 <= pos <= j <= s.len(),
        forall|k: int| pos <= k < j ==> s[k] != b,
        j == s.len() || s[j] == b,
    ensures
        find_from(s, pos, b) == j,
    decreases j - pos,
{
    if pos < j {
        lemma_find_from_at(s, pos + 1, b, j);
    }
}

/// What `skip_ws_from` returns.
pub proof fn lemma_skip_ws_bounds(s: Seq<u8>, pos: int)
    requires
        0 <= pos <= s.len(),
    ensures
        pos <= skip_ws_from(s, pos) <= s.len(),
        skip_ws_from(s, pos) < s.len() ==> !is_ws(s[skip_ws_from(s, pos)]),
        forall|k: int| pos <= k < skip_ws_from(s, pos) ==> is_ws(s[k]),
    decreases s.len() - pos,
{
    if pos < s.len() && is_ws(s[pos]) {
        lemma_skip_ws_bounds(s, pos + 1);
    }
}

/// `skip_ws_from` is pinned down by its characterization.
pub proof fn lemma_skip_ws_at(s: Seq<u8>, pos: int, j: int)
    requires
        0 <= pos <= j <= s.len(),
        forall|k: int| pos <= k < j ==> is_ws(s[k]),
        j == s.len() || !is_ws(s[j]),
    ensures
        skip_ws_from(s, pos) == j,
    decreases j - pos,
{
    if pos < j {
        lemma_skip_ws_at(s, pos + 1, j);
    }
}

/// What `trim_end_from` returns.
pub proof fn lemma_trim_end_bounds(s: Seq<u8>, end: int)
    requires
        0 <= end <= s.len(),
    ensures
        0 <= trim_end_from(s, end) <= end,
        trim_end_from(s, end) > 0 ==> !is_ws(s[trim_end_from(s, end) - 1]),
        forall|k: int| trim_end_from(s, end) <= k < end ==> is_ws(s[k]),
    decreases end,
{
    if end > 0 && is_ws(s[end - 1]) {
        lemma_trim_end_bounds(s, end - 1);
    }
}

/// `trim_end_from` is pinned down by its characterization.
pub proof fn lemma_trim_end_at(s: Seq<u8>, end: int, j: int)
    requires
        0 <= j <= end <= s.len(),
        forall|k: int| j <= k < end ==> is_ws(s[k]),
        j == 0 || !is_ws(s[j - 1]),
    ensures
        trim_end_from(s, end) == j,
    decreases end - j,
{
    if j < end {
        lemma_trim_end_at(s, end - 1, j);
    }
}

/// Finds the first occurrence of `b` in `s` at or after `pos`, or `s.len()`.
pub fn find_from_exec(s: &Vec<u8>, pos: usize, b: u8) -> (r: usize)
    requires
        pos <= s@.len(),
    ensures
        r as int == find_from(s@, pos as int, b),
        pos <= r <= s@.len(),
        r < s@.len() ==> s@[r as int] == b,
        forall|k: int| pos <= k < r ==> s@[k] != b,
{
    proof {
        lemma_find_from_bounds(s@, pos as int, b);
    }
    let mut i: usize = pos;
    while i < s.len() && s[i] != b
        invariant
            pos <= i <= s@.len(),
            find_from(s@, pos as int, b) == find_from(s@, i as int, b),
        decreases s@.len() - i,
    {
        assert(find_from(s@, i as int, b) == find_from(s@, i + 1, b));
        i += 1;
    }
    assert(find_from(s@, i as int, b) == i as int);
    i
}

/// Appends every byte of `src` to `out`.
pub fn push_all(out: &mut Vec<u8>, src: &Vec<u8>)
    ensures
        final(out)@ == old(out)@ + src@,
{
    let mut i: usize = 0;
    while i < src.len()
        invariant
            i <= src@.len(),
            out@ == old(out)@ + src@.take(i as int),
        decreases src@.len() - i,
    {
        out.push(src[i]);
        proof {
            assert_seqs_equal!(old(out)@ + src@.take(i + 1),
                (old(out)@ + src@.take(i as int)).push(src@[i as int]));
        }
        i += 1;
    }
    proof {
        assert_seqs_equal!(src@.take(src@.len() as int), src@);
    }
}

/// Copies `s[a..z]` into a fresh vector.
pub fn copy_range(s: &Vec<u8>, a: usize, z: usize) -> (r: Vec<u8>)
    requires
        a <= z <= s@.len(),
    ensures
        r@ == s@.subrange(a as int, z as int),
{
    let mut r: Vec<u8> = Vec::new();
    let mut i: usize = a;
    while i < z
        invariant
            a <= i <= z <= s@.len(),
            r@ == s@.subrange(a as int, i as int),
        decreases z - i,
    {
        r.push(s[i]);
        proof {
            assert_seqs_equal!(s@.subrange(a as int, i + 1),
                s@.subrange(a as int, i as int).push(s@[i as int]));
        }
        i += 1;
    }
    r
}

} // verus!
