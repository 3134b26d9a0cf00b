//! Wire framing: every message travels as a 4-byte big-endian length,
//! then a fixed tag byte naming the sender role, then the structured
//! payload. A frame whose length prefix exceeds the sane bound is
//! rejected, never acted on.

use vstd::prelude::*;
use vstd::slice::slice_index_get;
use crate::model::copy_bytes;

verus! {

/// The tag byte that opens every payload this tracker sends.
pub const TRACKER_TAG: u8 = 0x02;

/// The largest frame payload (tag byte included) the tracker accepts.
pub const MAX_FRAME_LEN: u32 = 1048576;

/// The number a 4-byte big-endian length prefix encodes.
pub open spec fn be_u32(b0: u8, b1: u8, b2: u8, b3: u8) -> int {
    (b0 as int) * 0x1000000 + (b1 as int) * 0x10000 + (b2 as int) * 0x100 + (b3 as int)
}

/// A whole frame: the length of tag plus body, big-endian, then the tag,
/// then the body.
pub open spec fn framed(tag: u8, body: Seq<u8>) -> Seq<u8> {
    let len = body.len() + 1;
    seq![
        (len / 0x1000000 % 0x100) as u8,
        (len / 0x10000 % 0x100) as u8,
        (len / 0x100 % 0x100) as u8,
        (len % 0x100) as u8,
        tag,
    ] + body
}

/// What a byte string parses to as a frame: the tag and the body, when
/// the length prefix matches what follows, accounts for the tag, and
/// stays under the sane bound.
pub open spec fn spec_parse_frame(f: Seq<u8>) -> Option<(u8, Seq<u8>)> {
    if f.len() < 5 {
        None
    } else {
        let len = be_u32(f[0], f[1], f[2], f[3]);
        if len != f.len() - 4 || len > MAX_FRAME_LEN {
            None
        } else {
            Some((f[4], f.subrange(5, f.len() as int)))
        }
    }
}

/// Frames one payload body under the given tag; a body that would push
/// the frame over the sane bound is refused.
pub fn frame_message(tag: u8, body: &Vec<u8>) -> (r: Option<Vec<u8>>)
    ensures
        r is Some <==> body@.len() + 1 <= MAX_FRAME_LEN,
        r matches Some(f) ==> f@ == framed(tag, body@),
{
    if body.len() >= MAX_FRAME_LEN as usize {
        return None;
    }
    let len: u32 = body.len() as u32 + 1;
    let mut out: Vec<u8> = Vec::new();
    out.push((len / 0x1000000 % 0x100) as u8);
    out.push((len / 0x10000 % 0x100) as u8);
    out.push((len / 0x100 % 0x100) as u8);
    out.push((len % 0x100) as u8);
    out.push(tag);
    let mut b = copy_bytes(body);
    out.append(&mut b);
    proof {
        assert(out@ =~= framed(tag, body@));
    }
    Some(out)
}

/// Reads a 4-byte big-endian length prefix.
pub fn parse_frame_header(h: &[u8]) -> (r: u32)
    requires
        h@.len() == 4,
    ensures
        r == be_u32(h@[0], h@[1], h@[2], h@[3]),
{
    let b0 = *slice_index_get(h, 0) as u32;
    let b1 = *slice_index_get(h, 1) as u32;
    let b2 = *slice_index_get(h, 2) as u32;
    let b3 = *slice_index_get(h, 3) as u32;
    b0 * 0x1000000 + b1 * 0x10000 + b2 * 0x100 + b3
}

/// Whether a parsed length prefix is one the tracker acts on: it must
/// cover at least the tag byte and stay under the sane bound.
pub fn frame_len_ok(len: u32) -> (r: bool)
    ensures
        r == (1 <= len <= MAX_FRAME_LEN),
{
    1 <= len && len <= MAX_FRAME_LEN
}

/// Parses one whole frame back into its tag and body.
pub fn parse_frame(frame: &Vec<u8>) -> (r: Option<(u8, Vec<u8>)>)
    ensures
        r is Some <==> spec_parse_frame(frame@) is Some,
        r matches Some(p) ==> spec_parse_frame(frame@) == Some((p.0, p.1@)),
{
    if frame.len() < 5 {
        return None;
    }
    if frame.len() > 4 + MAX_FRAME_LEN as usize {
        proof {
            assert(be_u32(frame@[0], frame@[1], frame@[2], frame@[3]) <= 0xffffffff);
        }
        return None;
    }
    let header = vstd::slice::slice_subrange(frame.as_slice(), 0, 4);
    let len = parse_frame_header(header);
    if len as usize != frame.len() - 4 {
        return None;
    }
    if len > MAX_FRAME_LEN {
        return None;
    }
    let tag = frame[4];
    let body_slice = vstd::slice::slice_subrange(frame.as_slice(), 5, frame.len());
    let body = vstd::slice::slice_to_vec(body_slice);
    proof {
        assert(body@ =~= frame@.subrange(5, frame@.len() as int));
    }
    Some((tag, body))
}

/// Framing round trip: a frame built from any tag and any body under the
/// bound parses back to exactly that tag and body.
pub proof fn lemma_frame_round_trip(tag: u8, body: Seq<u8>)
    requires
        body.len() + 1 <= MAX_FRAME_LEN,
    ensures
        spec_parse_frame(framed(tag, body)) == Some((tag, body)),
{
    let len = body.len() + 1;
    let f = framed(tag, body);
    assert(f.len() == body.len() + 5);
    lemma_be_u32_of_digits(len as int);
    assert(f.subrange(5, f.len() as int) =~= body);
}

/// Recomposing a number below 2^32 from its four base-256 digits gives
/// the number back.
proof fn lemma_be_u32_of_digits(len: int)
    requires
        0 <= len < 0x100000000,
    ensures
        be_u32(
            (len / 0x1000000 % 0x100) as u8,
            (len / 0x10000 % 0x100) as u8,
            (len / 0x100 % 0x100) as u8,
            (len % 0x100) as u8,
        ) == len,
{
    assert(((len / 0x1000000 % 0x100) as u8) as int * 0x1000000 + ((len / 0x10000 % 0x100) as u8)
        as int * 0x10000 + ((len / 0x100 % 0x100) as u8) as int * 0x100 + ((len % 0x100) as u8)
        as int == len) by (nonlinear_arith)
        requires
            0 <= len < 0x100000000,
    ;
}

} // verus!
