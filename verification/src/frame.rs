//! The framing of a child's output.
//!
//! A frame is one header byte and a payload. The header holds, in its
//! highest bit, whether the payload comes from the child's standard error,
//! and in the other seven bits the length of the payload, which is at least
//! one. A header of zero never begins a frame: it ends the stream.

use vstd::prelude::*;

verus! {

/// The longest payload that a header can announce.
pub const MAX_PAYLOAD: usize = 127;

/// The longest payload that the broker sends in one frame.
pub const CHUNK: usize = 120;

/// A piece of output: whether it comes from standard error, and its bytes.
pub type Chunk = (bool, Seq<u8>);

/// Whether a chunk fits a frame.
pub open spec fn fits(c: Chunk) -> bool {
    1 <= c.1.len() <= 127
}

/// The header byte of a frame.
pub open spec fn header_of(stderr: bool, len: int) -> u8 {
    if stderr {
        (128 + len) as u8
    } else {
        len as u8
    }
}

/// The bytes of the frame that carries a chunk.
pub open spec fn frame_of(c: Chunk) -> Seq<u8> {
    seq![header_of(c.0, c.1.len() as int)] + c.1
}

/// The bytes of the frames that carry the chunks, in order.
pub open spec fn frames_of(chunks: Seq<Chunk>) -> Seq<u8>
    decreases chunks.len(),
{
    if chunks.len() == 0 {
        Seq::empty()
    } else {
        frames_of(chunks.drop_last()) + frame_of(chunks.last())
    }
}

/// What ends a stream: one byte, zero.
pub open spec fn end_mark() -> Seq<u8> {
    seq![0u8]
}

/// The whole stream: the frames, then the byte that ends the stream.
pub open spec fn stream_of(chunks: Seq<Chunk>) -> Seq<u8> {
    frames_of(chunks) + end_mark()
}

/// The bytes of the chunks of one side, joined in order.
pub open spec fn side_of(chunks: Seq<Chunk>, stderr: bool) -> Seq<u8>
    decreases chunks.len(),
{
    if chunks.len() == 0 {
        Seq::empty()
    } else if chunks.last().0 == stderr {
        side_of(chunks.drop_last(), stderr) + chunks.last().1
    } else {
        side_of(chunks.drop_last(), stderr)
    }
}

/// What a reader makes of a stream from position `at` on: the bytes of
/// standard output and of standard error, or `None` where the stream breaks
/// off before the byte that ends it.
pub open spec fn read_from(stream: Seq<u8>, at: int) -> Option<(Seq<u8>, Seq<u8>)>
    decreases stream.len() - at,
{
    if at < 0 || at >= stream.len() {
        None
    } else if stream[at] == 0 {
        Some((Seq::empty(), Seq::empty()))
    } else {
        let stderr = stream[at] >= 128;
        let len = if stderr {
            stream[at] - 128
        } else {
            stream[at] as int
        };
        if at + 1 + len > stream.len() {
            None
        } else {
            let payload = stream.subrange(at + 1, at + 1 + len);
            match read_from(stream, at + 1 + len) {
                None => None,
                Some((out, err)) => if stderr {
                    Some((out, payload + err))
                } else {
                    Some((payload + out, err))
                },
            }
        }
    }
}

/// What a header byte announces.
#[derive(Debug, PartialEq, Eq, Clone, Copy)]
pub enum Header {
    /// The stream has ended.
    End,
    /// A payload of `len` bytes follows, from standard error if `stderr`.
    Data { stderr: bool, len: u8 },
}

/// Reads a header byte.
pub fn decode_header(byte: u8) -> (h: Header)
    ensures
        byte == 0 ==> h == Header::End,
        byte != 0 ==> h == (Header::Data {
            stderr: byte >= 128,
            len: if byte >= 128 {
                (byte - 128) as u8
            } else {
                byte
            },
        }),
        h matches Header::Data { stderr, len } ==> len <= 127 && header_of(stderr, len as int)
            == byte,
{
    if byte == 0 {
        Header::End
    } else if byte >= 128 {
        Header::Data { stderr: true, len: byte - 128 }
    } else {
        Header::Data { stderr: false, len: byte }
    }
}

/// The byte that ends a stream.
pub fn end_of_stream() -> (out: Vec<u8>)
    ensures
        out@ == end_mark(),
{
    let mut out: Vec<u8> = Vec::new();
    out.push(0u8);
    assert(out@ =~= end_mark());
    out
}

/// The frame that carries `payload`. `None` where the payload is empty or
/// longer than a header can announce.
pub fn encode_frame(stderr: bool, payload: &Vec<u8>) -> (r: Option<Vec<u8>>)
    ensures
        match r {
            Some(f) => fits((stderr, payload@)) && f@ == frame_of((stderr, payload@)),
            None => !fits((stderr, payload@)),
        },
{
    if payload.len() == 0 || payload.len() > MAX_PAYLOAD {
        return None;
    }
    let len = payload.len() as u8;
    let mut out: Vec<u8> = Vec::new();
    out.push(if stderr {
        128 + len
    } else {
        len
    });
    let ghost head = out@;
    let mut i: usize = 0;
    while i < payload.len()
        invariant
            i <= payload.len(),
            out@ == head + payload@.take(i as int),
        decreases payload.len() - i,
    {
        out.push(payload[i]);
        i += 1;
        assert(payload@.take(i as int) =~= payload@.take(i - 1).push(payload@[i - 1]));
    }
    assert(payload@.take(i as int) =~= payload@);
    assert(head =~= seq![header_of(stderr, payload@.len() as int)]);
    Some(out)
}

/// The header of a frame is never the byte that ends the stream, and tells
/// the side and the length of the payload.
pub proof fn lemma_header(c: Chunk)
    requires
        fits(c),
    ensures
        header_of(c.0, c.1.len() as int) != 0,
        (header_of(c.0, c.1.len() as int) >= 128) == c.0,
        (if c.0 {
            header_of(c.0, c.1.len() as int) - 128
        } else {
            header_of(c.0, c.1.len() as int) as int
        }) == c.1.len(),
{
}

/// Frames are read back one by one: a stream that holds the frame of a
/// chunk at `at` reads as that chunk followed by what the rest reads as.
pub proof fn lemma_read_frame(stream: Seq<u8>, at: int, c: Chunk)
    requires
        fits(c),
        0 <= at,
        at + frame_of(c).len() <= stream.len(),
        stream.subrange(at, at + frame_of(c).len()) == frame_of(c),
    ensures
        read_from(stream, at) == match read_from(stream, at + frame_of(c).len()) {
            None => None,
            Some((out, err)) => if c.0 {
                Some((out, c.1 + err))
            } else {
                Some((c.1 + out, err))
            },
        },
{
    lemma_header(c);
    let f = frame_of(c);
    let len = c.1.len() as int;
    assert(stream[at] == stream.subrange(at, at + f.len())[0]);
    assert(f[0] == header_of(c.0, len));
    assert(stream.subrange(at + 1, at + 1 + len) =~= c.1) by {
        assert forall|k: int| 0 <= k < len implies stream[at + 1 + k] == c.1[k] by {
            assert(stream[at + 1 + k] == stream.subrange(at, at + f.len())[1 + k]);
            assert(f[1 + k] == c.1[k]);
        }
    }
}

proof fn lemma_read_frames(chunks: Seq<Chunk>, tail: Seq<u8>)
    requires
        forall|i: int| 0 <= i < chunks.len() ==> fits(#[trigger] chunks[i]),
    ensures
        read_from(frames_of(chunks) + tail, 0) == match read_from(tail, 0) {
            None => None,
            Some((out, err)) => Some(
                (side_of(chunks, false) + out, side_of(chunks, true) + err),
            ),
        },
    decreases chunks.len(),
{
    if chunks.len() == 0 {
        assert(frames_of(chunks) + tail =~= tail);
        match read_from(tail, 0) {
            None => {},
            Some((out, err)) => {
                assert(side_of(chunks, false) + out =~= out);
                assert(side_of(chunks, true) + err =~= err);
            },
        }
    } else {
        let head = chunks.drop_last();
        let c = chunks.last();
        let rest = frame_of(c) + tail;
        assert(fits(chunks[chunks.len() - 1]));
        assert forall|i: int| 0 <= i < head.len() implies fits(#[trigger] head[i]) by {
            assert(head[i] == chunks[i]);
        }
        lemma_read_frames(head, rest);
        assert(frames_of(chunks) + tail =~= frames_of(head) + rest);
        assert(rest.subrange(0, frame_of(c).len() as int) =~= frame_of(c));
        lemma_read_frame(rest, 0, c);
        assert(rest.skip(frame_of(c).len() as int) =~= tail);
        lemma_read_shift(rest, frame_of(c).len() as int, tail);
        match read_from(tail, 0) {
            None => {},
            Some((out, err)) => {
                if c.0 {
                    assert(side_of(head, true) + (c.1 + err) =~= side_of(chunks, true) + err);
                } else {
                    assert(side_of(head, false) + (c.1 + out) =~= side_of(chunks, false) + out);
                }
            },
        }
    }
}

/// Reading does not depend on what stands before the position it starts at.
proof fn lemma_read_shift(stream: Seq<u8>, at: int, tail: Seq<u8>)
    requires
        0 <= at <= stream.len(),
        stream.skip(at) == tail,
    ensures
        read_from(stream, at) == read_from(tail, 0),
{
    lemma_read_shift_from(stream, at, tail, 0);
}

proof fn lemma_read_shift_from(stream: Seq<u8>, at: int, tail: Seq<u8>, k: int)
    requires
        0 <= at <= stream.len(),
        stream.skip(at) == tail,
        0 <= k,
    ensures
        read_from(stream, at + k) == read_from(tail, k),
    decreases tail.len() - k,
{
    if k < tail.len() {
        assert(stream[at + k] == tail[k]);
        if tail[k] != 0 {
            let len = if tail[k] >= 128 {
                tail[k] - 128
            } else {
                tail[k] as int
            };
            if k + 1 + len <= tail.len() {
                assert(stream.subrange(at + k + 1, at + k + 1 + len) =~= tail.subrange(
                    k + 1,
                    k + 1 + len,
                ));
                lemma_read_shift_from(stream, at, tail, k + 1 + len);
            }
        }
    }
}

/// What the broker frames, the client reads back: the stream made of any
/// chunks that fit a frame reads as the bytes of the standard-output chunks
/// joined in order and the bytes of the standard-error chunks joined in
/// order.
pub proof fn lemma_round_trip(chunks: Seq<Chunk>)
    requires
        forall|i: int| 0 <= i < chunks.len() ==> fits(#[trigger] chunks[i]),
    ensures
        read_from(stream_of(chunks), 0) == Some((side_of(chunks, false), side_of(chunks, true))),
{
    let tail = seq![0u8];
    lemma_read_frames(chunks, tail);
    assert(read_from(tail, 0) == Some((Seq::<u8>::empty(), Seq::<u8>::empty())));
    assert(side_of(chunks, false) + Seq::<u8>::empty() =~= side_of(chunks, false));
    assert(side_of(chunks, true) + Seq::<u8>::empty() =~= side_of(chunks, true));
}

} // verus!
