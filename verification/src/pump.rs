//! Forwarding a child's output: how the bytes read from one of its streams
//! are cut into frames, and how a whole stream is read back.

use vstd::prelude::*;
use crate::frame::{
    decode_header, encode_frame, end_mark, fits, frame_of, frames_of, lemma_round_trip, read_from,
    side_of, Chunk, Header, CHUNK,
};

verus! {

/// How the bytes at hand are cut: the payloads to send now and the bytes to
/// hold back. Full payloads of `CHUNK` bytes go out first. What is left goes
/// out too if it is at least two bytes, or a single byte of a stream that has
/// ended. A single byte of a stream that goes on is held back.
pub struct Cut {
    pub payloads: Seq<Seq<u8>>,
    pub held: Seq<u8>,
}

/// Cuts the bytes at hand.
pub open spec fn cut(bytes: Seq<u8>, ended: bool) -> Cut
    decreases bytes.len(),
{
    if bytes.len() >= CHUNK {
        let rest = cut(bytes.skip(CHUNK as int), ended);
        Cut { payloads: seq![bytes.take(CHUNK as int)] + rest.payloads, held: rest.held }
    } else if bytes.len() >= 2 || (bytes.len() == 1 && ended) {
        Cut { payloads: seq![bytes], held: Seq::empty() }
    } else {
        Cut { payloads: Seq::empty(), held: bytes }
    }
}

/// The payloads as chunks of one side.
pub open spec fn chunks_of(stderr: bool, payloads: Seq<Seq<u8>>) -> Seq<Chunk> {
    Seq::new(payloads.len(), |i: int| (stderr, payloads[i]))
}

/// The payloads joined in order.
pub open spec fn joined(payloads: Seq<Seq<u8>>) -> Seq<u8>
    decreases payloads.len(),
{
    if payloads.len() == 0 {
        Seq::empty()
    } else {
        joined(payloads.drop_last()) + payloads.last()
    }
}

/// Joining after a first payload.
pub proof fn lemma_joined_front(first: Seq<u8>, rest: Seq<Seq<u8>>)
    ensures
        joined(seq![first] + rest) == first + joined(rest),
    decreases rest.len(),
{
    let all = seq![first] + rest;
    if rest.len() == 0 {
        assert(all =~= seq![first]);
        assert(all.drop_last() =~= Seq::<Seq<u8>>::empty());
        assert(joined(Seq::<Seq<u8>>::empty()) =~= Seq::<u8>::empty());
        assert(joined(all) =~= first);
        assert(first + joined(rest) =~= first);
    } else {
        assert(all.drop_last() =~= seq![first] + rest.drop_last());
        assert(all.last() == rest.last());
        lemma_joined_front(first, rest.drop_last());
        assert(joined(all) =~= first + joined(rest));
    }
}

/// Cutting loses nothing and makes up nothing: the payloads and the bytes
/// held back are, in order, the bytes that were at hand. Every payload fits a
/// frame. At most one byte is held back, and none of a stream that has ended.
pub proof fn lemma_cut(bytes: Seq<u8>, ended: bool)
    ensures
        joined(cut(bytes, ended).payloads) + cut(bytes, ended).held == bytes,
        forall|i: int|
            0 <= i < cut(bytes, ended).payloads.len() ==> 1 <= (#[trigger] cut(
                bytes,
                ended,
            ).payloads[i]).len() <= CHUNK,
        cut(bytes, ended).held.len() <= 1,
        ended ==> cut(bytes, ended).held.len() == 0,
    decreases bytes.len(),
{
    let c = cut(bytes, ended);
    if bytes.len() >= CHUNK {
        let rest = cut(bytes.skip(CHUNK as int), ended);
        lemma_cut(bytes.skip(CHUNK as int), ended);
        lemma_joined_front(bytes.take(CHUNK as int), rest.payloads);
        assert(bytes.take(CHUNK as int) + (joined(rest.payloads) + rest.held) =~= bytes);
        assert(joined(c.payloads) + c.held =~= bytes);
        assert forall|i: int| 0 <= i < c.payloads.len() implies 1 <= (#[trigger] c.payloads[i]).len()
            <= CHUNK by {
            if i > 0 {
                assert(c.payloads[i] == rest.payloads[i - 1]);
            }
        }
    } else if bytes.len() >= 2 || (bytes.len() == 1 && ended) {
        assert(c.payloads.drop_last() =~= Seq::<Seq<u8>>::empty());
        assert(joined(Seq::<Seq<u8>>::empty()) =~= Seq::<u8>::empty());
        assert(joined(c.payloads) =~= bytes);
        assert(joined(c.payloads) + c.held =~= bytes);
    } else {
        assert(joined(c.payloads) + c.held =~= bytes);
    }
}

/// The chunks of one side hold their payloads on that side and nothing on
/// the other.
pub proof fn lemma_side_of_chunks(stderr: bool, payloads: Seq<Seq<u8>>)
    ensures
        side_of(chunks_of(stderr, payloads), stderr) == joined(payloads),
        side_of(chunks_of(stderr, payloads), !stderr) == Seq::<u8>::empty(),
    decreases payloads.len(),
{
    let chunks = chunks_of(stderr, payloads);
    if payloads.len() > 0 {
        assert(chunks.drop_last() =~= chunks_of(stderr, payloads.drop_last()));
        assert(chunks.last() == (stderr, payloads.last()));
        lemma_side_of_chunks(stderr, payloads.drop_last());
    }
}

/// How many more bytes a pump that holds `held` bytes takes before it must
/// send.
pub open spec fn room_of(held: nat) -> nat {
    if held <= CHUNK {
        (CHUNK - held) as nat
    } else {
        0
    }
}

/// Whether a stream counts as ended after a reading of `fresh` bytes by a
/// pump that held `held`: its reader has finished, and the reading took
/// fewer bytes than the pump had room for, so that none is left behind.
pub open spec fn ended_by(held: nat, fresh: nat, finished: bool) -> bool {
    finished && fresh < room_of(held)
}

/// One of the two output streams of a child on its way to the client.
#[derive(Debug)]
pub struct Pump {
    /// Whether this is the child's standard error.
    pub stderr: bool,
    /// The bytes that were read but not yet sent.
    pub held: Vec<u8>,
}

impl Pump {
    /// A pump that holds nothing.
    pub fn new(stderr: bool) -> (p: Pump)
        ensures
            p.stderr == stderr,
            p.held@ == Seq::<u8>::empty(),
    {
        Pump { stderr, held: Vec::new() }
    }

    /// Takes the bytes that were read from the stream since the last call
    /// and returns the frames to send now. `ended` tells that the stream
    /// has ended and `fresh` holds its last bytes.
    pub fn feed(&mut self, fresh: &Vec<u8>, ended: bool) -> (out: Vec<u8>)
        ensures
            final(self).stderr == old(self).stderr,
            final(self).held@ == cut(old(self).held@ + fresh@, ended).held,
            out@ == frames_of(
                chunks_of(old(self).stderr, cut(old(self).held@ + fresh@, ended).payloads),
            ),
    {
        let ghost all = self.held@ + fresh@;
        let ghost goal = cut(all, ended);
        let mut bytes: Vec<u8> = Vec::new();
        let mut k: usize = 0;
        while k < self.held.len()
            invariant
                k <= self.held.len(),
                bytes@ == self.held@.take(k as int),
            decreases self.held.len() - k,
        {
            bytes.push(self.held[k]);
            k += 1;
            assert(self.held@.take(k as int) =~= self.held@.take(k - 1).push(self.held@[k - 1]));
        }
        assert(self.held@.take(k as int) =~= self.held@);
        let mut k: usize = 0;
        while k < fresh.len()
            invariant
                k <= fresh.len(),
                bytes@ == self.held@ + fresh@.take(k as int),
            decreases fresh.len() - k,
        {
            bytes.push(fresh[k]);
            k += 1;
            assert(fresh@.take(k as int) =~= fresh@.take(k - 1).push(fresh@[k - 1]));
        }
        assert(fresh@.take(k as int) =~= fresh@);
        let stderr = self.stderr;
        let mut out: Vec<u8> = Vec::new();
        let mut at: usize = 0;
        let ghost mut sent: Seq<Seq<u8>> = Seq::empty();
        assert(chunks_of(stderr, sent) =~= Seq::<Chunk>::empty());
        assert(bytes@.skip(0) =~= bytes@);
        assert(sent + cut(bytes@.skip(0), ended).payloads =~= goal.payloads);
        while bytes.len() - at >= CHUNK
            invariant
                at <= bytes.len(),
                bytes@ == all,
                stderr == self.stderr,
                goal == cut(all, ended),
                out@ == frames_of(chunks_of(stderr, sent)),
                sent + cut(bytes@.skip(at as int), ended).payloads == goal.payloads,
                cut(bytes@.skip(at as int), ended).held == goal.held,
            decreases bytes.len() - at,
        {
            let ghost rest = bytes@.skip(at as int);
            let mut payload: Vec<u8> = Vec::new();
            let mut j: usize = 0;
            while j < CHUNK
                invariant
                    j <= CHUNK,
                    at + CHUNK <= bytes.len(),
                    payload@ == bytes@.subrange(at as int, at + j),
                decreases CHUNK - j,
            {
                payload.push(bytes[at + j]);
                j += 1;
                assert(bytes@.subrange(at as int, at + j) =~= bytes@.subrange(
                    at as int,
                    at + j - 1,
                ).push(bytes@[at + j - 1]));
            }
            assert(payload@ =~= rest.take(CHUNK as int));
            self.send(&mut out, &payload, Ghost(sent));
            proof {
                assert(rest.skip(CHUNK as int) =~= bytes@.skip(at + CHUNK));
                let after = cut(rest.skip(CHUNK as int), ended).payloads;
                assert(sent.push(payload@) + after =~= sent + (seq![payload@] + after));
                sent = sent.push(payload@);
            }
            at += CHUNK;
        }
        let left = bytes.len() - at;
        let mut tail: Vec<u8> = Vec::new();
        let mut j: usize = 0;
        while j < left
            invariant
                j <= left,
                at + left == bytes.len(),
                tail@ == bytes@.subrange(at as int, at + j),
            decreases left - j,
        {
            tail.push(bytes[at + j]);
            j += 1;
            assert(bytes@.subrange(at as int, at + j) =~= bytes@.subrange(at as int, at + j - 1).push(
                bytes@[at + j - 1],
            ));
        }
        assert(tail@ =~= bytes@.skip(at as int));
        if left >= 2 || (left == 1 && ended) {
            self.send(&mut out, &tail, Ghost(sent));
            proof {
                assert(sent.push(tail@) =~= sent + seq![tail@]);
            }
            self.held = Vec::new();
        } else {
            proof {
                assert(sent + Seq::<Seq<u8>>::empty() =~= sent);
            }
            self.held = tail;
        }
        out
    }

    /// Appends the frame of one payload to what is sent.
    fn send(&self, out: &mut Vec<u8>, payload: &Vec<u8>, Ghost(sent): Ghost<Seq<Seq<u8>>>)
        requires
            1 <= payload.len() <= CHUNK,
            old(out)@ == frames_of(chunks_of(self.stderr, sent)),
        ensures
            final(out)@ == frames_of(chunks_of(self.stderr, sent.push(payload@))),
    {
        let ghost chunks = chunks_of(self.stderr, sent.push(payload@));
        proof {
            assert(chunks.drop_last() =~= chunks_of(self.stderr, sent));
            assert(chunks.last() == (self.stderr, payload@));
        }
        match encode_frame(self.stderr, payload) {
            Some(frame) => {
                let mut j: usize = 0;
                while j < frame.len()
                    invariant
                        j <= frame.len(),
                        out@ == old(out)@ + frame@.take(j as int),
                    decreases frame.len() - j,
                {
                    out.push(frame[j]);
                    j += 1;
                    assert(frame@.take(j as int) =~= frame@.take(j - 1).push(frame@[j - 1]));
                }
                assert(frame@.take(j as int) =~= frame@);
            },
            None => {},
        }
    }

    /// How many more bytes the pump takes before it must send.
    pub fn room(&self) -> (n: usize)
        ensures
            n == room_of(self.held@.len()),
    {
        if self.held.len() <= CHUNK {
            CHUNK - self.held.len()
        } else {
            0
        }
    }

    /// Takes the bytes that waited on the stream, decides whether the
    /// stream has ended, and returns the frames to send now with that
    /// decision. `finished` tells that the reader of the stream has
    /// finished.
    pub fn drain(&mut self, fresh: &Vec<u8>, finished: bool) -> (r: (Vec<u8>, bool))
        ensures
            r.1 == ended_by(old(self).held@.len(), fresh@.len(), finished),
            final(self).stderr == old(self).stderr,
            final(self).held@ == cut(old(self).held@ + fresh@, r.1).held,
            r.0@ == frames_of(
                chunks_of(old(self).stderr, cut(old(self).held@ + fresh@, r.1).payloads),
            ),
    {
        let ended = finished && fresh.len() < self.room();
        let frames = self.feed(fresh, ended);
        (frames, ended)
    }
}

/// One reading of one of the child's streams: the side, the bytes that were
/// read, and whether the stream has ended.
pub type Reading = (bool, Seq<u8>, bool);

/// How far forwarding has come: what the two pumps hold back, the chunks
/// that were sent, and all that was read of either stream.
pub struct Forwarded {
    pub out_held: Seq<u8>,
    pub err_held: Seq<u8>,
    pub sent: Seq<Chunk>,
    pub out_read: Seq<u8>,
    pub err_read: Seq<u8>,
}

/// Forwarding after the given readings, each fed to the pump of its side.
pub open spec fn forwarded(readings: Seq<Reading>) -> Forwarded
    decreases readings.len(),
{
    if readings.len() == 0 {
        Forwarded {
            out_held: Seq::empty(),
            err_held: Seq::empty(),
            sent: Seq::empty(),
            out_read: Seq::empty(),
            err_read: Seq::empty(),
        }
    } else {
        let before = forwarded(readings.drop_last());
        let (stderr, fresh, ended) = readings.last();
        if stderr {
            let c = cut(before.err_held + fresh, ended);
            Forwarded {
                err_held: c.held,
                sent: before.sent + chunks_of(true, c.payloads),
                err_read: before.err_read + fresh,
                ..before
            }
        } else {
            let c = cut(before.out_held + fresh, ended);
            Forwarded {
                out_held: c.held,
                sent: before.sent + chunks_of(false, c.payloads),
                out_read: before.out_read + fresh,
                ..before
            }
        }
    }
}

/// The bytes of one side of two lists of chunks, one after the other.
pub proof fn lemma_side_of_both(a: Seq<Chunk>, b: Seq<Chunk>, stderr: bool)
    ensures
        side_of(a + b, stderr) == side_of(a, stderr) + side_of(b, stderr),
    decreases b.len(),
{
    if b.len() == 0 {
        assert(a + b =~= a);
        assert(side_of(a, stderr) + side_of(b, stderr) =~= side_of(a, stderr));
    } else {
        assert((a + b).drop_last() =~= a + b.drop_last());
        assert((a + b).last() == b.last());
        lemma_side_of_both(a, b.drop_last(), stderr);
        if b.last().0 == stderr {
            assert(side_of(a, stderr) + side_of(b.drop_last(), stderr) + b.last().1 =~= side_of(
                a,
                stderr,
            ) + (side_of(b.drop_last(), stderr) + b.last().1));
        }
    }
}

/// The frames of two lists of chunks, one after the other.
pub proof fn lemma_frames_of_both(a: Seq<Chunk>, b: Seq<Chunk>)
    ensures
        frames_of(a + b) == frames_of(a) + frames_of(b),
    decreases b.len(),
{
    if b.len() == 0 {
        assert(a + b =~= a);
        assert(frames_of(a) + frames_of(b) =~= frames_of(a));
    } else {
        assert((a + b).drop_last() =~= a + b.drop_last());
        assert((a + b).last() == b.last());
        lemma_frames_of_both(a, b.drop_last());
        assert(frames_of(a) + frames_of(b.drop_last()) + frame_of(b.last()) =~= frames_of(a) + (
        frames_of(b.drop_last()) + frame_of(b.last())));
    }
}

/// Forwarding loses nothing: on each side, the bytes of the chunks that were
/// sent and the bytes still held back are the bytes that were read. Every
/// chunk that was sent fits a frame.
pub proof fn lemma_forwarded(readings: Seq<Reading>)
    ensures
        side_of(forwarded(readings).sent, false) + forwarded(readings).out_held == forwarded(
            readings,
        ).out_read,
        side_of(forwarded(readings).sent, true) + forwarded(readings).err_held == forwarded(
            readings,
        ).err_read,
        forall|i: int|
            0 <= i < forwarded(readings).sent.len() ==> fits(#[trigger] forwarded(readings).sent[i]),
    decreases readings.len(),
{
    let now = forwarded(readings);
    if readings.len() == 0 {
        assert(side_of(now.sent, false) + now.out_held =~= now.out_read);
        assert(side_of(now.sent, true) + now.err_held =~= now.err_read);
    } else {
        let before = forwarded(readings.drop_last());
        let (stderr, fresh, ended) = readings.last();
        lemma_forwarded(readings.drop_last());
        let held = if stderr {
            before.err_held
        } else {
            before.out_held
        };
        let c = cut(held + fresh, ended);
        let more = chunks_of(stderr, c.payloads);
        lemma_cut(held + fresh, ended);
        lemma_side_of_chunks(stderr, c.payloads);
        lemma_side_of_both(before.sent, more, false);
        lemma_side_of_both(before.sent, more, true);
        assert forall|i: int| 0 <= i < now.sent.len() implies fits(#[trigger] now.sent[i]) by {
            if i >= before.sent.len() {
                let k = i - before.sent.len();
                assert(now.sent[i] == more[k]);
                assert(1 <= c.payloads[k].len() <= CHUNK);
            } else {
                assert(now.sent[i] == before.sent[i]);
            }
        }
        if stderr {
            assert(side_of(now.sent, true) + now.err_held =~= side_of(before.sent, true) + (joined(
                c.payloads,
            ) + c.held));
            assert(side_of(before.sent, true) + (before.err_held + fresh) =~= now.err_read);
            assert(side_of(now.sent, false) =~= side_of(before.sent, false));
        } else {
            assert(side_of(now.sent, false) + now.out_held =~= side_of(before.sent, false) + (
            joined(c.payloads) + c.held));
            assert(side_of(before.sent, false) + (before.out_held + fresh) =~= now.out_read);
            assert(side_of(now.sent, true) =~= side_of(before.sent, true));
        }
    }
}

/// The bytes that the pumps hand out for the given readings, one after the
/// other: what `feed` returns for each reading, in order.
pub open spec fn wire(readings: Seq<Reading>) -> Seq<u8>
    decreases readings.len(),
{
    if readings.len() == 0 {
        Seq::empty()
    } else {
        let before = forwarded(readings.drop_last());
        let (stderr, fresh, ended) = readings.last();
        let held = if stderr {
            before.err_held
        } else {
            before.out_held
        };
        wire(readings.drop_last()) + frames_of(chunks_of(stderr, cut(held + fresh, ended).payloads))
    }
}

/// The bytes that the pumps hand out are the frames of the chunks that were
/// sent.
pub proof fn lemma_wire(readings: Seq<Reading>)
    ensures
        wire(readings) == frames_of(forwarded(readings).sent),
    decreases readings.len(),
{
    if readings.len() > 0 {
        lemma_wire(readings.drop_last());
        let before = forwarded(readings.drop_last());
        let (stderr, fresh, ended) = readings.last();
        let held = if stderr {
            before.err_held
        } else {
            before.out_held
        };
        lemma_frames_of_both(before.sent, chunks_of(stderr, cut(held + fresh, ended).payloads));
    }
}

/// What a child writes, the client reads: once both pumps hold nothing
/// back, the bytes that they have handed out, followed by the byte that ends
/// the stream, read as all that was read of the child's standard output and
/// all that was read of its standard error.
pub proof fn lemma_forwarding_round_trip(readings: Seq<Reading>)
    requires
        forwarded(readings).out_held.len() == 0,
        forwarded(readings).err_held.len() == 0,
    ensures
        read_from(wire(readings) + end_mark(), 0) == Some(
            (forwarded(readings).out_read, forwarded(readings).err_read),
        ),
{
    let now = forwarded(readings);
    lemma_forwarded(readings);
    lemma_wire(readings);
    lemma_round_trip(now.sent);
    assert(side_of(now.sent, false) + now.out_held =~= side_of(now.sent, false));
    assert(side_of(now.sent, true) + now.err_held =~= side_of(now.sent, true));
}

/// The two output streams of a child on their way to the client, with the
/// readings that were made of them so far.
pub struct Forwarding {
    out: Pump,
    err: Pump,
    readings: Ghost<Seq<Reading>>,
}

impl Forwarding {
    /// The readings made so far, in order.
    pub closed spec fn readings(&self) -> Seq<Reading> {
        self.readings@
    }

    /// What holds of all forwarding: each pump has its side and holds back
    /// what the readings leave held back on that side.
    pub closed spec fn wf(&self) -> bool {
        &&& !self.out.stderr
        &&& self.err.stderr
        &&& self.out.held@ == forwarded(self.readings@).out_held
        &&& self.err.held@ == forwarded(self.readings@).err_held
    }

    /// What is held back on one side.
    pub open spec fn held(&self, stderr: bool) -> Seq<u8> {
        if stderr {
            forwarded(self.readings()).err_held
        } else {
            forwarded(self.readings()).out_held
        }
    }

    /// The bytes handed out so far.
    pub open spec fn sent(&self) -> Seq<u8> {
        wire(self.readings())
    }

    /// Whether nothing is held back on either side.
    pub open spec fn is_settled(&self) -> bool {
        self.held(false).len() == 0 && self.held(true).len() == 0
    }

    /// Forwarding before anything is read.
    pub fn new() -> (f: Forwarding)
        ensures
            f.wf(),
            f.readings() == Seq::<Reading>::empty(),
            f.sent() == Seq::<u8>::empty(),
            f.is_settled(),
    {
        Forwarding { out: Pump::new(false), err: Pump::new(true), readings: Ghost(Seq::empty()) }
    }

    /// How many more bytes one side takes before it must send.
    pub fn room(&self, stderr: bool) -> (n: usize)
        requires
            self.wf(),
        ensures
            n == room_of(self.held(stderr).len()),
    {
        if stderr {
            self.err.room()
        } else {
            self.out.room()
        }
    }

    /// Whether nothing is held back on either side.
    pub fn settled(&self) -> (r: bool)
        requires
            self.wf(),
        ensures
            r == self.is_settled(),
    {
        self.out.held.len() == 0 && self.err.held.len() == 0
    }

    /// One reading of one side: takes the bytes that waited on the stream,
    /// decides whether the stream has ended, and returns the frames to send
    /// now with that decision. `finished` tells that the reader of the
    /// stream has finished.
    ///
    /// The reading is added to the readings and the frames to what was
    /// handed out. A stream that has ended holds nothing back. And what the
    /// child writes, the client reads: whenever nothing is held back on
    /// either side, the bytes handed out so far, followed by the byte that
    /// ends the stream, are read as all that was read of the child's
    /// standard output and all that was read of its standard error.
    pub fn drain(&mut self, stderr: bool, fresh: &Vec<u8>, finished: bool) -> (r: (Vec<u8>, bool))
        requires
            old(self).wf(),
        ensures
            final(self).wf(),
            r.1 == ended_by(old(self).held(stderr).len(), fresh@.len(), finished),
            final(self).readings() == old(self).readings().push((stderr, fresh@, r.1)),
            final(self).sent() == old(self).sent() + r.0@,
            r.1 ==> final(self).held(stderr).len() == 0,
            final(self).held(!stderr) == old(self).held(!stderr),
            final(self).is_settled() ==> read_from(final(self).sent() + end_mark(), 0) == Some(
                (
                    forwarded(final(self).readings()).out_read,
                    forwarded(final(self).readings()).err_read,
                ),
            ),
    {
        let ghost before = self.readings@;
        let r = if stderr {
            self.err.drain(fresh, finished)
        } else {
            self.out.drain(fresh, finished)
        };
        proof {
            let after = before.push((stderr, fresh@, r.1));
            assert(after.drop_last() =~= before);
            assert(after.last() == (stderr, fresh@, r.1));
            self.readings = Ghost(after);
            let held = if stderr {
                forwarded(before).err_held
            } else {
                forwarded(before).out_held
            };
            lemma_cut(held + fresh@, r.1);
            if forwarded(after).out_held.len() == 0 && forwarded(after).err_held.len() == 0 {
                lemma_forwarding_round_trip(after);
            }
        }
        r
    }
}

/// Whether forwarding has come to its end: both streams have ended, the
/// child has been reaped, and the last round sent nothing.
pub fn forwarding_done(
    stdout_ended: bool,
    stderr_ended: bool,
    child_reaped: bool,
    sent_anything: bool,
) -> (done: bool)
    ensures
        done == (stdout_ended && stderr_ended && child_reaped && !sent_anything),
{
    stdout_ended && stderr_ended && child_reaped && !sent_anything
}

/// What has been read of a stream, put before what the rest reads as.
pub open spec fn put_before(out: Seq<u8>, err: Seq<u8>, rest: Option<(Seq<u8>, Seq<u8>)>) -> Option<
    (Seq<u8>, Seq<u8>),
> {
    match rest {
        None => None,
        Some((o, e)) => Some((out + o, err + e)),
    }
}

/// Reads a whole stream back into the bytes of standard output and of
/// standard error. `None` where the stream breaks off before the byte that
/// ends it.
pub fn read_stream(stream: &Vec<u8>) -> (r: Option<(Vec<u8>, Vec<u8>)>)
    ensures
        match r {
            Some((out, err)) => read_from(stream@, 0) == Some((out@, err@)),
            None => read_from(stream@, 0) is None,
        },
{
    let mut out: Vec<u8> = Vec::new();
    let mut err: Vec<u8> = Vec::new();
    let mut at: usize = 0;
    proof {
        match read_from(stream@, 0) {
            None => {},
            Some((o, e)) => {
                assert(out@ + o =~= o);
                assert(err@ + e =~= e);
            },
        }
    }
    while at < stream.len()
        invariant
            at <= stream.len(),
            read_from(stream@, 0) == put_before(out@, err@, read_from(stream@, at as int)),
        decreases stream.len() - at,
    {
        match decode_header(stream[at]) {
            Header::End => {
                assert(out@ + Seq::<u8>::empty() =~= out@);
                assert(err@ + Seq::<u8>::empty() =~= err@);
                return Some((out, err));
            },
            Header::Data { stderr, len } => {
                let len = len as usize;
                if stream.len() - at - 1 < len {
                    return None;
                }
                let ghost out0 = out@;
                let ghost err0 = err@;
                let ghost payload = stream@.subrange(at + 1, at + 1 + len);
                let mut j: usize = 0;
                while j < len
                    invariant
                        j <= len,
                        at + 1 + len <= stream.len(),
                        payload == stream@.subrange(at + 1, at + 1 + len),
                        stderr ==> err@ == err0 + payload.take(j as int) && out@ == out0,
                        !stderr ==> out@ == out0 + payload.take(j as int) && err@ == err0,
                    decreases len - j,
                {
                    if stderr {
                        err.push(stream[at + 1 + j]);
                    } else {
                        out.push(stream[at + 1 + j]);
                    }
                    j += 1;
                    assert(payload.take(j as int) =~= payload.take(j - 1).push(payload[j - 1]));
                }
                proof {
                    assert(payload.take(len as int) =~= payload);
                    match read_from(stream@, at + 1 + len) {
                        None => {},
                        Some((o, e)) => {
                            if stderr {
                                assert(err0 + (payload + e) =~= err@ + e);
                            } else {
                                assert(out0 + (payload + o) =~= out@ + o);
                            }
                        },
                    }
                }
                at = at + 1 + len;
            },
        }
    }
    None
}

} // verus!
