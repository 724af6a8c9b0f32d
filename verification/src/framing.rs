//! Stream framing: every frame on the wire is a `u32` big-endian length
//! followed by that many payload bytes. Length zero is reserved and signals
//! that the sender is closing cleanly.
//!
//! The reader is an incremental buffer: it is fed the byte chunks exactly as
//! the transport delivers them, and hands back complete frames. What it
//! yields depends only on the concatenation of the fed chunks, never on how
//! the stream was segmented.

use vstd::prelude::*;

use crate::codec::{
    lemma_decode_encode, lemma_u32_be_round_trip, msg_encodable, push_u32_be, read_u32_be,
    spec_decode, spec_encode, spec_u32_be, spec_u32_from_be,
};
use crate::messages::{MessageError, MessageView};

verus! {

/// Upper bound on the bytes moved per stream operation.
pub const CHUNK: usize = 8192;

/// A payload that fits in one frame: nonempty, and its length fits the
/// `u32` prefix.
pub open spec fn frame_sized(p: Seq<u8>) -> bool {
    1 <= p.len() <= u32::MAX
}

/// One frame: length prefix, then the payload.
pub open spec fn spec_frame(p: Seq<u8>) -> Seq<u8>
    recommends
        frame_sized(p),
{
    spec_u32_be(p.len() as u32) + p
}

/// The clean-close marker: a bare zero length.
pub open spec fn spec_close_frame() -> Seq<u8> {
    spec_u32_be(0)
}

/// The concatenation of the frames of `ps`, in order.
pub open spec fn spec_frames(ps: Seq<Seq<u8>>) -> Seq<u8>
    decreases ps.len(),
{
    if ps.len() == 0 {
        Seq::empty()
    } else {
        spec_frame(ps[0]) + spec_frames(ps.drop_first())
    }
}

/// Every payload of `ps` fits in one frame.
pub open spec fn all_frame_sized(ps: Seq<Seq<u8>>) -> bool {
    forall|i: int| 0 <= i < ps.len() ==> frame_sized(#[trigger] ps[i])
}

/// What the front of a buffered byte stream holds.
pub ghost enum SpecFrameStep {
    /// No complete frame yet; more bytes are needed.
    Incomplete,
    /// A zero-length frame: the peer closed cleanly.
    Close { rest: Seq<u8> },
    /// One complete frame.
    Payload { payload: Seq<u8>, rest: Seq<u8> },
}

/// Splits the first complete frame off a buffered stream.
pub open spec fn spec_next_frame(b: Seq<u8>) -> SpecFrameStep {
    if b.len() < 4 {
        SpecFrameStep::Incomplete
    } else {
        let n = spec_u32_from_be(b.take(4)) as int;
        if n == 0 {
            SpecFrameStep::Close { rest: b.skip(4) }
        } else if b.len() >= 4 + n {
            SpecFrameStep::Payload { payload: b.subrange(4, 4 + n), rest: b.skip(4 + n) }
        } else {
            SpecFrameStep::Incomplete
        }
    }
}

/// The payloads of all complete frames at the front of a buffered stream,
/// up to its end, an incomplete frame, or a clean close.
pub open spec fn spec_extract_frames(b: Seq<u8>) -> Seq<Seq<u8>>
    decreases b.len(),
{
    match spec_next_frame(b) {
        SpecFrameStep::Payload { payload, rest } => if rest.len() < b.len() {
            seq![payload] + spec_extract_frames(rest)
        } else {
            Seq::empty()
        },
        SpecFrameStep::Close { .. } => Seq::empty(),
        SpecFrameStep::Incomplete => Seq::empty(),
    }
}

/// The first frame of a framed stream is its first payload, whatever
/// follows.
pub proof fn lemma_next_frame_of_stream(p: Seq<u8>, tail: Seq<u8>)
    requires
        frame_sized(p),
    ensures
        spec_next_frame(spec_frame(p) + tail) == (SpecFrameStep::Payload { payload: p, rest: tail }),
{
    let b = spec_frame(p) + tail;
    let n = p.len() as u32;
    assert(b.take(4) =~= spec_u32_be(n));
    lemma_u32_be_round_trip(n);
    assert(b.subrange(4, 4 + n as int) =~= p);
    assert(b.skip(4 + n as int) =~= tail);
}

/// A clean close is recognised at the front of a stream, whatever follows.
pub proof fn lemma_next_frame_of_close(tail: Seq<u8>)
    ensures
        spec_next_frame(spec_close_frame() + tail) == (SpecFrameStep::Close { rest: tail }),
{
    let b = spec_close_frame() + tail;
    assert(b.take(4) =~= spec_u32_be(0));
    lemma_u32_be_round_trip(0);
    assert(b.skip(4) =~= tail);
}

/// Framing round trip: however a concatenation of well-sized frames was
/// segmented on the wire, the reader yields exactly those payloads, in
/// order.
pub proof fn lemma_extract_frames(ps: Seq<Seq<u8>>)
    requires
        all_frame_sized(ps),
    ensures
        spec_extract_frames(spec_frames(ps)) == ps,
    decreases ps.len(),
{
    if ps.len() == 0 {
        assert(spec_extract_frames(Seq::empty()) =~= Seq::<Seq<u8>>::empty());
    } else {
        lemma_next_frame_of_stream(ps[0], spec_frames(ps.drop_first()));
        lemma_extract_frames(ps.drop_first());
        assert(seq![ps[0]] + ps.drop_first() =~= ps);
    }
}

/// A clean close after well-sized frames still yields exactly those
/// payloads, in order.
pub proof fn lemma_extract_frames_before_close(ps: Seq<Seq<u8>>)
    requires
        all_frame_sized(ps),
    ensures
        spec_extract_frames(spec_frames(ps) + spec_close_frame()) == ps,
    decreases ps.len(),
{
    if ps.len() == 0 {
        assert(spec_frames(ps) + spec_close_frame() =~= spec_close_frame() + Seq::<u8>::empty());
        lemma_next_frame_of_close(Seq::empty());
    } else {
        assert(spec_frames(ps) + spec_close_frame() =~= spec_frame(ps[0]) + (spec_frames(
            ps.drop_first(),
        ) + spec_close_frame()));
        lemma_next_frame_of_stream(ps[0], spec_frames(ps.drop_first()) + spec_close_frame());
        lemma_extract_frames_before_close(ps.drop_first());
        assert(seq![ps[0]] + ps.drop_first() =~= ps);
    }
}

/// The whole wire path at once: frame the encodings of any messages small
/// enough for one frame each, concatenate them on a stream, and — however
/// the transport segmented that stream — the reader yields frames whose
/// decodings are exactly the original messages, in order.
pub proof fn lemma_message_stream_round_trip(msgs: Seq<MessageView>)
    requires
        forall|i: int|
            0 <= i < msgs.len() ==> msg_encodable(#[trigger] msgs[i]) && frame_sized(
                spec_encode(msgs[i]),
            ),
    ensures
        ({
            let payloads = Seq::new(msgs.len(), |i: int| spec_encode(msgs[i]));
            &&& spec_extract_frames(spec_frames(payloads)) == payloads
            &&& forall|i: int|
                0 <= i < payloads.len() ==> spec_decode(#[trigger] payloads[i])
                    == Option::<MessageView>::Some(msgs[i])
        }),
{
    let payloads = Seq::new(msgs.len(), |i: int| spec_encode(msgs[i]));
    assert forall|i: int| 0 <= i < payloads.len() implies frame_sized(#[trigger] payloads[i]) by {
        assert(frame_sized(spec_encode(msgs[i])));
    }
    lemma_extract_frames(payloads);
    assert forall|i: int|
        0 <= i < payloads.len() implies spec_decode(#[trigger] payloads[i]) == Option::<
        MessageView,
    >::Some(msgs[i]) by {
        lemma_decode_encode(msgs[i]);
    }
}

/// What one read of the frame buffer produced.
#[derive(Debug, Clone, PartialEq, Eq)]
pub enum FrameStep {
    /// No complete frame buffered yet.
    Incomplete,
    /// The peer sent the zero-length close marker.
    Close,
    /// One complete frame payload.
    Payload(Vec<u8>),
}

/// The receiving half of the framing layer: buffers the chunks read off a
/// stream and hands back complete frames.
pub struct FrameBuffer {
    buf: Vec<u8>,
}

impl View for FrameBuffer {
    type V = Seq<u8>;

    closed spec fn view(&self) -> Seq<u8> {
        self.buf@
    }
}

/// Copies `src[from..to]` into a fresh vector.
fn copy_range(src: &Vec<u8>, from: usize, to: usize) -> (r: Vec<u8>)
    requires
        from <= to <= src.len(),
    ensures
        r@ == src@.subrange(from as int, to as int),
{
    let mut r: Vec<u8> = Vec::new();
    let mut i = from;
    while i < to
        invariant
            from <= i <= to <= src.len(),
            r@ =~= src@.subrange(from as int, i as int),
        decreases to - i,
    {
        r.push(src[i]);
        assert(r@ =~= src@.subrange(from as int, i as int + 1));
        i = i + 1;
    }
    r
}

impl FrameBuffer {
    /// An empty buffer for a fresh connection.
    pub fn new() -> (r: FrameBuffer)
        ensures
            r@ == Seq::<u8>::empty(),
    {
        FrameBuffer { buf: Vec::new() }
    }

    /// Appends one chunk exactly as the transport delivered it. The buffer
    /// state depends only on the concatenation of all fed chunks.
    pub fn feed(&mut self, chunk: &Vec<u8>)
        ensures
            final(self)@ == old(self)@ + chunk@,
    {
        self.buf.extend_from_slice(chunk.as_slice());
    }

    /// Takes the first complete frame off the buffer, consuming its bytes;
    /// a zero length prefix is the peer's clean close.
    pub fn next_frame(&mut self) -> (step: FrameStep)
        ensures
            match spec_next_frame(old(self)@) {
                SpecFrameStep::Incomplete => step == FrameStep::Incomplete && final(self)@ == old(
                    self,
                )@,
                SpecFrameStep::Close { rest } => step == FrameStep::Close && final(self)@ == rest,
                SpecFrameStep::Payload { payload, rest } => {
                    &&& step matches FrameStep::Payload(p) && p@ == payload
                    &&& final(self)@ == rest
                },
            },
    {
        if self.buf.len() < 4 {
            return FrameStep::Incomplete;
        }
        let n = read_u32_be(&self.buf, 0);
        assert(self.buf@.take(4) =~= self.buf@.subrange(0, 4));
        if n == 0 {
            let tail = copy_range(&self.buf, 4, self.buf.len());
            assert(tail@ =~= self.buf@.skip(4));
            self.buf = tail;
            return FrameStep::Close;
        }
        if self.buf.len() - 4 < n as usize {
            return FrameStep::Incomplete;
        }
        let end = 4 + n as usize;
        let payload = copy_range(&self.buf, 4, end);
        let tail = copy_range(&self.buf, end, self.buf.len());
        assert(tail@ =~= self.buf@.skip(4 + n as int));
        self.buf = tail;
        FrameStep::Payload(payload)
    }
}

/// Wraps a payload in one frame for the wire. Fails, with
/// `SerializationError`, exactly when the payload is empty (the reserved
/// close marker) or longer than the `u32` prefix can say.
pub fn build_frame(payload: &Vec<u8>) -> (r: Result<Vec<u8>, MessageError>)
    ensures
        match r {
            Result::Ok(f) => frame_sized(payload@) && f@ == spec_frame(payload@),
            Result::Err(e) => !frame_sized(payload@) && e == MessageError::SerializationError,
        },
{
    let n = payload.len();
    if n == 0 || n > u32::MAX as usize {
        return Result::Err(MessageError::SerializationError);
    }
    let mut f: Vec<u8> = Vec::new();
    push_u32_be(&mut f, n as u32);
    f.extend_from_slice(payload.as_slice());
    assert(f@ =~= spec_frame(payload@));
    Result::Ok(f)
}

/// The clean-close marker frame.
pub fn close_frame() -> (r: Vec<u8>)
    ensures
        r@ == spec_close_frame(),
{
    let mut f: Vec<u8> = Vec::new();
    push_u32_be(&mut f, 0);
    f
}

/// Size of the next chunk a writer puts on the stream: at most `CHUNK`
/// bytes, never past the end. Mirrors the chunked write loop of the
/// reporter link.
pub fn chunk_len(total: usize, offset: usize) -> (r: usize)
    requires
        offset < total,
    ensures
        r == if total - offset < CHUNK {
            total - offset
        } else {
            CHUNK as int
        },
        1 <= r <= CHUNK,
        offset + r <= total,
{
    if total - offset < CHUNK {
        total - offset
    } else {
        CHUNK
    }
}

/// The two-byte acknowledgement a receiver writes after each good frame.
pub fn ok_reply() -> (r: Vec<u8>)
    ensures
        r@ == seq![79u8, 75u8],
{
    let mut r: Vec<u8> = Vec::new();
    r.push(79u8);
    r.push(75u8);
    assert(r@ =~= seq![79u8, 75u8]);
    r
}

/// Whether a peer's reply is the expected `OK` (ASCII bytes 79, 75). A
/// writer that sees anything else treats the stream as broken.
pub fn is_ok_reply(reply: &Vec<u8>) -> (r: bool)
    ensures
        r <==> reply@ =~= seq![79u8, 75u8],
{
    reply.len() == 2 && reply[0] == 79 && reply[1] == 75
}

} // verus!
