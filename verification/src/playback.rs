//! Feeding a playback stream from a channel of sample chunks.
//!
//! The audio server asks for a number of samples at a time. They are taken, in
//! order, from the chunks that arrive on a channel; what is left of a chunk is
//! kept for the next request, and where no chunk is waiting the rest of the
//! request is silence.

use crate::audio::{CHANNELS, CHAN_SIZE};
use crate::pcm::{write_samples, write_silence, ByteOrder};
use std::sync::mpsc::{Receiver, TryRecvError};
use vstd::prelude::*;

verus! {

/// `std::sync::mpsc::Receiver`, held and never looked into.
#[verifier::external_type_specification]
#[verifier::external_body]
#[verifier::reject_recursive_types(T)]
pub struct ExReceiver<T>(Receiver<T>);

/// What a look at the channel found.
pub enum Incoming {
    /// The chunk that was first in the channel.
    Chunk(Vec<i16>),
    /// No chunk is waiting.
    Empty,
    /// No chunk is waiting and no sender is left.
    Disconnected,
}

/// How a request stands after some of it has been filled.
#[derive(Debug, Clone, Copy, PartialEq, Eq, Structural)]
pub enum Fill {
    /// Every requested sample has been written.
    Complete,
    /// No chunk was waiting: the rest of the request is silence.
    Starved,
    /// No chunk was waiting and none can follow: the rest is as it was.
    Disconnected,
    /// The request has to be taken up again.
    Unfinished,
}

/// What a look at the channel found, with a chunk's samples.
pub enum Found {
    Chunk(Seq<i16>),
    Empty,
    Disconnected,
}

/// `incoming` with its samples.
pub open spec fn found(incoming: Incoming) -> Found {
    match incoming {
        Incoming::Chunk(chunk) => Found::Chunk(chunk@),
        Incoming::Empty => Found::Empty,
        Incoming::Disconnected => Found::Disconnected,
    }
}

/// What every look through `rx` has found, in the order of the looks.
pub uninterp spec fn looks(rx: Receiver<Vec<i16>>) -> Seq<Found>;

/// Looks at the channel by `Receiver::try_recv`, which takes the first chunk off
/// it if there is one. What it finds depends on what the senders have done by
/// then, so nothing is stated of that; what was found is the last of the looks
/// through `rx`.
#[verifier::external_body]
fn receive(rx: &mut Receiver<Vec<i16>>) -> (incoming: Incoming)
    ensures
        looks(*final(rx)) == looks(*old(rx)).push(found(incoming)),
{
    match rx.try_recv() {
        Ok(chunk) => Incoming::Chunk(chunk),
        Err(TryRecvError::Empty) => Incoming::Empty,
        Err(TryRecvError::Disconnected) => Incoming::Disconnected,
    }
}

/// The chunks among what was found.
pub open spec fn chunks(seen: Seq<Found>) -> Seq<Seq<i16>>
    decreases seen.len(),
{
    if seen.len() == 0 {
        Seq::empty()
    } else {
        let earlier = chunks(seen.drop_last());
        match seen.last() {
            Found::Chunk(chunk) => earlier.push(chunk),
            _ => earlier,
        }
    }
}

/// What the looks of `after` found that came after those of `before`.
pub open spec fn later_looks(before: Seq<Found>, after: Seq<Found>) -> Seq<Found> {
    after.skip(before.len() as int)
}

/// The channel that a playback stream is fed from, the chunk that has been played
/// in part, and the order in which the stream's bytes are stored.
pub struct AudioState {
    order: ByteOrder,
    rx: Receiver<Vec<i16>>,
    prev_buffer: Option<(Vec<i16>, usize)>,
}

/// The samples of `out` after `played` has been written at position `written`
/// of a request of `requested` samples that then stands at `fill`.
pub open spec fn request_after(
    out: Seq<i16>,
    written: int,
    requested: int,
    played: Seq<i16>,
    fill: Fill,
) -> Seq<i16> {
    let reached = written + played.len();
    if fill is Starved {
        out.take(written) + played + crate::pcm::silence((requested - reached) as nat) + out.skip(
            requested,
        )
    } else {
        out.take(written) + played + out.skip(reached)
    }
}

/// That a request which lacked `missing` samples, with `before` kept from
/// earlier chunks, saw `seen` in the channel, played `played`, kept `after` and
/// stood at `fill`.
pub open spec fn plays(
    before: Seq<i16>,
    seen: Seq<Found>,
    missing: int,
    played: Seq<i16>,
    after: Seq<i16>,
    fill: Fill,
) -> bool {
    // The samples go out in the order in which they came in, each of them once.
    &&& before + chunks(seen).flatten() == played
        + after
    // Never more than was asked for, and all of it where there is enough.
    &&& played.len() <= missing
    &&& fill is Complete <==> played.len() == missing
    &&& fill !is Complete ==> after.len()
        == 0
    // The channel is looked at only when a sample is needed.
    &&& seen.len() > 0 ==> before.len() + chunks(seen.drop_last()).flatten().len()
        < missing
    // A look that finds no chunk ends the request, and nothing else gives it up.
    &&& forall|i: int| 0 <= i < seen.len() - 1 ==> #[trigger] seen[i] is Chunk
    &&& fill is Starved <==> seen.len() > 0 && seen.last() is Empty
    &&& fill is Disconnected <==> seen.len() > 0
        && seen.last() is Disconnected
    // A request is left unfinished only after as many looks as 64 bits count.
    &&& fill is Unfinished ==> seen.len() >= u64::MAX && seen.last() is Chunk
}

/// That a call of `AudioState::fill` with `before` kept, `out` to write to and
/// a request of `requested` samples at position `written` saw `seen` in the
/// channel and played `played`, and left `after` kept, `out_after` written and
/// `result` to return.
pub open spec fn filled(
    before: Seq<i16>,
    out: Seq<i16>,
    written: int,
    requested: int,
    seen: Seq<Found>,
    played: Seq<i16>,
    after: Seq<i16>,
    out_after: Seq<i16>,
    result: (usize, Fill),
) -> bool {
    &&& plays(before, seen, requested - written, played, after, result.1)
    &&& result.0 == written + played.len()
    &&& out_after == request_after(out, written, requested, played, result.1)
}

impl AudioState {
    /// A chunk that is kept has samples left to play.
    pub closed spec fn wf(&self) -> bool {
        self.prev_buffer matches Some((chunk, played)) ==> played < chunk@.len()
    }

    /// The order in which the stream's bytes are stored.
    pub closed spec fn order(&self) -> ByteOrder {
        self.order
    }

    /// The channel that chunks are received from.
    pub closed spec fn source(&self) -> Receiver<Vec<i16>> {
        self.rx
    }

    /// The samples received and not played yet.
    pub closed spec fn pending(&self) -> Seq<i16> {
        match self.prev_buffer {
            Some((chunk, played)) => chunk@.skip(played as int),
            None => Seq::empty(),
        }
    }

    /// A state that has received nothing yet and will receive from `rx`, for a
    /// stream whose bytes are stored in `order`.
    pub fn new(rx: Receiver<Vec<i16>>, order: ByteOrder) -> (state: AudioState)
        ensures
            state.wf(),
            state.source() == rx,
            state.order() == order,
            state.pending() == Seq::<i16>::empty(),
    {
        AudioState { order, rx, prev_buffer: None }
    }

    /// Writes the samples that are kept at position `written` of `out`, as many
    /// as the request still lacks, and returns the position reached.
    pub fn play_pending(&mut self, out: &mut [u8], written: usize, requested: usize) -> (reached:
        usize)
        requires
            old(self).wf(),
            written <= requested,
            2 * requested <= old(out)@.len(),
        ensures
            final(self).wf(),
            final(self).order() == old(self).order(),
            final(self).source() == old(self).source(),
            reached - written == vstd::math::min(
                old(self).pending().len() as int,
                requested - written,
            ),
            final(self).pending() == old(self).pending().skip(reached - written),
            final(out)@.len() == old(out)@.len(),
            crate::pcm::samples(old(self).order(), final(out)@) == request_after(
                crate::pcm::samples(old(self).order(), old(out)@),
                written as int,
                requested as int,
                old(self).pending().take(reached - written),
                Fill::Complete,
            ),
            forall|i: int|
                2 * requested <= i < old(out)@.len() ==> final(out)@[i] == old(out)@[i],
            old(self).order() is Little ==> forall|p: int|
                0 <= p < reached - written ==> (#[trigger] old(self).pending()[p] - (final(out)@[2
                    * (written + p)] + 256 * final(out)@[2 * (written + p) + 1])) % 65536 == 0,
            old(self).order() is Big ==> forall|p: int|
                0 <= p < reached - written ==> (#[trigger] old(self).pending()[p] - (256
                    * final(out)@[2 * (written + p)] + final(out)@[2 * (written + p) + 1])) % 65536
                    == 0,
            forall|i: int|
                0 <= i < old(out)@.len() && !(2 * written <= i < 2 * reached) ==> final(out)@[i]
                    == old(out)@[i],
    {
        match self.prev_buffer.take() {
            Some((chunk, played)) => {
                let left: usize = chunk.len() - played;
                let lacking: usize = requested - written;
                let count: usize = if left < lacking {
                    left
                } else {
                    lacking
                };
                write_samples(self.order, out, written, chunk.as_slice(), played, count);
                let reached: usize = written + count;
                if count < left {
                    self.prev_buffer = Some((chunk, played + count));
                }
                reached
            },
            None => written,
        }
    }

    /// Acts on what a look at the channel found while a request of `requested`
    /// samples had reached position `written` with nothing kept.
    pub fn accept(&mut self, incoming: Incoming, out: &mut [u8], written: usize, requested: usize)
        -> (fill: Fill)
        requires
            old(self).wf(),
            old(self).pending().len() == 0,
            written < requested,
            2 * requested <= old(out)@.len(),
        ensures
            final(self).wf(),
            final(self).order() == old(self).order(),
            final(self).source() == old(self).source(),
            final(out)@.len() == old(out)@.len(),
            match incoming {
                Incoming::Chunk(chunk) => {
                    &&& fill is Unfinished
                    &&& final(self).pending() == chunk@
                    &&& final(out)@ == old(out)@
                },
                Incoming::Empty => {
                    &&& fill is Starved
                    &&& final(self).pending() == Seq::<i16>::empty()
                    &&& crate::pcm::samples(old(self).order(), final(out)@) == request_after(
                        crate::pcm::samples(old(self).order(), old(out)@),
                        written as int,
                        requested as int,
                        Seq::empty(),
                        Fill::Starved,
                    )
                    &&& forall|i: int|
                        2 * written <= i < 2 * requested ==> #[trigger] final(out)@[i] == 0
                },
                Incoming::Disconnected => {
                    &&& fill is Disconnected
                    &&& final(self).pending() == Seq::<i16>::empty()
                    &&& final(out)@ == old(out)@
                },
            },
            forall|i: int|
                2 * requested <= i < old(out)@.len() ==> final(out)@[i] == old(out)@[i],
            forall|i: int|
                0 <= i < old(out)@.len() && !(2 * written <= i < 2 * requested) ==> final(out)@[i]
                    == old(out)@[i],
    {
        self.prev_buffer = None;
        match incoming {
            Incoming::Chunk(chunk) => {
                if chunk.len() > 0 {
                    self.prev_buffer = Some((chunk, 0));
                }
                Fill::Unfinished
            },
            Incoming::Empty => {
                write_silence(self.order, out, written, requested);
                Fill::Starved
            },
            Incoming::Disconnected => Fill::Disconnected,
        }
    }

    /// Fills a request of `requested` samples from position `written` on, and
    /// returns the position reached and how the request then stands. Silence is
    /// written but not counted. Chunks without samples do not advance a request;
    /// so that it ends however many there are, it is left unfinished once the
    /// looks of a call have been counted to the end of 64 bits, to be taken up
    /// again from the position reached.
    pub fn fill(&mut self, out: &mut [u8], written: usize, requested: usize) -> (result: (
        usize,
        Fill,
    ))
        requires
            old(self).wf(),
            written <= requested,
            2 * requested <= old(out)@.len(),
        ensures
            final(self).wf(),
            final(self).order() == old(self).order(),
            written <= result.0 <= requested,
            looks(old(self).source()).is_prefix_of(looks(final(self).source())),
            filled(
                old(self).pending(),
                crate::pcm::samples(old(self).order(), old(out)@),
                written as int,
                requested as int,
                later_looks(looks(old(self).source()), looks(final(self).source())),
                crate::pcm::samples(old(self).order(), final(out)@).subrange(written as int, result.0 as int),
                final(self).pending(),
                crate::pcm::samples(old(self).order(), final(out)@),
                result,
            ),
            old(self).pending().len() >= requested - written ==> {
                &&& result == (requested, Fill::Complete)
                &&& final(self).pending() == old(self).pending().skip(requested - written)
                &&& final(self).source() == old(self).source()
            },
            final(out)@.len() == old(out)@.len(),
            forall|i: int|
                2 * requested <= i < old(out)@.len() ==> final(out)@[i] == old(out)@[i],
            ({
                let seen = looks(final(self).source()).skip(
                    looks(old(self).source()).len() as int,
                );
                let waiting = old(self).pending() + chunks(seen).flatten();
                &&& result.0 - written <= waiting.len()
                &&& final(self).pending() == waiting.skip(result.0 - written)
                &&& result.1 is Complete <==> result.0 == requested
                &&& result.1 !is Complete ==> result.0 - written == waiting.len()
                &&& seen.len() > 0 ==> old(self).pending().len() + chunks(
                    seen.drop_last(),
                ).flatten().len() < requested - written
                &&& forall|i: int| 0 <= i < seen.len() - 1 ==> #[trigger] seen[i] is Chunk
                &&& result.1 is Starved <==> seen.len() > 0 && seen.last() is Empty
                &&& result.1 is Disconnected <==> seen.len() > 0 && seen.last() is Disconnected
                &&& result.1 is Unfinished ==> seen.len() >= u64::MAX
                &&& old(self).order() is Little ==> forall|p: int|
                    0 <= p < result.0 - written ==> (#[trigger] waiting[p] - (final(out)@[2 * (
                    written + p)] + 256 * final(out)@[2 * (written + p) + 1])) % 65536 == 0
                &&& old(self).order() is Big ==> forall|p: int|
                    0 <= p < result.0 - written ==> (#[trigger] waiting[p] - (256 * final(out)@[2
                        * (written + p)] + final(out)@[2 * (written + p) + 1])) % 65536 == 0
            }),
            result.1 is Starved ==> forall|i: int|
                2 * result.0 <= i < 2 * requested ==> #[trigger] final(out)@[i] == 0,
            result.1 !is Starved ==> forall|i: int|
                2 * result.0 <= i < 2 * requested ==> final(out)@[i] == old(out)@[i],
            forall|i: int| 0 <= i < 2 * written ==> final(out)@[i] == old(out)@[i],
    {
        let mut reached: usize = written;
        let mut budget: u64 = u64::MAX;
        let ghost mut seen: Seq<Found> = Seq::empty();
        let ghost mut played: Seq<i16> = Seq::empty();
        let ghost before = self.pending();
        let ghost initial = out@;
        while reached < requested
            invariant
                before == old(self).pending(),
                initial == old(out)@,
                self.wf(),
                self.order() == old(self).order(),
                looks(self.source()) == looks(old(self).source()) + seen,
                seen.len() == 0 ==> self.source() == old(self).source(),
                written <= reached <= requested,
                reached == written + played.len(),
                2 * requested <= out@.len(),
                out@.len() == initial.len(),
                before + chunks(seen).flatten() == played + self.pending(),
                forall|i: int| 0 <= i < seen.len() ==> #[trigger] seen[i] is Chunk,
                seen.len() + budget == u64::MAX,
                seen.len() > 0 ==> before.len() + chunks(seen.drop_last()).flatten().len()
                    < requested - written,
                before.len() >= requested - written ==> seen.len() == 0,
                crate::pcm::samples(self.order(), out@) == request_after(
                    crate::pcm::samples(self.order(), initial),
                    written as int,
                    requested as int,
                    played,
                    Fill::Complete,
                ),
                forall|i: int| 2 * requested <= i < out@.len() ==> out@[i] == initial[i],
                forall|i: int|
                    0 <= i < out@.len() && !(2 * written <= i < 2 * reached) ==> out@[i]
                        == initial[i],
            decreases budget, requested - reached,
        {
            let ghost kept = self.pending();
            if self.prev_buffer.is_some() {
                let ghost start = reached;
                reached = self.play_pending(out, reached, requested);
                proof {
                    let more = kept.take(reached - start);
                    assert(more + self.pending() == kept);
                    assert(played + kept == (played + more) + self.pending());
                    played = played + more;
                    assert(crate::pcm::samples(self.order(), out@) == request_after(
                        crate::pcm::samples(self.order(), initial),
                        written as int,
                        requested as int,
                        played,
                        Fill::Complete,
                    ));
                }
            } else {
                if budget == 0 {
                    proof {
                        assert(later_looks(looks(old(self).source()), looks(self.source()))
                            == seen);
                        assert(crate::pcm::samples(self.order(), out@).subrange(
                            written as int,
                            reached as int,
                        ) == played);
                        assert(seen[seen.len() - 1] is Chunk);
                        stored_in_order(self.order(), out@, written as int, played, self.pending());
                    }
                    return (reached, Fill::Unfinished);
                }
                budget = budget - 1;
                let incoming = receive(&mut self.rx);
                proof {
                    let earlier = seen;
                    seen = seen.push(found(incoming));
                    assert(seen.drop_last() == earlier);
                    assert(looks(self.source()) == looks(old(self).source()) + seen);
                    if incoming is Chunk {
                        let chunk = incoming->Chunk_0;
                        chunks(earlier).lemma_flatten_push(chunk@);
                        assert(before + chunks(seen).flatten() == played + chunk@);
                    }
                }
                let fill = self.accept(incoming, out, reached, requested);
                if fill != Fill::Unfinished {
                    proof {
                        assert(crate::pcm::samples(self.order(), out@) == request_after(
                            crate::pcm::samples(self.order(), initial),
                            written as int,
                            requested as int,
                            played,
                            fill,
                        ));
                        assert(later_looks(looks(old(self).source()), looks(self.source()))
                            == seen);
                        assert(crate::pcm::samples(self.order(), out@).subrange(written as int, reached as int)
                            == played);
                        stored_in_order(self.order(), out@, written as int, played, self.pending());
                    }
                    return (reached, fill);
                }
            }
        }
        proof {
            assert(later_looks(looks(old(self).source()), looks(self.source())) == seen);
            assert(crate::pcm::samples(self.order(), out@).subrange(written as int, reached as int) == played);
            stored_in_order(self.order(), out@, written as int, played, self.pending());
            if seen.len() == 0 {
                assert(before == played + self.pending());
                assert(self.pending() == before.skip(requested - written));
            }
        }
        (reached, Fill::Complete)
    }
}

/// Where the samples of `bytes` from position `at` on are those of `played`, in
/// `order`, each pair of bytes makes up the sample in its place.
proof fn stored_in_order(
    order: ByteOrder,
    bytes: Seq<u8>,
    at: int,
    played: Seq<i16>,
    kept: Seq<i16>,
)
    requires
        0 <= at,
        2 * (at + played.len()) <= bytes.len(),
        crate::pcm::samples(order, bytes).subrange(at, at + played.len()) == played,
    ensures
        (played + kept).skip(played.len() as int) == kept,
        order is Little ==> forall|p: int|
            0 <= p < played.len() ==> (#[trigger] (played + kept)[p] - (bytes[2 * (at + p)] + 256
                * bytes[2 * (at + p) + 1])) % 65536 == 0,
        order is Big ==> forall|p: int|
            0 <= p < played.len() ==> (#[trigger] (played + kept)[p] - (256 * bytes[2 * (at + p)]
                + bytes[2 * (at + p) + 1])) % 65536 == 0,
{
    assert forall|p: int| 0 <= p < played.len() implies #[trigger] (played + kept)[p]
        == crate::pcm::samples(order, bytes)[at + p] by {
        assert(played[p] == crate::pcm::samples(order, bytes).subrange(at, at + played.len())[p]);
    }
    assert forall|p: int| order is Little && 0 <= p < played.len() implies (#[trigger] (played
        + kept)[p] - (bytes[2 * (at + p)] + 256 * bytes[2 * (at + p) + 1])) % 65536 == 0 by {
        crate::pcm::samples_in_place(bytes, at + p);
    }
    assert forall|p: int| order is Big && 0 <= p < played.len() implies (#[trigger] (played
        + kept)[p] - (256 * bytes[2 * (at + p)] + bytes[2 * (at + p) + 1])) % 65536 == 0 by {
        crate::pcm::samples_in_place(bytes, at + p);
    }
}

/// What the server is told of the buffer that a request was written to.
#[derive(Debug, Clone, Copy, PartialEq, Eq, Structural)]
pub struct ChunkInfo {
    /// Where the data starts.
    pub offset: u32,
    /// Bytes from one frame to the next.
    pub stride: i32,
    /// Bytes of data.
    pub size: u32,
}

/// The bytes of the whole frames among `written` samples.
pub open spec fn frames_size(written: int) -> int {
    CHAN_SIZE * CHANNELS * (written / CHANNELS as int)
}

/// The samples, over all channels, of a request for `frames` frames.
pub fn requested_samples(frames: u64) -> (samples: usize)
    requires
        frames * CHANNELS <= u64::MAX,
        frames * CHANNELS <= usize::MAX,
    ensures
        samples == frames * CHANNELS,
        samples == 2 * frames,
{
    (frames * CHANNELS as u64) as usize
}

/// Describes a buffer that holds `written` samples, of which whole frames count.
/// The size is kept in 32 bits.
pub fn chunk_info(written: usize) -> (info: ChunkInfo)
    requires
        written * CHAN_SIZE <= usize::MAX,
    ensures
        info.offset == 0,
        info.stride == CHAN_SIZE * CHANNELS,
        info.size == frames_size(written as int) as u32,
        info.stride == 4,
        4 * (written / 2) <= u32::MAX ==> info.size == 4 * (written / 2),
        (4 * (written / 2) - info.size) % 0x1_0000_0000 == 0,
{
    proof {
        whole_frames_counted(written as int);
        let size: u64 = (4 * (written / 2)) as u64;
        assert((size - (size as u32)) % 0x1_0000_0000 == 0) by (bit_vector);
    }
    let stride: usize = CHAN_SIZE * CHANNELS as usize;
    let frames: usize = written / CHANNELS as usize;
    ChunkInfo { offset: 0, stride: stride as i32, size: (stride * frames) as u32 }
}

/// One call of `AudioState::fill`: the looks through its channel before and after
/// it, and the rest as `plays` speaks of it.
pub struct Call {
    pub looks_before: Seq<Found>,
    pub looks_after: Seq<Found>,
    pub before: Seq<i16>,
    pub missing: int,
    pub played: Seq<i16>,
    pub after: Seq<i16>,
    pub fill: Fill,
}

/// That a call did what `AudioState::fill` states.
pub open spec fn call_plays(call: Call) -> bool {
    &&& call.looks_before.is_prefix_of(call.looks_after)
    &&& plays(
        call.before,
        later_looks(call.looks_before, call.looks_after),
        call.missing,
        call.played,
        call.after,
        call.fill,
    )
}

/// That each call did what `AudioState::fill` states and found the channel and
/// the kept samples as the one before it left them.
pub open spec fn consecutive(calls: Seq<Call>) -> bool {
    &&& forall|i: int| 0 <= i < calls.len() ==> call_plays(#[trigger] calls[i])
    &&& forall|i: int, j: int|
        #![trigger calls[i], calls[j]]
        0 <= i && j == i + 1 && j < calls.len() ==> {
            &&& calls[j].before == calls[i].after
            &&& calls[j].looks_before == calls[i].looks_after
        }
}

/// The samples that were played over all of `calls`.
pub open spec fn all_played(calls: Seq<Call>) -> Seq<i16> {
    calls.map_values(|call: Call| call.played).flatten()
}

/// The chunks among two runs of looks are those of the first and then those of
/// the second.
pub proof fn chunks_concat(first: Seq<Found>, second: Seq<Found>)
    ensures
        chunks(first + second) == chunks(first) + chunks(second),
    decreases second.len(),
{
    if second.len() == 0 {
        assert(first + second == first);
    } else {
        chunks_concat(first, second.drop_last());
        assert((first + second).drop_last() == first + second.drop_last());
    }
}

/// However the requests fall, every sample that came through the channel is
/// played once, in the order in which it came: what all calls have played, and
/// after it what is still kept, is what was kept at first and after it all the
/// chunks that the looks from the first call to the last have found.
pub proof fn every_sample_once_in_order(calls: Seq<Call>)
    requires
        consecutive(calls),
        calls.len() > 0,
    ensures
        calls.first().looks_before.is_prefix_of(calls.last().looks_after),
        calls.first().before + chunks(
            later_looks(calls.first().looks_before, calls.last().looks_after),
        ).flatten() == all_played(calls) + calls.last().after,
    decreases calls.len(),
{
    let last = calls.last();
    let earlier = calls.drop_last();
    let played = earlier.map_values(|call: Call| call.played);
    assert(calls.map_values(|call: Call| call.played) == played.push(last.played));
    played.lemma_flatten_push(last.played);
    let first = calls.first();
    let p = all_played(earlier);
    assert(all_played(calls) == p + last.played);
    assert(call_plays(calls[calls.len() - 1]));
    if earlier.len() == 0 {
        assert(p + last.played == last.played);
    } else {
        assert(consecutive(earlier));
        every_sample_once_in_order(earlier);
        let previous = calls[calls.len() - 2];
        assert(earlier.last() == previous);
        assert(calls[calls.len() - 1].before == previous.after);
        let seen1 = later_looks(first.looks_before, previous.looks_after);
        let seen2 = later_looks(last.looks_before, last.looks_after);
        assert(later_looks(first.looks_before, last.looks_after) == seen1 + seen2);
        chunks_concat(seen1, seen2);
        vstd::seq_lib::lemma_flatten_concat(chunks(seen1), chunks(seen2));
        let a = chunks(seen1).flatten();
        let b = chunks(seen2).flatten();
        assert(first.before + (a + b) == (first.before + a) + b);
        assert((p + last.before) + b == p + (last.before + b));
        assert(p + (last.played + last.after) == (p + last.played) + last.after);
    }
}

/// A stream that starts with nothing kept plays a prefix of what comes through
/// its channel.
pub proof fn prefix_of_channel_played(calls: Seq<Call>)
    requires
        consecutive(calls),
        calls.len() > 0,
        calls.first().before.len() == 0,
    ensures
        all_played(calls).is_prefix_of(
            chunks(later_looks(calls.first().looks_before, calls.last().looks_after)).flatten(),
        ),
{
    every_sample_once_in_order(calls);
    let came = chunks(
        later_looks(calls.first().looks_before, calls.last().looks_after),
    ).flatten();
    assert(calls.first().before + came == came);
}

/// What the look with the number `i`, from zero on, finds in a channel that holds
/// `queue` and that nothing is sent to meanwhile.
pub open spec fn look_finds(queue: Seq<Seq<i16>>, connected: bool, i: int) -> Found {
    if i < queue.len() {
        Found::Chunk(queue[i])
    } else if connected {
        Found::Empty
    } else {
        Found::Disconnected
    }
}

/// That `seen` is what looks find in a channel that holds `queue`, has a sender
/// left if `connected`, and that nothing is sent to meanwhile.
pub open spec fn looks_find(queue: Seq<Seq<i16>>, connected: bool, seen: Seq<Found>) -> bool {
    forall|i: int| 0 <= i < seen.len() ==> #[trigger] seen[i] == look_finds(queue, connected, i)
}

/// The chunks that looks find are the first of the queue.
proof fn looks_find_queue(queue: Seq<Seq<i16>>, connected: bool, seen: Seq<Found>)
    requires
        looks_find(queue, connected, seen),
    ensures
        chunks(seen) == queue.take(vstd::math::min(seen.len() as int, queue.len() as int)),
    decreases seen.len(),
{
    if seen.len() > 0 {
        let earlier = seen.drop_last();
        assert forall|i: int| 0 <= i < earlier.len() implies #[trigger] earlier[i] == look_finds(
            queue,
            connected,
            i,
        ) by {
            assert(earlier[i] == seen[i]);
        }
        looks_find_queue(queue, connected, earlier);
        assert(seen[seen.len() - 1] == look_finds(queue, connected, seen.len() - 1));
    }
}

/// What a request comes to, given what the channel holds. Where the samples kept
/// and queued are enough, it is completed with the first of them, without
/// silence, and the others stay kept or queued in order. Where they are not, all
/// of them are played and nothing is kept; the request is then starved if a
/// sender is left, and otherwise the stream is at its end.
pub proof fn request_outcome(
    queue: Seq<Seq<i16>>,
    connected: bool,
    before: Seq<i16>,
    seen: Seq<Found>,
    missing: int,
    played: Seq<i16>,
    after: Seq<i16>,
    fill: Fill,
)
    requires
        plays(before, seen, missing, played, after, fill),
        looks_find(queue, connected, seen),
        queue.len() < u64::MAX,
    ensures
        ({
            let waiting = before + queue.flatten();
            if waiting.len() >= missing {
                &&& fill is Complete
                &&& played == waiting.take(missing)
                &&& after + queue.skip(chunks(seen).len() as int).flatten() == waiting.skip(missing)
            } else {
                &&& fill is Starved <==> connected
                &&& fill is Disconnected <==> !connected
                &&& played == waiting
                &&& after.len() == 0
                &&& chunks(seen) == queue
            }
        }),
{
    looks_find_queue(queue, connected, seen);
    let taken = chunks(seen).len() as int;
    let rest = queue.skip(taken).flatten();
    assert(queue.take(taken) + queue.skip(taken) == queue);
    vstd::seq_lib::lemma_flatten_concat(queue.take(taken), queue.skip(taken));
    let waiting = before + queue.flatten();
    assert(queue.flatten() == chunks(seen).flatten() + rest);
    assert(waiting == (before + chunks(seen).flatten()) + rest);
    assert(waiting == (played + after) + rest);
    assert(waiting == played + (after + rest));
    if fill is Unfinished {
        assert(seen[seen.len() - 1] == look_finds(queue, connected, seen.len() - 1));
        assert(false);
    } else if fill is Complete {
        assert(played == waiting.take(missing));
        assert(after + rest == waiting.skip(missing));
    } else {
        assert(seen[seen.len() - 1] == look_finds(queue, connected, seen.len() - 1));
        assert(chunks(seen) == queue);
        assert(queue.skip(taken) == Seq::<Seq<i16>>::empty());
        assert(rest == Seq::<i16>::empty());
        assert(played == waiting);
    }
}

/// A request that was left unfinished and is taken up again ends as it would
/// have, had it all been one call.
pub proof fn resumed_request(
    before: Seq<i16>,
    out: Seq<i16>,
    written: int,
    requested: int,
    seen1: Seq<Found>,
    played1: Seq<i16>,
    between: Seq<i16>,
    out_between: Seq<i16>,
    reached: usize,
    seen2: Seq<Found>,
    played2: Seq<i16>,
    after: Seq<i16>,
    out_after: Seq<i16>,
    result: (usize, Fill),
)
    requires
        0 <= written <= requested <= out.len(),
        filled(
            before,
            out,
            written,
            requested,
            seen1,
            played1,
            between,
            out_between,
            (reached, Fill::Unfinished),
        ),
        filled(
            between,
            out_between,
            reached as int,
            requested,
            seen2,
            played2,
            after,
            out_after,
            result,
        ),
    ensures
        filled(
            before,
            out,
            written,
            requested,
            seen1 + seen2,
            played1 + played2,
            after,
            out_after,
            result,
        ),
{
    let seen = seen1 + seen2;
    chunks_concat(seen1, seen2);
    vstd::seq_lib::lemma_flatten_concat(chunks(seen1), chunks(seen2));
    let a = chunks(seen1).flatten();
    let b = chunks(seen2).flatten();
    assert(before + (a + b) == (before + a) + b);
    assert((played1 + between) + b == played1 + (between + b));
    assert(played1 + (played2 + after) == (played1 + played2) + after);
    assert(seen2.len() > 0);
    chunks_concat(seen1, seen2.drop_last());
    vstd::seq_lib::lemma_flatten_concat(chunks(seen1), chunks(seen2.drop_last()));
    assert(seen.drop_last() == seen1 + seen2.drop_last());
    assert(seen.last() == seen2.last());
    assert(out_after == request_after(out, written, requested, played1 + played2, result.1));
}

/// Where only whole frames are received and asked for, only whole frames are
/// played and kept.
pub proof fn whole_frames_played(
    before: Seq<i16>,
    seen: Seq<Found>,
    missing: int,
    played: Seq<i16>,
    after: Seq<i16>,
    fill: Fill,
)
    requires
        plays(before, seen, missing, played, after, fill),
        before.len() % CHANNELS as nat == 0,
        missing % CHANNELS as int == 0,
        forall|i: int|
            0 <= i < chunks(seen).len() ==> (#[trigger] chunks(seen)[i]).len() % CHANNELS as nat
                == 0,
    ensures
        played.len() % CHANNELS as nat == 0,
        after.len() % CHANNELS as nat == 0,
{
    whole_frames_flatten(chunks(seen));
    assert((before + chunks(seen).flatten()).len() == before.len() + chunks(seen).flatten().len());
    assert((played + after).len() == played.len() + after.len());
}

/// Chunks of whole frames make up whole frames.
proof fn whole_frames_flatten(chunks: Seq<Seq<i16>>)
    requires
        forall|i: int|
            0 <= i < chunks.len() ==> (#[trigger] chunks[i]).len() % CHANNELS as nat == 0,
    ensures
        chunks.flatten().len() % CHANNELS as nat == 0,
    decreases chunks.len(),
{
    if chunks.len() > 0 {
        let rest = chunks.drop_first();
        assert forall|i: int| 0 <= i < rest.len() implies (#[trigger] rest[i]).len()
            % CHANNELS as nat == 0 by {
            assert(rest[i] == chunks[i + 1]);
        }
        whole_frames_flatten(rest);
        assert(chunks[0].len() % CHANNELS as nat == 0);
    }
}

/// Of the bytes of the samples written, less than a frame goes uncounted, and
/// none where they make up whole frames.
pub proof fn whole_frames_counted(written: int)
    requires
        0 <= written,
    ensures
        frames_size(written) <= CHAN_SIZE * written < frames_size(written) + CHAN_SIZE * CHANNELS,
        written % CHANNELS as int == 0 ==> frames_size(written) == CHAN_SIZE * written,
        frames_size(written) == 4 * (written / 2),
{
    assert(frames_size(written) == 4 * (written / 2)) by (nonlinear_arith);
}

/// What a look found is the chunk with all its samples, or that there was none.
pub proof fn found_as_received(incoming: Incoming)
    ensures
        match incoming {
            Incoming::Chunk(chunk) => found(incoming) == Found::Chunk(chunk@),
            Incoming::Empty => found(incoming) is Empty,
            Incoming::Disconnected => found(incoming) is Disconnected,
        },
{
}

/// The chunks that looks have found: none before the first look, one more, at the
/// end, with each look that finds one, and otherwise no other.
pub proof fn chunks_as_found(seen: Seq<Found>, chunk: Seq<i16>)
    ensures
        chunks(Seq::empty()) == Seq::<Seq<i16>>::empty(),
        chunks(seen.push(Found::Chunk(chunk))) == chunks(seen).push(chunk),
        chunks(seen.push(Found::Empty)) == chunks(seen),
        chunks(seen.push(Found::Disconnected)) == chunks(seen),
{
    assert(seen.push(Found::Chunk(chunk)).drop_last() == seen);
    assert(seen.push(Found::Empty).drop_last() == seen);
    assert(seen.push(Found::Disconnected).drop_last() == seen);
}

/// The later looks are those that follow the ones before.
pub proof fn looks_follow(before: Seq<Found>, later: Seq<Found>)
    ensures
        later_looks(before, before + later) == later,
{
}

/// Where a request's samples come from, position by position: first the samples
/// that are waiting, kept ones before received ones, as far as they go; after them
/// silence where the request is starved; and all others are as they were. What is
/// left of the samples that were waiting is kept, and there is something left only
/// of a complete request. The channel is looked at only while samples are missing.
pub proof fn request_filled(
    before: Seq<i16>,
    out: Seq<i16>,
    written: int,
    requested: int,
    seen: Seq<Found>,
    played: Seq<i16>,
    after: Seq<i16>,
    out_after: Seq<i16>,
    result: (usize, Fill),
)
    requires
        0 <= written <= requested <= out.len(),
        filled(before, out, written, requested, seen, played, after, out_after, result),
    ensures
        ({
            let waiting = before + chunks(seen).flatten();
            &&& written <= result.0 <= requested
            &&& result.0 - written <= waiting.len()
            &&& played == waiting.take(result.0 - written)
            &&& after == waiting.skip(result.0 - written)
            &&& out_after.len() == out.len()
            &&& forall|i: int| 0 <= i < written ==> #[trigger] out_after[i] == out[i]
            &&& forall|i: int|
                written <= i < result.0 ==> #[trigger] out_after[i] == waiting[i - written]
            &&& forall|i: int|
                result.0 <= i < requested ==> #[trigger] out_after[i] == if result.1 is Starved {
                    0
                } else {
                    out[i]
                }
            &&& forall|i: int| requested <= i < out.len() ==> #[trigger] out_after[i] == out[i]
            &&& result.1 is Complete <==> result.0 == requested
            &&& waiting.len() >= requested - written ==> result.1 is Complete
            &&& result.1 !is Complete ==> after.len() == 0
            &&& result.1 is Starved <==> seen.len() > 0 && seen.last() is Empty
            &&& result.1 is Disconnected <==> seen.len() > 0 && seen.last() is Disconnected
            &&& result.1 is Unfinished ==> seen.len() >= u64::MAX && seen.last() is Chunk
            &&& forall|i: int| 0 <= i < seen.len() - 1 ==> #[trigger] seen[i] is Chunk
            &&& before.len() >= requested - written ==> seen.len() == 0
            &&& seen.len() > 0 ==> before.len() + chunks(seen.drop_last()).flatten().len()
                < requested - written
        }),
{
    let waiting = before + chunks(seen).flatten();
    assert(waiting == played + after);
    assert(waiting.len() == played.len() + after.len());
    assert(waiting.take(played.len() as int) == played);
    assert(waiting.skip(played.len() as int) == after);
    assert(out_after == request_after(out, written, requested, played, result.1));
    assert forall|i: int| written <= i < result.0 implies #[trigger] out_after[i] == waiting[i
        - written] by {
        assert(out_after[i] == played[i - written]);
    }
}

} // verus!
