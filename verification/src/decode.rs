//! Decoding an MP3 stream while it is still being downloaded.
//!
//! The decoder takes one frame at a time off the front of the bytes that have
//! arrived. To be sure that it sees whole frames it is asked only while plenty
//! of bytes are unread, or once the download is complete.

use crate::audio::CHANNELS;
use crate::pcm::mono_to_stereo;
use vstd::prelude::*;

verus! {

/// The most samples, over all channels, that a frame decodes to.
pub open spec fn max_frame_samples() -> int {
    2304
}

/// The unread bytes that a decoder needs before the download is complete.
pub open spec fn lookahead() -> int {
    8 * max_frame_samples()
}

/// `minimp3_sys::MINIMP3_MAX_SAMPLES_PER_FRAME`: 1152 samples for each of two
/// channels.
#[verifier::external_body]
fn max_samples_per_frame() -> (count: usize)
    ensures
        count == max_frame_samples(),
{
    minimp3_sys::MINIMP3_MAX_SAMPLES_PER_FRAME as usize
}

/// What to do next about the bytes that have arrived.
#[derive(Debug, Clone, Copy, PartialEq, Eq, Structural)]
pub enum DecodeAction {
    /// Decode a frame from the bytes that start here.
    Decode(usize),
    /// Wait to hear of the download again.
    Wait,
}

/// What the decoder said of a frame.
#[derive(Debug, Clone, Copy, PartialEq, Eq, Structural)]
pub struct Frame {
    /// Samples of each channel; none where no frame was found.
    pub samples: i32,
    /// Channels of the frame.
    pub channels: i32,
    /// Bytes that the frame, and what was skipped before it, took up.
    pub frame_bytes: i32,
}

/// A frame with more channels than the output has.
#[derive(Debug, Clone, Copy, PartialEq, Eq, Structural)]
pub struct TooManyChannels;

/// What to send on after a frame, and what to do next.
pub struct Decoded {
    /// The frame's samples, interleaved stereo.
    pub pcm: Option<Vec<i16>>,
    /// The next step.
    pub next: DecodeAction,
}

/// The next step when `offset` of `available` bytes have been read.
pub open spec fn next_action(offset: int, available: int, finished: bool) -> DecodeAction {
    if available - offset >= lookahead() || finished {
        DecodeAction::Decode(offset as usize)
    } else {
        DecodeAction::Wait
    }
}

/// The bytes read once a frame that took `frame_bytes` has been dealt with. A
/// finished stream that was at its end stays there.
pub open spec fn next_offset(
    offset: int,
    available: int,
    finished: bool,
    frame_bytes: int,
) -> int {
    if finished && offset >= available {
        offset
    } else {
        offset + frame_bytes
    }
}

/// The next step once a frame that took `frame_bytes` has been dealt with.
pub open spec fn action_after_frame(
    offset: int,
    available: int,
    finished: bool,
    frame_bytes: int,
) -> DecodeAction {
    if finished && offset >= available {
        DecodeAction::Wait
    } else {
        next_action(offset + frame_bytes, available, finished)
    }
}

/// That the decoder's samples `pcm` can be read as `frame` says.
pub open spec fn frame_fits(pcm: Seq<i16>, frame: Frame) -> bool {
    frame.samples > 0 ==> {
        &&& frame.channels == 1 ==> frame.samples <= pcm.len()
        &&& frame.channels == 2 ==> 2 * frame.samples <= pcm.len()
    }
}

/// That a frame has samples on other than one or two channels.
pub open spec fn refused(frame: Frame) -> bool {
    frame.samples > 0 && frame.channels != 1 && frame.channels != 2
}

/// The stereo samples of a frame that was decoded to `pcm`.
pub open spec fn stereo_samples(pcm: Seq<i16>, frame: Frame) -> Option<Seq<i16>> {
    if frame.samples <= 0 {
        None
    } else if frame.channels == 1 {
        Some(crate::pcm::doubled(pcm.take(frame.samples as int)))
    } else {
        Some(pcm.take(2 * frame.samples))
    }
}

/// How far a stream has been decoded.
pub struct Decoding {
    offset: usize,
}

impl Decoding {
    /// The bytes that have been read.
    pub closed spec fn view(&self) -> nat {
        self.offset as nat
    }

    /// A stream of which nothing has been read.
    pub fn new() -> (decoding: Decoding)
        ensures
            decoding@ == 0,
    {
        Decoding { offset: 0 }
    }

    /// The bytes that have been read.
    pub fn offset(&self) -> (offset: usize)
        ensures
            offset == self@,
    {
        self.offset
    }

    /// The next step when `available` bytes have arrived, which are all of them
    /// if `finished`.
    pub fn on_notice(&self, available: usize, finished: bool) -> (action: DecodeAction)
        requires
            self@ <= available,
        ensures
            action == next_action(self@ as int, available as int, finished),
            action is Wait <==> !finished && available - self@ < 18432,
            action matches DecodeAction::Decode(from) ==> from == self@,
    {
        if available - self.offset >= max_samples_per_frame() * 8 || finished {
            DecodeAction::Decode(self.offset)
        } else {
            DecodeAction::Wait
        }
    }

    /// Moves past a frame that was decoded to `pcm`, and says what to send on
    /// and what to do next. A frame of other than one or two channels is refused
    /// and not moved past.
    pub fn on_frame(&mut self, pcm: &[i16], frame: Frame, available: usize, finished: bool)
        -> (result: Result<Decoded, TooManyChannels>)
        requires
            old(self)@ <= available,
            frame_fits(pcm@, frame),
            refused(frame) || (finished && old(self)@ == available) || 0 <= frame.frame_bytes
                <= available - old(self)@,
        ensures
            result is Err <==> refused(frame),
            result is Err <==> frame.samples > 0 && frame.channels != 1 && frame.channels != 2,
            result is Err ==> final(self)@ == old(self)@,
            result matches Ok(decoded) ==> {
                &&& final(self)@ == old(self)@ + if finished && old(self)@ == available {
                    0
                } else {
                    frame.frame_bytes as int
                }
                &&& decoded.next is Wait <==> if finished {
                    old(self)@ == available
                } else {
                    available - final(self)@ < 18432
                }
                &&& decoded.next matches DecodeAction::Decode(from) ==> from == final(self)@
                &&& decoded.pcm is Some <==> frame.samples > 0
            },
            result matches Ok(decoded) ==> (decoded.pcm matches Some(sent) ==> {
                &&& sent@.len() == 2 * frame.samples
                &&& frame.channels == 2 ==> forall|i: int|
                    0 <= i < 2 * frame.samples ==> #[trigger] sent@[i] == pcm@[i]
                &&& frame.channels == 1 ==> forall|i: int|
                    #![trigger pcm@[i]]
                    0 <= i < frame.samples ==> sent@[2 * i] == pcm@[i] && sent@[2 * i + 1]
                        == pcm@[i]
            }),
            result matches Ok(decoded) ==> {
                &&& final(self)@ == next_offset(
                    old(self)@ as int,
                    available as int,
                    finished,
                    frame.frame_bytes as int,
                )
                &&& decoded.next == action_after_frame(
                    old(self)@ as int,
                    available as int,
                    finished,
                    frame.frame_bytes as int,
                )
                &&& decoded.pcm is Some <==> frame.samples > 0
                &&& decoded.pcm matches Some(stereo) ==> stereo_samples(pcm@, frame) == Some(
                    stereo@,
                )
            },
    {
        let mut stereo: Option<Vec<i16>> = None;
        if frame.samples > 0 {
            let samples: usize = frame.samples as usize;
            if frame.channels == 1 {
                let mono = vstd::slice::slice_subrange(pcm, 0, samples);
                assert forall|i: int| #![trigger pcm@[i]] 0 <= i < samples implies mono@[i]
                    == pcm@[i] by {
                }
                stereo = Some(mono_to_stereo(mono));
            } else if frame.channels == 2 {
                let both = vstd::slice::slice_subrange(pcm, 0, samples * 2);
                stereo = Some(vstd::slice::slice_to_vec(both));
            } else {
                return Err(TooManyChannels);
            }
        }
        if finished && self.offset >= available {
            return Ok(Decoded { pcm: stereo, next: DecodeAction::Wait });
        }
        self.offset = self.offset + frame.frame_bytes as usize;
        let next = self.on_notice(available, finished);
        Ok(Decoded { pcm: stereo, next })
    }
}

/// What is sent on is never empty and always whole frames of the output.
pub proof fn whole_frames_sent_on(pcm: Seq<i16>, frame: Frame)
    requires
        frame_fits(pcm, frame),
        !refused(frame),
    ensures
        stereo_samples(pcm, frame) matches Some(stereo) ==> stereo.len() == frame.samples
            * CHANNELS && stereo.len() > 0,
{
}

/// The bytes read after `frames`, given as the bytes that each took, from
/// `offset` on.
pub open spec fn offset_after(
    offset: int,
    available: int,
    finished: bool,
    frames: Seq<int>,
) -> int
    decreases frames.len(),
{
    if frames.len() == 0 {
        offset
    } else {
        next_offset(
            offset_after(offset, available, finished, frames.drop_last()),
            available,
            finished,
            frames.last(),
        )
    }
}

/// The step that follows `frames`.
pub open spec fn action_after(
    offset: int,
    available: int,
    finished: bool,
    frames: Seq<int>,
) -> DecodeAction {
    if frames.len() == 0 {
        next_action(offset, available, finished)
    } else {
        action_after_frame(
            offset_after(offset, available, finished, frames.drop_last()),
            available,
            finished,
            frames.last(),
        )
    }
}

/// That each of `frames` was asked for and lay in what was unread.
pub open spec fn frames_asked_for(
    offset: int,
    available: int,
    finished: bool,
    frames: Seq<int>,
) -> bool
    decreases frames.len(),
{
    frames.len() > 0 ==> {
        let earlier = frames.drop_last();
        let position = offset_after(offset, available, finished, earlier);
        &&& frames_asked_for(offset, available, finished, earlier)
        &&& action_after(offset, available, finished, earlier) is Decode
        &&& 0 <= frames.last() <= available - position
    }
}

/// The bytes of all `frames`.
pub open spec fn total(frames: Seq<int>) -> int
    decreases frames.len(),
{
    if frames.len() == 0 {
        0
    } else {
        total(frames.drop_last()) + frames.last()
    }
}

/// A stream is read front to back and each byte once: every frame is decoded
/// from where the frames before it ended. Decoding never runs past what has
/// arrived; it pauses only with less than the lookahead unread, and once the
/// download is complete it stops exactly at the end.
pub proof fn stream_read_once(offset: int, available: int, finished: bool, frames: Seq<int>)
    requires
        0 <= offset <= available <= usize::MAX,
        frames_asked_for(offset, available, finished, frames),
    ensures
        offset <= offset_after(offset, available, finished, frames) <= available,
        offset_after(offset, available, finished, frames) == offset + total(frames),
        match action_after(offset, available, finished, frames) {
            DecodeAction::Decode(from) => {
                &&& from == offset_after(offset, available, finished, frames)
                &&& finished || available - from >= lookahead()
            },
            DecodeAction::Wait => {
                let reached = offset_after(offset, available, finished, frames);
                if finished {
                    reached == available
                } else {
                    available - reached < lookahead()
                }
            },
        },
    decreases frames.len(),
{
    if frames.len() > 0 {
        stream_read_once(offset, available, finished, frames.drop_last());
    }
}

/// A notice of the download, and the bytes that each frame took which was decoded
/// on it.
pub struct Notice {
    pub available: int,
    pub finished: bool,
    pub frames: Seq<int>,
}

/// The bytes read after `notices`, from the start of the stream on.
pub open spec fn offset_after_notices(notices: Seq<Notice>) -> int
    decreases notices.len(),
{
    if notices.len() == 0 {
        0
    } else {
        let last = notices.last();
        offset_after(
            offset_after_notices(notices.drop_last()),
            last.available,
            last.finished,
            last.frames,
        )
    }
}

/// The bytes of all frames decoded on `notices`.
pub open spec fn total_of_notices(notices: Seq<Notice>) -> int
    decreases notices.len(),
{
    if notices.len() == 0 {
        0
    } else {
        total_of_notices(notices.drop_last()) + total(notices.last().frames)
    }
}

/// That the download only grew, and that on each notice frames were decoded as
/// asked for until there was nothing to do but to wait.
pub open spec fn notices_handled(notices: Seq<Notice>) -> bool
    decreases notices.len(),
{
    notices.len() > 0 ==> {
        let earlier = notices.drop_last();
        let last = notices.last();
        let offset = offset_after_notices(earlier);
        &&& notices_handled(earlier)
        &&& 0 <= last.available <= usize::MAX
        &&& earlier.len() > 0 ==> earlier.last().available <= last.available
        &&& frames_asked_for(offset, last.available, last.finished, last.frames)
        &&& action_after(offset, last.available, last.finished, last.frames) is Wait
    }
}

/// However the download is cut up, its bytes are decoded front to back and each
/// once, and when it is complete all of them have been.
pub proof fn download_decoded_once(notices: Seq<Notice>)
    requires
        notices_handled(notices),
        notices.len() > 0,
    ensures
        0 <= offset_after_notices(notices) <= notices.last().available,
        offset_after_notices(notices) == total_of_notices(notices),
        notices.last().finished ==> offset_after_notices(notices) == notices.last().available,
        !notices.last().finished ==> notices.last().available - offset_after_notices(notices)
            < lookahead(),
    decreases notices.len(),
{
    let earlier = notices.drop_last();
    let last = notices.last();
    if earlier.len() > 0 {
        download_decoded_once(earlier);
    } else {
        assert(total_of_notices(earlier) == 0);
    }
    stream_read_once(
        offset_after_notices(earlier),
        last.available,
        last.finished,
        last.frames,
    );
}

/// That each of `frames` took at least a byte while any was unread.
pub open spec fn frames_advance(
    offset: int,
    available: int,
    finished: bool,
    frames: Seq<int>,
) -> bool
    decreases frames.len(),
{
    frames.len() > 0 ==> {
        let earlier = frames.drop_last();
        &&& frames_advance(offset, available, finished, earlier)
        &&& offset_after(offset, available, finished, earlier) < available ==> frames.last() > 0
    }
}

/// Where every frame takes at least a byte of what is unread, decoding comes to
/// its end: it asks for one frame more than there are unread bytes at most.
pub proof fn decoding_ends(offset: int, available: int, finished: bool, frames: Seq<int>)
    requires
        0 <= offset <= available <= usize::MAX,
        frames_asked_for(offset, available, finished, frames),
        frames_advance(offset, available, finished, frames),
    ensures
        frames.len() <= available - offset + 1,
{
    decoding_bound(offset, available, finished, frames);
    stream_read_once(offset, available, finished, frames);
}

/// Each frame that decoding goes on from has moved it by a byte at least.
proof fn decoding_bound(offset: int, available: int, finished: bool, frames: Seq<int>)
    requires
        0 <= offset <= available <= usize::MAX,
        frames_asked_for(offset, available, finished, frames),
        frames_advance(offset, available, finished, frames),
    ensures
        action_after(offset, available, finished, frames) is Decode ==> frames.len()
            <= offset_after(offset, available, finished, frames) - offset,
        frames.len() <= offset_after(offset, available, finished, frames) - offset + 1,
    decreases frames.len(),
{
    stream_read_once(offset, available, finished, frames);
    if frames.len() > 0 {
        decoding_bound(offset, available, finished, frames.drop_last());
        stream_read_once(offset, available, finished, frames.drop_last());
    }
}

/// What the decoder answers to a request for a frame.
pub struct Answer {
    pub pcm: Seq<i16>,
    pub frame: Frame,
}

/// A decoder: from its state and the unread bytes to its next state and its
/// answer.
pub type Decoder<D> = spec_fn(D, Seq<u8>) -> (D, Answer);

/// How far a stream has been decoded with a decoder whose state is of type `D`.
pub struct Progress<D> {
    /// The decoder's state.
    pub decoder: D,
    /// The bytes that have been read.
    pub offset: int,
    /// What has been sent on, frame by frame.
    pub sent: Seq<Seq<i16>>,
    /// Whether the next step is to decode a frame.
    pub asking: bool,
    /// Whether a frame was refused, which ends the decoding.
    pub failed: bool,
}

/// A notice of the download: the bytes that have arrived when it is handled,
/// whether they are all, and how many frames are asked for before the next step
/// is to wait.
pub struct Heard {
    pub data: Seq<u8>,
    pub finished: bool,
    pub frames: nat,
}

/// That with the lookahead unread the decoder's answer does not depend on what
/// follows.
pub open spec fn lookahead_decides<D>(decoder: Decoder<D>) -> bool {
    forall|state: D, unread: Seq<u8>, more: Seq<u8>|
        #![trigger decoder(state, unread), decoder(state, more)]
        unread.len() >= lookahead() && more.len() >= lookahead() && unread.take(lookahead())
            == more.take(lookahead()) ==> decoder(state, unread) == decoder(state, more)
}

/// That the decoder finds no frame where nothing is unread.
pub open spec fn silent_at_end<D>(decoder: Decoder<D>) -> bool {
    forall|state: D| (#[trigger] decoder(state, Seq::empty())).1.frame.samples <= 0
}

/// The decoder's next state and answer when it is asked for a frame.
pub open spec fn asked<D>(decoder: Decoder<D>, progress: Progress<D>, heard: Heard) -> (
    D,
    Answer,
) {
    decoder(progress.decoder, heard.data.skip(progress.offset))
}

/// The decoding when a notice comes in: the next step is what
/// `Decoding::on_notice` gives.
pub open spec fn at_notice<D>(progress: Progress<D>, heard: Heard) -> Progress<D> {
    Progress {
        asking: !progress.failed && next_action(
            progress.offset,
            heard.data.len() as int,
            heard.finished,
        ) is Decode,
        ..progress
    }
}

/// The decoding after a frame has been asked for, and been dealt with as
/// `Decoding::on_frame` does.
pub open spec fn after_answer<D>(
    decoder: Decoder<D>,
    progress: Progress<D>,
    heard: Heard,
) -> Progress<D> {
    let (state, answer) = asked(decoder, progress, heard);
    let available = heard.data.len() as int;
    let frame_bytes = answer.frame.frame_bytes as int;
    if refused(answer.frame) {
        Progress { decoder: state, asking: false, failed: true, ..progress }
    } else {
        Progress {
            decoder: state,
            offset: next_offset(progress.offset, available, heard.finished, frame_bytes),
            sent: match stereo_samples(answer.pcm, answer.frame) {
                Some(stereo) => progress.sent.push(stereo),
                None => progress.sent,
            },
            asking: action_after_frame(
                progress.offset,
                available,
                heard.finished,
                frame_bytes,
            ) is Decode,
            failed: false,
        }
    }
}

/// The decoding after `frames` frames have been asked for on a notice.
pub open spec fn after_frames<D>(
    decoder: Decoder<D>,
    progress: Progress<D>,
    heard: Heard,
    frames: nat,
) -> Progress<D>
    decreases frames,
{
    if frames == 0 {
        progress
    } else {
        after_answer(
            decoder,
            after_frames(decoder, progress, heard, (frames - 1) as nat),
            heard,
        )
    }
}

/// That the decoder's answer lies in what is unread, as `Decoding::on_frame`
/// requires.
pub open spec fn answer_fits<D>(
    decoder: Decoder<D>,
    progress: Progress<D>,
    heard: Heard,
) -> bool {
    let frame = asked(decoder, progress, heard).1.frame;
    let available = heard.data.len() as int;
    refused(frame) || (heard.finished && progress.offset == available) || 0
        <= frame.frame_bytes <= available - progress.offset
}

/// That `frames` frames can be asked for on a notice: each was the next step, and
/// each answer lay in what was unread.
pub open spec fn frames_fit<D>(
    decoder: Decoder<D>,
    progress: Progress<D>,
    heard: Heard,
    frames: nat,
) -> bool {
    forall|k: nat|
        k < frames ==> {
            let reached = #[trigger] after_frames(decoder, progress, heard, k);
            reached.asking && answer_fits(decoder, reached, heard)
        }
}

/// The decoding after a notice has been handled.
pub open spec fn after_notice<D>(
    decoder: Decoder<D>,
    progress: Progress<D>,
    heard: Heard,
) -> Progress<D> {
    after_frames(decoder, at_notice(progress, heard), heard, heard.frames)
}

/// That a notice is handled as it should be: as many frames are asked for as the
/// steps say, until the next step is to wait.
pub open spec fn handled<D>(decoder: Decoder<D>, progress: Progress<D>, heard: Heard) -> bool {
    &&& frames_fit(decoder, at_notice(progress, heard), heard, heard.frames)
    &&& !after_notice(decoder, progress, heard).asking
}

/// The decoding after `notices` have been handled, one after the other.
pub open spec fn after_notices<D>(
    decoder: Decoder<D>,
    progress: Progress<D>,
    notices: Seq<Heard>,
) -> Progress<D>
    decreases notices.len(),
{
    if notices.len() == 0 {
        progress
    } else {
        after_notice(
            decoder,
            after_notices(decoder, progress, notices.drop_last()),
            notices.last(),
        )
    }
}

/// That each of `notices` is handled as it should be.
pub open spec fn all_handled<D>(
    decoder: Decoder<D>,
    progress: Progress<D>,
    notices: Seq<Heard>,
) -> bool
    decreases notices.len(),
{
    notices.len() > 0 ==> {
        let earlier = notices.drop_last();
        &&& all_handled(decoder, progress, earlier)
        &&& handled(decoder, after_notices(decoder, progress, earlier), notices.last())
    }
}

/// The frames that are asked for on all of `notices`.
pub open spec fn frames_asked(notices: Seq<Heard>) -> nat
    decreases notices.len(),
{
    if notices.len() == 0 {
        0
    } else {
        frames_asked(notices.drop_last()) + notices.last().frames
    }
}

/// A stream of which nothing has been decoded.
pub open spec fn fresh<D>(state: D) -> Progress<D> {
    Progress { decoder: state, offset: 0, sent: Seq::empty(), asking: false, failed: false }
}

/// The finished notice of `data` on which `frames` frames are asked for.
pub open spec fn finished_notice(data: Seq<u8>, frames: nat) -> Heard {
    Heard { data, finished: true, frames }
}

/// That `early` are notices of an unfinished download that grows to `data`.
pub open spec fn grows_to(early: Seq<Heard>, data: Seq<u8>) -> bool {
    &&& forall|i: int|
        #![trigger early[i]]
        0 <= i < early.len() ==> !early[i].finished && early[i].data.is_prefix_of(data)
    &&& forall|i: int, j: int|
        #![trigger early[i], early[j]]
        0 <= i <= j < early.len() ==> early[i].data.len() <= early[j].data.len()
}

/// What a notice does depends on its data and on how many frames are asked for
/// on it, and there is one such number only: decoding is determined.
pub proof fn handling_determined<D>(
    decoder: Decoder<D>,
    progress: Progress<D>,
    heard1: Heard,
    heard2: Heard,
)
    requires
        heard1.data == heard2.data,
        heard1.finished == heard2.finished,
        handled(decoder, progress, heard1),
        handled(decoder, progress, heard2),
    ensures
        heard1 == heard2,
{
    same_frames(decoder, at_notice(progress, heard1), heard1, heard2, heard1.frames);
    same_frames(decoder, at_notice(progress, heard1), heard1, heard2, heard2.frames);
    let start = at_notice(progress, heard1);
    if heard1.frames < heard2.frames {
        assert(after_frames(decoder, start, heard2, heard1.frames).asking);
    } else if heard2.frames < heard1.frames {
        assert(after_frames(decoder, start, heard1, heard2.frames).asking);
    }
}

/// The frames that a notice is to have asked for do not change what each does.
proof fn same_frames<D>(
    decoder: Decoder<D>,
    progress: Progress<D>,
    heard1: Heard,
    heard2: Heard,
    frames: nat,
)
    requires
        heard1.data == heard2.data,
        heard1.finished == heard2.finished,
    ensures
        after_frames(decoder, progress, heard1, frames) == after_frames(
            decoder,
            progress,
            heard2,
            frames,
        ),
    decreases frames,
{
    if frames > 0 {
        same_frames(decoder, progress, heard1, heard2, (frames - 1) as nat);
    }
}

/// Asking for frames and then for more is asking for all of them.
proof fn frames_add<D>(
    decoder: Decoder<D>,
    progress: Progress<D>,
    heard: Heard,
    first: nat,
    second: nat,
)
    ensures
        after_frames(decoder, progress, heard, first + second) == after_frames(
            decoder,
            after_frames(decoder, progress, heard, first),
            heard,
            second,
        ),
    decreases second,
{
    if second > 0 {
        frames_add(decoder, progress, heard, first, (second - 1) as nat);
        assert((first + second - 1) as nat == first + (second - 1) as nat);
    }
}

/// Frames that are asked for keep the bytes read within those that have arrived.
proof fn frames_within_data<D>(
    decoder: Decoder<D>,
    progress: Progress<D>,
    heard: Heard,
    frames: nat,
)
    requires
        0 <= progress.offset <= heard.data.len(),
        frames_fit(decoder, progress, heard, frames),
    ensures
        0 <= after_frames(decoder, progress, heard, frames).offset <= heard.data.len(),
    decreases frames,
{
    if frames > 0 {
        let earlier = (frames - 1) as nat;
        frames_within_data(decoder, progress, heard, earlier);
        let reached = after_frames(decoder, progress, heard, earlier);
        assert(reached.asking && answer_fits(decoder, reached, heard));
    }
}

/// A finished notice that has been handled has all bytes read, unless a frame was
/// refused.
proof fn finished_at_end<D>(decoder: Decoder<D>, progress: Progress<D>, heard: Heard)
    requires
        heard.finished,
        0 <= progress.offset <= heard.data.len(),
        handled(decoder, progress, heard),
    ensures
        after_notice(decoder, progress, heard).failed || after_notice(
            decoder,
            progress,
            heard,
        ).offset == heard.data.len(),
{
    let start = at_notice(progress, heard);
    if heard.frames > 0 {
        let earlier = (heard.frames - 1) as nat;
        assert forall|k: nat| k < earlier implies {
            let reached = #[trigger] after_frames(decoder, start, heard, k);
            reached.asking && answer_fits(decoder, reached, heard)
        } by {
        }
        frames_within_data(decoder, start, heard, earlier);
    }
}

/// The frames decoded on an early notice are those that a finished notice of all
/// the data has decoded first.
proof fn early_frames<D>(
    decoder: Decoder<D>,
    progress: Progress<D>,
    early: Heard,
    last: Heard,
    frames: nat,
)
    requires
        early.data == last.data || lookahead_decides(decoder),
        early.data.is_prefix_of(last.data),
        !early.finished,
        last.finished,
        0 <= progress.offset <= early.data.len(),
        frames_fit(decoder, at_notice(progress, early), early, frames),
    ensures
        frames_fit(decoder, at_notice(progress, last), last, frames),
        after_frames(decoder, at_notice(progress, last), last, frames) == at_notice(
            after_frames(decoder, at_notice(progress, early), early, frames),
            last,
        ),
        at_notice(
            after_frames(decoder, at_notice(progress, early), early, frames),
            early,
        ) == after_frames(decoder, at_notice(progress, early), early, frames),
    decreases frames,
{
    let first = at_notice(progress, early);
    let whole = at_notice(progress, last);
    if frames > 0 {
        let earlier = (frames - 1) as nat;
        assert forall|k: nat| k < earlier implies {
            let reached = #[trigger] after_frames(decoder, first, early, k);
            reached.asking && answer_fits(decoder, reached, early)
        } by {
        }
        early_frames(decoder, progress, early, last, earlier);
        frames_within_data(decoder, first, early, earlier);
        let reached = after_frames(decoder, first, early, earlier);
        assert(reached.asking && answer_fits(decoder, reached, early));
        let same = after_frames(decoder, whole, last, earlier);
        assert(same == at_notice(reached, last));
        let unread = early.data.skip(reached.offset);
        let more = last.data.skip(reached.offset);
        assert(unread.take(lookahead()) == more.take(lookahead()));
        assert(asked(decoder, reached, early) == asked(decoder, same, last));
        assert(same.asking && answer_fits(decoder, same, last));
        assert forall|k: nat| k < frames implies {
            let reached = #[trigger] after_frames(decoder, whole, last, k);
            reached.asking && answer_fits(decoder, reached, last)
        } by {
            if k < earlier {
                let reached = after_frames(decoder, whole, last, k);
                assert(reached.asking && answer_fits(decoder, reached, last));
            }
        }
    }
}

/// Early notices and then frames of the finished one are as many frames of the
/// finished one alone.
proof fn early_notices_frames<D>(
    decoder: Decoder<D>,
    progress: Progress<D>,
    early: Seq<Heard>,
    last: Heard,
)
    requires
        lookahead_decides(decoder) || forall|i: int|
            0 <= i < early.len() ==> (#[trigger] early[i]).data == last.data,
        grows_to(early, last.data),
        last.finished,
        progress.offset == 0,
        all_handled(decoder, progress, early),
    ensures
        0 <= after_notices(decoder, progress, early).offset <= last.data.len(),
        early.len() == 0 ==> after_notices(decoder, progress, early).offset == 0,
        early.len() > 0 ==> after_notices(decoder, progress, early).offset
            <= early.last().data.len(),
        frames_fit(decoder, at_notice(progress, last), last, frames_asked(early)),
        after_frames(decoder, at_notice(progress, last), last, frames_asked(early)) == at_notice(
            after_notices(decoder, progress, early),
            last,
        ),
    decreases early.len(),
{
    if early.len() > 0 {
        let before = early.drop_last();
        let heard = early[early.len() - 1];
        assert forall|i: int| 0 <= i < before.len() implies #[trigger] before[i] == early[i] by {
        }
        assert(grows_to(before, last.data));
        early_notices_frames(decoder, progress, before, last);
        if before.len() > 0 {
            assert(before.last() == early[early.len() - 2]);
        }
        let reached = after_notices(decoder, progress, before);
        early_frames(decoder, reached, heard, last, heard.frames);
        frames_within_data(decoder, at_notice(reached, heard), heard, heard.frames);
        let start = at_notice(progress, last);
        let asked_before = frames_asked(before);
        frames_add(decoder, start, last, asked_before, heard.frames);
        frames_fit_add(decoder, start, last, asked_before, heard.frames);
    }
}

/// Frames that fit, and then more that fit, all fit.
proof fn frames_fit_add<D>(
    decoder: Decoder<D>,
    progress: Progress<D>,
    heard: Heard,
    first: nat,
    second: nat,
)
    requires
        frames_fit(decoder, progress, heard, first),
        frames_fit(decoder, after_frames(decoder, progress, heard, first), heard, second),
    ensures
        frames_fit(decoder, progress, heard, first + second),
{
    assert forall|k: nat| k < first + second implies {
        let reached = #[trigger] after_frames(decoder, progress, heard, k);
        reached.asking && answer_fits(decoder, reached, heard)
    } by {
        if k >= first {
            let more = (k - first) as nat;
            frames_add(decoder, progress, heard, first, more);
            let reached = after_frames(
                decoder,
                after_frames(decoder, progress, heard, first),
                heard,
                more,
            );
            assert(reached.asking && answer_fits(decoder, reached, heard));
        }
    }
}

/// The finished notice after early ones has the same frames sent on, in all, as
/// the finished notice alone, on which the frames of all of them are asked for.
proof fn finished_notice_alone<D>(
    decoder: Decoder<D>,
    state: D,
    data: Seq<u8>,
    early: Seq<Heard>,
    frames: nat,
)
    requires
        lookahead_decides(decoder) || forall|i: int|
            0 <= i < early.len() ==> (#[trigger] early[i]).data == data,
        grows_to(early, data),
        all_handled(decoder, fresh(state), early.push(finished_notice(data, frames))),
    ensures
        handled(decoder, fresh(state), finished_notice(data, frames_asked(early) + frames)),
        after_notices(decoder, fresh(state), early.push(finished_notice(data, frames)))
            == after_notice(
            decoder,
            fresh(state),
            finished_notice(data, frames_asked(early) + frames),
        ),
        after_notices(decoder, fresh(state), early.push(finished_notice(data, frames))).failed
            || after_notices(
            decoder,
            fresh(state),
            early.push(finished_notice(data, frames)),
        ).offset == data.len(),
{
    let progress = fresh(state);
    let last = finished_notice(data, frames);
    let notices = early.push(last);
    let total = frames_asked(early) + frames;
    let alone = finished_notice(data, total);
    assert(notices.drop_last() == early);
    early_notices_frames(decoder, progress, early, last);
    let reached = after_notices(decoder, progress, early);
    finished_at_end(decoder, reached, last);
    let start = at_notice(progress, last);
    assert(start == at_notice(progress, alone));
    frames_add(decoder, start, last, frames_asked(early), frames);
    frames_fit_add(decoder, start, last, frames_asked(early), frames);
    same_frames(decoder, start, last, alone, total);
    assert forall|k: nat| k < total implies {
        let reached = #[trigger] after_frames(decoder, start, alone, k);
        reached.asking && answer_fits(decoder, reached, alone)
    } by {
        same_frames(decoder, start, last, alone, k);
        let reached = after_frames(decoder, start, last, k);
        assert(reached.asking && answer_fits(decoder, reached, last));
    }
}

/// Once all bytes have been read, or a frame was refused, a notice that is handled
/// has nothing more sent on.
proof fn nothing_after_the_end<D>(decoder: Decoder<D>, progress: Progress<D>, heard: Heard)
    requires
        silent_at_end(decoder),
        progress.failed || progress.offset == heard.data.len(),
        handled(decoder, progress, heard),
    ensures
        after_notice(decoder, progress, heard).sent == progress.sent,
        after_notice(decoder, progress, heard).failed || after_notice(
            decoder,
            progress,
            heard,
        ).offset == heard.data.len(),
{
    let start = at_notice(progress, heard);
    if heard.frames > 0 {
        assert(after_frames(decoder, start, heard, 0).asking);
        assert(heard.data.skip(start.offset) == Seq::<u8>::empty());
        let next = after_frames(decoder, start, heard, 1);
        assert(next == after_answer(decoder, after_frames(decoder, start, heard, 0), heard));
        assert(!next.asking);
        if heard.frames > 1 {
            assert(after_frames(decoder, start, heard, 1).asking);
        }
    }
}

/// Notices of a download that is complete and decoded have nothing sent on.
proof fn late_notices<D>(
    decoder: Decoder<D>,
    progress: Progress<D>,
    data: Seq<u8>,
    notices: Seq<Heard>,
    later: Seq<Heard>,
)
    requires
        silent_at_end(decoder),
        after_notices(decoder, progress, notices).failed || after_notices(
            decoder,
            progress,
            notices,
        ).offset == data.len(),
        forall|i: int| 0 <= i < later.len() ==> (#[trigger] later[i]).data == data,
        all_handled(decoder, progress, notices + later),
    ensures
        after_notices(decoder, progress, notices + later).sent == after_notices(
            decoder,
            progress,
            notices,
        ).sent,
        after_notices(decoder, progress, notices + later).failed || after_notices(
            decoder,
            progress,
            notices + later,
        ).offset == data.len(),
    decreases later.len(),
{
    if later.len() == 0 {
        assert(notices + later == notices);
    } else {
        let before = later.drop_last();
        assert forall|i: int| 0 <= i < before.len() implies (#[trigger] before[i]).data
            == data by {
            assert(before[i] == later[i]);
        }
        assert((notices + later).drop_last() == notices + before);
        assert(later[later.len() - 1].data == data);
        late_notices(decoder, progress, data, notices, before);
        nothing_after_the_end(
            decoder,
            after_notices(decoder, progress, notices + before),
            later.last(),
        );
    }
}

/// Early and late notices do not change which frames are decoded: of data that
/// stays as it is, any number of notices that it is not finished, then the one
/// that it is, and then any others, have the same frames sent on, in the same
/// order, as the finished notice alone. No frame is sent twice or left out. The
/// decoder has to find no frame where nothing is unread.
pub proof fn frames_sent_once<D>(
    decoder: Decoder<D>,
    state: D,
    data: Seq<u8>,
    early: Seq<Heard>,
    frames: nat,
    later: Seq<Heard>,
)
    requires
        silent_at_end(decoder),
        forall|i: int|
            #![trigger early[i]]
            0 <= i < early.len() ==> early[i].data == data && !early[i].finished,
        forall|i: int| 0 <= i < later.len() ==> (#[trigger] later[i]).data == data,
        all_handled(
            decoder,
            fresh(state),
            early.push(finished_notice(data, frames)) + later,
        ),
    ensures
        handled(decoder, fresh(state), finished_notice(data, frames_asked(early) + frames)),
        after_notices(
            decoder,
            fresh(state),
            early.push(finished_notice(data, frames)) + later,
        ).sent == after_notice(
            decoder,
            fresh(state),
            finished_notice(data, frames_asked(early) + frames),
        ).sent,
{
    let notices = early.push(finished_notice(data, frames));
    all_handled_prefix(decoder, fresh(state), notices, later);
    finished_notice_alone(decoder, state, data, early, frames);
    late_notices(decoder, fresh(state), data, notices, later);
}

/// Where all notices are handled, the first of them are.
proof fn all_handled_prefix<D>(
    decoder: Decoder<D>,
    progress: Progress<D>,
    notices: Seq<Heard>,
    later: Seq<Heard>,
)
    requires
        all_handled(decoder, progress, notices + later),
    ensures
        all_handled(decoder, progress, notices),
    decreases later.len(),
{
    if later.len() == 0 {
        assert(notices + later == notices);
    } else {
        assert((notices + later).drop_last() == notices + later.drop_last());
        all_handled_prefix(decoder, progress, notices, later.drop_last());
    }
}

/// That the decoder takes at least a byte of what is unread and no more than is
/// unread.
pub open spec fn takes_unread<D>(decoder: Decoder<D>) -> bool {
    forall|state: D, unread: Seq<u8>|
        unread.len() > 0 ==> 1 <= (#[trigger] decoder(state, unread)).1.frame.frame_bytes
            <= unread.len()
}

/// With a decoder that takes at least a byte of what is unread, every notice is
/// handled to its end: there is a number of frames to ask for, at most one more
/// than there are unread bytes.
pub proof fn handling_ends<D>(
    decoder: Decoder<D>,
    progress: Progress<D>,
    data: Seq<u8>,
    finished: bool,
) -> (frames: nat)
    requires
        takes_unread(decoder),
        0 <= progress.offset <= data.len(),
    ensures
        handled(decoder, progress, (Heard { data, finished, frames })),
        frames <= data.len() - progress.offset + 1,
{
    let heard = Heard { data, finished, frames: 0 };
    let start = at_notice(progress, heard);
    let frames = frames_to_the_end(decoder, start, heard);
    let counted = Heard { data, finished, frames };
    same_frames(decoder, start, heard, counted, frames);
    assert forall|k: nat| k < frames implies {
        let reached = #[trigger] after_frames(decoder, start, counted, k);
        reached.asking && answer_fits(decoder, reached, counted)
    } by {
        same_frames(decoder, start, heard, counted, k);
        let reached = after_frames(decoder, start, heard, k);
        assert(reached.asking && answer_fits(decoder, reached, heard));
    }
    frames
}

/// The frames to ask for until the next step is to wait.
proof fn frames_to_the_end<D>(decoder: Decoder<D>, progress: Progress<D>, heard: Heard) -> (frames:
    nat)
    requires
        takes_unread(decoder),
        0 <= progress.offset <= heard.data.len(),
        progress.asking ==> next_action(
            progress.offset,
            heard.data.len() as int,
            heard.finished,
        ) is Decode,
    ensures
        frames_fit(decoder, progress, heard, frames),
        !after_frames(decoder, progress, heard, frames).asking,
        frames <= heard.data.len() - progress.offset + 1,
    decreases heard.data.len() - progress.offset,
{
    if !progress.asking {
        0
    } else {
        assert(heard.data.skip(progress.offset).len() == heard.data.len() - progress.offset);
        let next = after_answer(decoder, progress, heard);
        assert(after_frames(decoder, progress, heard, 0) == progress);
        assert(after_frames(decoder, progress, heard, 1) == next);
        assert(frames_fit(decoder, progress, heard, 1));
        if !next.asking {
            1
        } else {
            let more = frames_to_the_end(decoder, next, heard);
            frames_add(decoder, progress, heard, 1, more);
            frames_fit_add(decoder, progress, heard, 1, more);
            1 + more
        }
    }
}

/// An answer that is played while it arrives and the kept copy of it that is
/// played again have the same frames sent on, in the same order, however much of
/// the answer had arrived when each notice was handled. The decoding of the copy
/// comes to its end where that of the stream does. This holds of every decoder
/// whose answer is settled by the lookahead.
pub proof fn replay_sends_the_same<D>(
    decoder: Decoder<D>,
    state: D,
    answer: Seq<u8>,
    early: Seq<Heard>,
    frames: nat,
)
    requires
        lookahead_decides(decoder),
        grows_to(early, answer),
        all_handled(decoder, fresh(state), early.push(finished_notice(answer, frames))),
    ensures
        handled(decoder, fresh(state), finished_notice(answer, frames_asked(early) + frames)),
        after_notices(
            decoder,
            fresh(state),
            early.push(finished_notice(answer, frames)),
        ).sent == after_notice(
            decoder,
            fresh(state),
            finished_notice(answer, frames_asked(early) + frames),
        ).sent,
{
    finished_notice_alone(decoder, state, answer, early, frames);
}

/// A stereo frame is sent on as the decoder gave it, sample by sample and whole,
/// however long it is.
pub proof fn stereo_frame_unchanged(pcm: Seq<i16>, frame: Frame)
    requires
        frame.samples > 0,
        frame.channels == 2,
        2 * frame.samples <= pcm.len(),
    ensures
        stereo_samples(pcm, frame) matches Some(sent) && sent.len() == 2 * frame.samples && (
        forall|i: int| 0 <= i < 2 * frame.samples ==> #[trigger] sent[i] == pcm[i]),
{
}

/// Of a mono frame each sample is sent on twice, for the left and for the right,
/// however long it is.
pub proof fn mono_frame_on_both_sides(pcm: Seq<i16>, frame: Frame)
    requires
        frame.samples > 0,
        frame.channels == 1,
        frame.samples <= pcm.len(),
    ensures
        stereo_samples(pcm, frame) matches Some(sent) && sent.len() == 2 * frame.samples && (
        forall|i: int|
            #![trigger pcm[i]]
            0 <= i < frame.samples ==> sent[2 * i] == pcm[i] && sent[2 * i + 1] == pcm[i]),
{
    assert forall|i: int| #![trigger pcm[i]] 0 <= i < frame.samples implies pcm.take(
        frame.samples as int,
    )[i] == pcm[i] by {
    }
}

/// Where the decoder found no samples nothing is sent on, and only then.
pub proof fn nothing_found_nothing_sent(pcm: Seq<i16>, frame: Frame)
    ensures
        stereo_samples(pcm, frame) is None <==> frame.samples <= 0,
{
}

/// A frame is taken exactly when it has no samples or one or two channels, and it
/// can be read exactly when the decoder's buffer holds the samples of all its
/// channels. Of one that is refused nothing is read.
pub proof fn frames_taken(pcm: Seq<i16>, frame: Frame)
    ensures
        !refused(frame) <==> frame.samples <= 0 || frame.channels == 1 || frame.channels == 2,
        refused(frame) ==> frame_fits(pcm, frame),
        !refused(frame) ==> (frame_fits(pcm, frame) <==> frame.samples <= 0 || frame.samples
            * frame.channels <= pcm.len()),
{
    if !refused(frame) && frame.samples > 0 {
        if frame.channels == 1 {
            assert(frame.samples * frame.channels == frame.samples) by (nonlinear_arith)
                requires
                    frame.channels == 1,
            ;
        } else {
            assert(frame.samples * frame.channels == 2 * frame.samples) by (nonlinear_arith)
                requires
                    frame.channels == 2,
            ;
        }
    }
}

/// Before the download is complete decoding waits exactly while fewer than 18432
/// bytes are unread; after that it goes on until a frame was asked for with
/// nothing unread. It goes on from the byte after the last one read.
pub proof fn steps_of_decoding(offset: int, available: int, finished: bool, frame_bytes: int)
    requires
        0 <= offset <= available <= usize::MAX,
        (finished && offset == available) || 0 <= frame_bytes <= available - offset,
    ensures
        next_action(offset, available, finished) is Wait <==> !finished && available - offset
            < 18432,
        next_action(offset, available, finished) matches DecodeAction::Decode(from) ==> from
            == offset,
        next_offset(offset, available, finished, frame_bytes) == if finished && offset == available {
            offset
        } else {
            offset + frame_bytes
        },
        action_after_frame(offset, available, finished, frame_bytes) is Wait <==> if finished {
            offset == available
        } else {
            available - (offset + frame_bytes) < 18432
        },
        action_after_frame(offset, available, finished, frame_bytes) matches DecodeAction::Decode(
            from,
        ) ==> from == offset + frame_bytes,
        lookahead() == 18432,
{
}

} // verus!
