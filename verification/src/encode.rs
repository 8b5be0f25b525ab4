//! Encoding a recording to MP3: the room it needs and what the encoder's return
//! codes mean.

use crate::audio::CHANNELS;
use vstd::prelude::*;

verus! {

/// The bytes that LAME's documentation allows for at worst, five for every four
/// samples and 7200 more, for `samples` samples over all channels.
pub open spec fn worst_case_size(samples: int) -> int {
    samples * 5 / 4 + 7200
}

/// The frames that the encoder is told of for `samples` samples over all
/// channels, in 32 bits as it counts them.
pub open spec fn frames_of(samples: int) -> i32 {
    (samples / CHANNELS as int) as i32
}

/// The bytes written once the encoder has returned `code`: so many more, or none
/// where the code is negative.
pub open spec fn written_after(written: int, code: i32) -> int {
    if code < 0 {
        written
    } else {
        written + code
    }
}

/// What can go wrong while encoding.
#[derive(Debug, Clone, Copy, PartialEq, Eq, Structural)]
pub enum EncodeError {
    /// The encoder refused its parameters.
    Init,
    /// Encoding failed with this code.
    Encode(i32),
    /// Writing out what the encoder held back failed with this code.
    Flush(i32),
}

/// An encoding under way: the size of the output buffer and how much of it
/// holds MP3 data.
pub struct Encoding {
    capacity: usize,
    written: usize,
}

/// The frames of a recording of `samples` samples over all channels, in 32 bits
/// as the encoder counts them.
pub fn frame_count(samples: usize) -> (frames: i32)
    ensures
        frames == frames_of(samples as int),
        samples / 2 <= i32::MAX ==> frames == samples / 2,
        (samples / 2 - frames) % 0x1_0000_0000 == 0,
{
    proof {
        frames_wrap(samples as u64);
    }
    (samples / CHANNELS as usize) as i32
}

/// Reads the code that setting up the encoder returned.
pub fn check_init(code: i32) -> (result: Result<(), EncodeError>)
    ensures
        result == if code < 0 {
            Err::<(), EncodeError>(EncodeError::Init)
        } else {
            Ok(())
        },
{
    if code < 0 {
        Err(EncodeError::Init)
    } else {
        Ok(())
    }
}

impl Encoding {
    /// What has been written fits the buffer.
    pub closed spec fn wf(&self) -> bool {
        self.written <= self.capacity
    }

    /// The size of the output buffer.
    pub closed spec fn spec_capacity(&self) -> int {
        self.capacity as int
    }

    /// The bytes of MP3 data at the start of the output buffer.
    pub closed spec fn spec_written(&self) -> int {
        self.written as int
    }

    /// Room for the encoding of `samples` samples, with nothing written.
    pub fn new(samples: usize) -> (encoding: Encoding)
        requires
            worst_case_size(samples as int) <= usize::MAX,
        ensures
            encoding.wf(),
            encoding.spec_capacity() == worst_case_size(samples as int),
            encoding.spec_capacity() == samples + samples / 4 + 7200,
            encoding.spec_written() == 0,
    {
        Encoding { capacity: samples + samples / 4 + 7200, written: 0 }
    }

    /// The size that the output buffer is to have.
    pub fn capacity(&self) -> (capacity: usize)
        ensures
            capacity == self.spec_capacity(),
    {
        self.capacity
    }

    /// Where the encoder is to write next.
    pub fn written(&self) -> (written: usize)
        ensures
            written == self.spec_written(),
    {
        self.written
    }

    /// The room that is left, in 32 bits as the encoder counts it.
    pub fn room(&self) -> (room: i32)
        requires
            self.wf(),
        ensures
            room == (self.spec_capacity() - self.spec_written()) as i32,
            self.spec_capacity() - self.spec_written() <= i32::MAX ==> room == self.spec_capacity()
                - self.spec_written(),
    {
        (self.capacity - self.written) as i32
    }

    /// Reads what encoding the recording returned: the bytes written, or a
    /// negative code.
    pub fn on_encoded(&mut self, code: i32) -> (result: Result<(), EncodeError>)
        requires
            old(self).wf(),
            code <= old(self).spec_capacity() - old(self).spec_written(),
        ensures
            final(self).wf(),
            final(self).spec_capacity() == old(self).spec_capacity(),
            result == if code < 0 {
                Err::<(), EncodeError>(EncodeError::Encode(code))
            } else {
                Ok(())
            },
            final(self).spec_written() == written_after(old(self).spec_written(), code),
            code >= 0 ==> final(self).spec_written() == old(self).spec_written() + code,
            code < 0 ==> final(self).spec_written() == old(self).spec_written(),
    {
        if code < 0 {
            return Err(EncodeError::Encode(code));
        }
        self.written = self.written + code as usize;
        Ok(())
    }

    /// Reads what writing out the rest returned: the bytes written, or a negative
    /// code.
    pub fn on_flushed(&mut self, code: i32) -> (result: Result<(), EncodeError>)
        requires
            old(self).wf(),
            code <= old(self).spec_capacity() - old(self).spec_written(),
        ensures
            final(self).wf(),
            final(self).spec_capacity() == old(self).spec_capacity(),
            result == if code < 0 {
                Err::<(), EncodeError>(EncodeError::Flush(code))
            } else {
                Ok(())
            },
            final(self).spec_written() == written_after(old(self).spec_written(), code),
            code >= 0 ==> final(self).spec_written() == old(self).spec_written() + code,
            code < 0 ==> final(self).spec_written() == old(self).spec_written(),
    {
        if code < 0 {
            return Err(EncodeError::Flush(code));
        }
        self.written = self.written + code as usize;
        Ok(())
    }

    /// The MP3 data in the output buffer `out`.
    pub fn finish(self, out: Vec<u8>) -> (mp3: Vec<u8>)
        requires
            self.wf(),
            out@.len() == self.spec_capacity(),
        ensures
            mp3@ == out@.take(self.spec_written()),
            mp3@.len() == self.spec_written(),
            mp3@.len() <= self.spec_capacity(),
    {
        let mut mp3 = out;
        mp3.truncate(self.written);
        mp3
    }
}

/// The buffer is never too small: it has the size that LAME's documentation asks
/// for, which counts samples of one channel.
pub proof fn buffer_holds_worst_case(samples: int)
    requires
        0 <= samples,
    ensures
        4 * worst_case_size(samples) >= 5 * (samples / CHANNELS as int) + 4 * 7200,
        worst_case_size(samples) >= 7200,
{
}

/// The MP3 data is what encoding wrote and after it what was written out last.
pub proof fn encoded_then_flushed(out: Seq<u8>, encoded: int, flushed: int)
    requires
        0 <= encoded,
        0 <= flushed,
        encoded + flushed <= out.len(),
    ensures
        out.take(encoded + flushed) == out.take(encoded) + out.skip(encoded).take(flushed),
{
}

/// What the encoder does with a recording: the codes that it returns when it is
/// set up, encodes and writes out the rest, and the bytes that it writes in all.
pub struct Output {
    pub init: i32,
    pub encoded: i32,
    pub flushed: i32,
    pub data: Seq<u8>,
}

/// An encoder whose output depends on the frames that it is told to read, and on
/// nothing else.
pub type Encoder = spec_fn(Seq<i16>) -> Output;

/// The samples of the frames of `pcm` that the encoder is told to read.
pub open spec fn frames_read(pcm: Seq<i16>) -> Seq<i16> {
    let frames = frames_of(pcm.len() as int);
    if frames < 0 {
        Seq::empty()
    } else {
        pcm.take(CHANNELS * frames)
    }
}

/// That `out` is the output buffer of an encoding of `samples` samples, and starts
/// with what the encoder has written.
pub open spec fn holds_output(out: Seq<u8>, samples: int, output: Output) -> bool {
    &&& out.len() == worst_case_size(samples)
    &&& output.data.len() == written_after(written_after(0, output.encoded), output.flushed)
    &&& output.data.is_prefix_of(out)
}

/// What an encoding comes to whose encoder returns what `output` says and leaves
/// the buffer `out`: what `check_init`, `Encoding::on_encoded`,
/// `Encoding::on_flushed` and `Encoding::finish` give in turn.
pub open spec fn encoding_result(output: Output, out: Seq<u8>) -> Result<
    Seq<u8>,
    EncodeError,
> {
    if output.init < 0 {
        Err(EncodeError::Init)
    } else if output.encoded < 0 {
        Err(EncodeError::Encode(output.encoded))
    } else if output.flushed < 0 {
        Err(EncodeError::Flush(output.flushed))
    } else {
        Ok(out.take(written_after(written_after(0, output.encoded), output.flushed)))
    }
}

/// Nothing is kept from one encoding to the next: with an encoder whose output
/// depends on its frames alone, two encodings of the same samples come to the
/// same, whatever their buffers held otherwise. The data is what the encoder wrote.
pub proof fn encodings_independent(
    encoder: Encoder,
    pcm: Seq<i16>,
    out1: Seq<u8>,
    out2: Seq<u8>,
)
    requires
        holds_output(out1, pcm.len() as int, encoder(frames_read(pcm))),
        holds_output(out2, pcm.len() as int, encoder(frames_read(pcm))),
    ensures
        encoding_result(encoder(frames_read(pcm)), out1) == encoding_result(
            encoder(frames_read(pcm)),
            out2,
        ),
        encoding_result(encoder(frames_read(pcm)), out1) matches Ok(mp3) ==> mp3 == encoder(
            frames_read(pcm),
        ).data,
{
    let data = encoder(frames_read(pcm)).data;
    assert(out1.take(data.len() as int) == data);
    assert(out2.take(data.len() as int) == data);
}

/// The encoder is never told of more frames than there are.
proof fn frames_within(samples: u64)
    ensures
        0 <= frames_of(samples as int) ==> frames_of(samples as int) <= samples / 2,
{
    let frames: u64 = samples / 2;
    assert(0 <= (frames as i32) ==> (frames as i32) <= frames) by (bit_vector);
    assert(frames_of(samples as int) == frames as i32);
}

/// A last sample without its pair has no effect: the encoder is told of the same
/// frames with and without it, and, where its output depends on its frames alone,
/// the encoding comes to the same.
pub proof fn unpaired_sample_ignored(
    encoder: Encoder,
    pcm: Seq<i16>,
    out1: Seq<u8>,
    out2: Seq<u8>,
)
    requires
        pcm.len() % CHANNELS as nat == 1,
        pcm.len() <= usize::MAX,
        holds_output(out1, pcm.len() as int, encoder(frames_read(pcm))),
        holds_output(out2, pcm.len() - 1, encoder(frames_read(pcm.drop_last()))),
    ensures
        frames_of(pcm.len() as int) == frames_of(pcm.len() - 1),
        frames_read(pcm) == frames_read(pcm.drop_last()),
        encoding_result(encoder(frames_read(pcm)), out1) == encoding_result(
            encoder(frames_read(pcm.drop_last())),
            out2,
        ),
{
    frames_within(pcm.len() as u64);
    assert(frames_read(pcm) == frames_read(pcm.drop_last()));
    let data = encoder(frames_read(pcm)).data;
    assert(out1.take(data.len() as int) == data);
    assert(out2.take(data.len() as int) == data);
}

/// A number of frames that 32 bits do not hold is counted modulo their range.
pub proof fn frames_wrap(samples: u64)
    ensures
        samples / 2 <= i32::MAX ==> frames_of(samples as int) == samples / 2,
        (samples / 2 - frames_of(samples as int)) % 0x1_0000_0000 == 0,
{
    let frames: u64 = samples / 2;
    assert((frames - (frames as i32)) % 0x1_0000_0000 == 0) by (bit_vector);
    assert(frames_of(samples as int) == frames as i32);
}

/// The encoder is told of every whole frame of a recording: of any recording whose
/// frames 32 bits can count, fewer samples than make up a frame go unread.
pub proof fn every_whole_frame_encoded(pcm: Seq<i16>)
    requires
        pcm.len() / 2 <= i32::MAX,
    ensures
        2 * frames_of(pcm.len() as int) <= pcm.len() < 2 * frames_of(pcm.len() as int) + 2,
        frames_read(pcm).is_prefix_of(pcm),
        frames_read(pcm).len() == 2 * frames_of(pcm.len() as int),
        pcm.len() - frames_read(pcm).len() < CHANNELS,
{
    frames_wrap(pcm.len() as u64);
}

/// A longer recording has more frames: two samples more are one frame more.
pub proof fn frame_for_every_two_samples(samples: int)
    requires
        0 <= samples,
        samples / 2 < i32::MAX,
    ensures
        frames_of(samples + 2) == frames_of(samples) + 1,
{
    frames_wrap(samples as u64);
    frames_wrap((samples + 2) as u64);
}

/// The buffer has five bytes for every four samples, rounded down, and 7200 more.
pub proof fn buffer_size(samples: int)
    requires
        0 <= samples,
    ensures
        4 * (worst_case_size(samples) - 7200) <= 5 * samples < 4 * (worst_case_size(samples)
            - 7200) + 4,
        worst_case_size(samples + 4) == worst_case_size(samples) + 5,
{
}

/// Every byte that the encoder reports counts, and a failure counts none.
pub proof fn bytes_counted(written: int, code: i32)
    ensures
        code >= 0 ==> written_after(written, code) - written == code,
        code < 0 ==> written_after(written, code) == written,
{
}

/// The first failure decides what an encoding comes to; without one its data is
/// the start of the buffer, as long as the encoder's two reports together.
pub proof fn first_failure_decides(output: Output, out: Seq<u8>)
    requires
        output.encoded + output.flushed <= out.len(),
    ensures
        encoding_result(output, out) is Ok <==> output.init >= 0 && output.encoded >= 0
            && output.flushed >= 0,
        encoding_result(output, out) matches Ok(mp3) ==> mp3.is_prefix_of(out) && mp3.len()
            == output.encoded + output.flushed,
        encoding_result(output, out) matches Err(error) ==> match error {
            EncodeError::Init => output.init < 0,
            EncodeError::Encode(code) => output.init >= 0 && code == output.encoded && code < 0,
            EncodeError::Flush(code) => output.init >= 0 && output.encoded >= 0 && code
                == output.flushed && code < 0,
        },
{
}

} // verus!
