//! The one audio format that every stream of the program uses.

use vstd::prelude::*;

verus! {

/// Sample rate of every stream, in hertz.
pub const SAMPLE_RATE: u32 = 44100;

/// Interleaved channels of every stream.
pub const CHANNELS: u32 = 2;

/// Bytes of one sample of one channel.
pub const CHAN_SIZE: usize = 2;

/// Asks a running audio loop to end.
#[derive(Debug)]
pub struct Terminate;

/// A frame has one sample for the left and one for the right and takes four bytes;
/// `seconds` seconds of a stream take 176400 bytes each.
pub proof fn stream_rate(seconds: int)
    ensures
        CHANNELS == 2,
        CHANNELS * CHAN_SIZE == 4,
        seconds * (SAMPLE_RATE * (CHANNELS * CHAN_SIZE)) == seconds * 176400,
{
    assert(CHANNELS * CHAN_SIZE == 4);
    assert(SAMPLE_RATE * 4 == 176400);
}

} // verus!
