//! Taking samples from a capture stream, and collecting them to a recording.

use crate::audio::{CHANNELS, CHAN_SIZE};
use crate::pcm::{read_samples, ByteOrder};
use vstd::prelude::*;

verus! {

/// What kind of media a stream carries.
#[derive(Debug, Clone, Copy, PartialEq, Eq, Structural)]
pub enum MediaType {
    Audio,
    Other,
}

/// How the media of a stream is coded.
#[derive(Debug, Clone, Copy, PartialEq, Eq, Structural)]
pub enum MediaSubtype {
    Raw,
    Other,
}

/// Whether a changed parameter is to be looked into.
pub enum ParamStep {
    /// It is of no concern.
    Ignore,
    /// It may name a new format: find out what kind of media it is for.
    Inspect,
}

/// Decides on a changed parameter from its id and from whether it has a value;
/// `format_id` is the id of the format. A format without a value is one that was
/// cleared.
pub fn on_param(given: bool, id: u32, format_id: u32) -> (step: ParamStep)
    ensures
        step is Inspect <==> given && id == format_id,
{
    if given && id == format_id {
        ParamStep::Inspect
    } else {
        ParamStep::Ignore
    }
}

/// Whether a format is to be adopted: it could be read and is raw audio.
pub fn accepts_format(media: Option<(MediaType, MediaSubtype)>) -> (accepts: bool)
    ensures
        accepts <==> media == Some((MediaType::Audio, MediaSubtype::Raw)),
{
    match media {
        Some((media_type, media_subtype)) => media_type == MediaType::Audio && media_subtype
            == MediaSubtype::Raw,
        None => false,
    }
}

/// The first block of data of a captured buffer.
pub struct Block<'a> {
    /// Bytes of the block that hold samples.
    pub size: u32,
    /// The block, if it is in memory.
    pub data: Option<&'a [u8]>,
}

/// The first block of data of a captured buffer, by its contents.
pub struct BlockView {
    pub size: int,
    pub data: Option<Seq<u8>>,
}

/// The contents of a buffer's first block, if it has one.
pub open spec fn block_view(block: Option<Block<'_>>) -> Option<BlockView> {
    match block {
        Some(b) => Some(
            BlockView {
                size: b.size as int,
                data: match b.data {
                    Some(bytes) => Some(bytes@),
                    None => None,
                },
            },
        ),
        None => None,
    }
}

/// A stream with another number of channels than the program's.
#[derive(Debug, Clone, Copy, PartialEq, Eq, Structural)]
pub struct WrongChannels {
    pub channels: u32,
}

/// The samples of a block of `size` bytes of samples that starts with `bytes`.
pub open spec fn block_samples(order: ByteOrder, bytes: Seq<u8>, size: int) -> Seq<i16> {
    crate::pcm::samples(order, bytes).take(size / CHAN_SIZE as int)
}

/// Whether a captured buffer has a block, and has it in memory.
pub open spec fn in_memory(block: Option<BlockView>) -> bool {
    block matches Some(b) && b.data is Some
}

/// The samples to send on from a captured buffer, if there are any to send.
pub open spec fn message(order: ByteOrder, block: Option<BlockView>) -> Option<Seq<i16>> {
    if in_memory(block) {
        Some(block_samples(order, block->0.data->0, block->0.size))
    } else {
        None
    }
}

/// The samples to send on from a captured buffer, given its first block, on a
/// stream of `channels` channels whose bytes are stored in `order`. A buffer
/// without blocks, or one whose block is not in memory, has none.
pub fn captured(order: ByteOrder, channels: u32, block: Option<Block<'_>>) -> (result: Result<
    Option<Vec<i16>>,
    WrongChannels,
>)
    requires
        channels == CHANNELS ==> (block matches Some(b) ==> (b.data matches Some(bytes)
            ==> CHAN_SIZE * (b.size as int / CHAN_SIZE as int) <= bytes@.len())),
    ensures
        match result {
            Ok(Some(samples)) => message(order, block_view(block)) == Some(samples@),
            Ok(None) => message(order, block_view(block)) is None,
            Err(wrong) => wrong == (WrongChannels { channels }),
        },
        result is Err <==> block is Some && channels != CHANNELS,
        result is Err <==> block is Some && channels != 2,
        result matches Ok(sent) ==> (sent is Some <==> (block matches Some(b) && b.data is Some)),
        result matches Ok(Some(samples)) ==> (block matches Some(b) ==> {
            &&& samples@.len() == b.size as int / 2
            &&& b.data matches Some(bytes) ==> {
                &&& order is Little ==> forall|i: int|
                    0 <= i < b.size as int / 2 ==> (#[trigger] samples@[i] - (bytes@[2 * i] + 256
                        * bytes@[2 * i + 1])) % 65536 == 0
                &&& order is Big ==> forall|i: int|
                    0 <= i < b.size as int / 2 ==> (#[trigger] samples@[i] - (256 * bytes@[2 * i]
                        + bytes@[2 * i + 1])) % 65536 == 0
            }
        }),
{
    match block {
        None => Ok(None),
        Some(b) => {
            if channels != CHANNELS {
                return Err(WrongChannels { channels });
            }
            let count: usize = b.size as usize / CHAN_SIZE;
            match b.data {
                None => Ok(None),
                Some(bytes) => Ok(Some(read_samples(order, bytes, count))),
            }
        },
    }
}

/// The samples captured while the talk key is held.
pub struct Recording {
    pcm: Vec<i16>,
}

impl Recording {
    /// The samples recorded.
    pub closed spec fn view(&self) -> Seq<i16> {
        self.pcm@
    }

    /// A recording of nothing.
    pub fn new() -> (recording: Recording)
        ensures
            recording@ == Seq::<i16>::empty(),
    {
        Recording { pcm: Vec::new() }
    }

    /// Adds captured samples at the end.
    pub fn push(&mut self, samples: &[i16])
        ensures
            final(self)@ == old(self)@ + samples@,
    {
        self.pcm.extend_from_slice(samples);
    }

    /// The samples recorded.
    pub fn into_samples(self) -> (samples: Vec<i16>)
        ensures
            samples@ == self@,
    {
        self.pcm
    }
}

/// The recording after the captured chunks `chunks`, each as `Recording::push`
/// adds it.
pub open spec fn recorded(chunks: Seq<Seq<i16>>) -> Seq<i16>
    decreases chunks.len(),
{
    if chunks.len() == 0 {
        Seq::empty()
    } else {
        recorded(chunks.drop_last()) + chunks.last()
    }
}

/// A recording is all captured samples in the order captured.
pub proof fn recording_complete(chunks: Seq<Seq<i16>>)
    ensures
        recorded(chunks) == chunks.flatten(),
    decreases chunks.len(),
{
    if chunks.len() > 0 {
        recording_complete(chunks.drop_last());
        chunks.drop_last().lemma_flatten_push(chunks.last());
        assert(chunks.drop_last().push(chunks.last()) == chunks);
    }
}

/// What is sent on from the buffers with the first blocks `blocks`, one after the
/// other, each as `captured` gives it.
pub open spec fn messages(order: ByteOrder, blocks: Seq<Option<BlockView>>) -> Seq<Seq<i16>>
    decreases blocks.len(),
{
    if blocks.len() == 0 {
        Seq::empty()
    } else {
        let earlier = messages(order, blocks.drop_last());
        match message(order, blocks.last()) {
            Some(samples) => earlier.push(samples),
            None => earlier,
        }
    }
}

/// The samples of those of `blocks` that are in memory, block by block.
pub open spec fn captured_blocks(
    order: ByteOrder,
    blocks: Seq<Option<BlockView>>,
) -> Seq<Seq<i16>> {
    blocks.filter(|block: Option<BlockView>| in_memory(block)).map_values(
        |block: Option<BlockView>| block_samples(order, block->0.data->0, block->0.size),
    )
}

/// The captured stream is sent on as it is: one message for every buffer whose
/// block is in memory, with the samples of that block, in the order in which the
/// buffers came. The recording of these messages is the samples of all such
/// blocks, with nothing lost, repeated or out of order.
pub proof fn capture_complete(order: ByteOrder, blocks: Seq<Option<BlockView>>)
    ensures
        messages(order, blocks) == captured_blocks(order, blocks),
        recorded(messages(order, blocks)) == captured_blocks(order, blocks).flatten(),
    decreases blocks.len(),
{
    reveal(Seq::filter);
    recording_complete(messages(order, blocks));
    if blocks.len() > 0 {
        capture_complete(order, blocks.drop_last());
    }
    assert(messages(order, blocks) == captured_blocks(order, blocks));
}

/// A captured block is sent on whole: the message of a block of `size` bytes in
/// memory has half as many samples, and each is the one that the block stores in
/// its place.
pub proof fn block_sent_whole(bytes: Seq<u8>, size: int)
    requires
        0 <= size,
        2 * (size / 2) <= bytes.len(),
    ensures
        message(ByteOrder::Little, Some(BlockView { size, data: Some(bytes) })) matches Some(sent)
            && sent.len() == size / 2 && (forall|i: int|
            0 <= i < size / 2 ==> (#[trigger] sent[i] - (bytes[2 * i] + 256 * bytes[2 * i + 1]))
                % 65536 == 0),
        message(ByteOrder::Big, Some(BlockView { size, data: Some(bytes) })) matches Some(sent)
            && sent.len() == size / 2 && (forall|i: int|
            0 <= i < size / 2 ==> (#[trigger] sent[i] - (256 * bytes[2 * i] + bytes[2 * i + 1]))
                % 65536 == 0),
{
}

/// What is sent on of a buffer depends on its first block alone: on the size given
/// for it and on its bytes, if it has any in memory.
pub proof fn block_contents(block: Option<Block<'_>>)
    ensures
        block is None <==> block_view(block) is None,
        block matches Some(b) ==> (block_view(block) matches Some(view) && view.size == b.size && (
        b.data is None <==> view.data is None)),
        block matches Some(b) ==> (b.data matches Some(bytes) ==> block_view(block)->0.data == Some(
            bytes@,
        )),
        in_memory(block_view(block)) <==> (block matches Some(b) && b.data is Some),
{
}

/// Buffers are sent on one after the other: those of two runs of buffers are those
/// of the first and then those of the second, and a single one is its message.
pub proof fn messages_in_turn(
    order: ByteOrder,
    first: Seq<Option<BlockView>>,
    second: Seq<Option<BlockView>>,
    block: Option<BlockView>,
)
    ensures
        messages(order, first + second) == messages(order, first) + messages(order, second),
        messages(order, seq![block]) == match message(order, block) {
            Some(samples) => seq![samples],
            None => Seq::empty(),
        },
    decreases second.len(),
{
    assert(seq![block].drop_last() == Seq::<Option<BlockView>>::empty());
    assert(messages(order, seq![block].drop_last()) == Seq::<Seq<i16>>::empty());
    if second.len() == 0 {
        assert(first + second == first);
    } else {
        messages_in_turn(order, first, second.drop_last(), block);
        assert((first + second).drop_last() == first + second.drop_last());
    }
}

/// A buffer without a block, and one whose block is not in memory, is passed over.
pub proof fn block_passed_over(order: ByteOrder, size: int)
    ensures
        message(order, None) is None,
        message(order, Some(BlockView { size, data: None })) is None,
{
}

/// Every byte of samples is recorded: of blocks in memory with these sizes the
/// messages hold half as many samples as there are bytes, block for block.
pub proof fn every_block_recorded(order: ByteOrder, blocks: Seq<Option<BlockView>>)
    requires
        forall|i: int|
            #![trigger blocks[i]]
            0 <= i < blocks.len() ==> (blocks[i] matches Some(b) && 0 <= b.size && (
            b.data matches Some(bytes) && 2 * (b.size / 2) <= bytes.len())),
    ensures
        messages(order, blocks).len() == blocks.len(),
        forall|i: int|
            #![trigger blocks[i]]
            0 <= i < blocks.len() ==> messages(order, blocks)[i].len() == blocks[i]->0.size / 2,
    decreases blocks.len(),
{
    if blocks.len() > 0 {
        let earlier = blocks.drop_last();
        assert forall|i: int| #![trigger earlier[i]] 0 <= i < earlier.len() implies (
        earlier[i] matches Some(b) && 0 <= b.size && (b.data matches Some(bytes) && 2 * (b.size
            / 2) <= bytes.len())) by {
            assert(earlier[i] == blocks[i]);
        }
        every_block_recorded(order, earlier);
        let last = blocks[blocks.len() - 1];
        assert(message(order, last) is Some);
        assert forall|i: int| #![trigger blocks[i]] 0 <= i < blocks.len() implies messages(
            order,
            blocks,
        )[i].len() == blocks[i]->0.size / 2 by {
            if i < earlier.len() {
                assert(earlier[i] == blocks[i]);
            }
        }
    }
}

} // verus!
