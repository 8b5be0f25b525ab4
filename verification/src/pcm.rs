//! Signed 16-bit samples and the bytes they are stored in.

use vstd::prelude::*;

verus! {

/// The order in which a machine stores the bytes of a number. Streams are shared
/// with the audio server in memory, in the machine's own order.
#[derive(Debug, Clone, Copy, PartialEq, Eq, Structural)]
pub enum ByteOrder {
    /// The low byte comes first.
    Little,
    /// The high byte comes first.
    Big,
}

/// The sample stored as the byte `first` and then the byte `second`, in two's
/// complement.
pub open spec fn sample_of(order: ByteOrder, first: u8, second: u8) -> i16 {
    let unsigned = match order {
        ByteOrder::Little => first + 256 * second,
        ByteOrder::Big => 256 * first + second,
    };
    if unsigned < 0x8000 {
        unsigned as i16
    } else {
        (unsigned - 0x10000) as i16
    }
}

/// The samples that `bytes` holds; an odd last byte belongs to none.
pub open spec fn samples(order: ByteOrder, bytes: Seq<u8>) -> Seq<i16> {
    Seq::new(bytes.len() / 2, |i: int| sample_of(order, bytes[2 * i], bytes[2 * i + 1]))
}

/// `n` samples of silence.
pub open spec fn silence(n: nat) -> Seq<i16> {
    Seq::new(n, |i: int| 0i16)
}

/// The interleaved stereo stream that carries `mono` on both channels.
pub open spec fn doubled(mono: Seq<i16>) -> Seq<i16> {
    Seq::new(2 * mono.len(), |i: int| mono[i / 2])
}

/// Channel `c` of the interleaved stereo stream `stereo`.
pub open spec fn channel(stereo: Seq<i16>, c: int) -> Seq<i16> {
    Seq::new(stereo.len() / 2, |i: int| stereo[2 * i + c])
}

/// The sample stored as the byte `first` and then the byte `second`.
pub fn join_sample(order: ByteOrder, first: u8, second: u8) -> (sample: i16)
    ensures
        sample == sample_of(order, first, second),
        order is Little ==> (sample - (first + 256 * second)) % 65536 == 0,
        order is Big ==> (sample - (256 * first + second)) % 65536 == 0,
{
    let unsigned: i32 = match order {
        ByteOrder::Little => first as i32 + 256 * (second as i32),
        ByteOrder::Big => 256 * (first as i32) + second as i32,
    };
    if unsigned < 0x8000 {
        unsigned as i16
    } else {
        (unsigned - 0x10000) as i16
    }
}

/// The two bytes that store `sample`, in the order in which they are stored.
pub fn split_sample(order: ByteOrder, sample: i16) -> (bytes: (u8, u8))
    ensures
        sample_of(order, bytes.0, bytes.1) == sample,
        order is Little ==> (sample - (bytes.0 + 256 * bytes.1)) % 65536 == 0,
        order is Big ==> (sample - (256 * bytes.0 + bytes.1)) % 65536 == 0,
{
    let unsigned: i32 = if sample < 0 {
        sample as i32 + 0x10000
    } else {
        sample as i32
    };
    let low: u8 = (unsigned % 256) as u8;
    let high: u8 = (unsigned / 256) as u8;
    match order {
        ByteOrder::Little => (low, high),
        ByteOrder::Big => (high, low),
    }
}

/// The first `count` samples of `bytes`.
pub fn read_samples(order: ByteOrder, bytes: &[u8], count: usize) -> (read: Vec<i16>)
    requires
        2 * count <= bytes@.len(),
    ensures
        read@ == samples(order, bytes@).take(count as int),
        read@.len() == count,
        order is Little ==> forall|i: int|
            0 <= i < count ==> (#[trigger] read@[i] - (bytes@[2 * i] + 256 * bytes@[2 * i + 1]))
                % 65536 == 0,
        order is Big ==> forall|i: int|
            0 <= i < count ==> (#[trigger] read@[i] - (256 * bytes@[2 * i] + bytes@[2 * i + 1]))
                % 65536 == 0,
{
    let mut read: Vec<i16> = Vec::with_capacity(count);
    let mut i: usize = 0;
    while i < count
        invariant
            i <= count,
            2 * count <= bytes@.len(),
            read@ == samples(order, bytes@).take(i as int),
            order is Little ==> forall|k: int|
                0 <= k < i ==> (#[trigger] read@[k] - (bytes@[2 * k] + 256 * bytes@[2 * k + 1]))
                    % 65536 == 0,
            order is Big ==> forall|k: int|
                0 <= k < i ==> (#[trigger] read@[k] - (256 * bytes@[2 * k] + bytes@[2 * k + 1]))
                    % 65536 == 0,
        decreases count - i,
    {
        assert(bytes@.len() == bytes.len());
        read.push(join_sample(order, bytes[2 * i], bytes[2 * i + 1]));
        i += 1;
    }
    read
}

/// Stores one sample at sample position `at` of `out`.
fn put_sample(order: ByteOrder, out: &mut [u8], at: usize, sample: i16)
    requires
        2 * at + 2 <= old(out)@.len(),
    ensures
        final(out)@.len() == old(out)@.len(),
        samples(order, final(out)@) == samples(order, old(out)@).update(at as int, sample),
        order is Little ==> (sample - (final(out)@[2 * at] + 256 * final(out)@[2 * at + 1])) % 65536
            == 0,
        order is Big ==> (sample - (256 * final(out)@[2 * at] + final(out)@[2 * at + 1])) % 65536
            == 0,
        forall|i: int|
            0 <= i < old(out)@.len() && !(2 * at <= i < 2 * at + 2) ==> final(out)@[i] == old(
                out,
            )@[i],
{
    let (first, second) = split_sample(order, sample);
    out[2 * at] = first;
    out[2 * at + 1] = second;
}

/// Stores `source[from..from + count]` at sample position `at` of `out`.
pub fn write_samples(
    order: ByteOrder,
    out: &mut [u8],
    at: usize,
    source: &[i16],
    from: usize,
    count: usize,
)
    requires
        2 * (at + count) <= old(out)@.len(),
        from + count <= source@.len(),
    ensures
        final(out)@.len() == old(out)@.len(),
        samples(order, final(out)@) == samples(order, old(out)@).take(at as int) + source@.subrange(
            from as int,
            from + count,
        ) + samples(order, old(out)@).skip(at + count),
        order is Little ==> forall|p: int|
            from <= p < from + count ==> (#[trigger] source@[p] - (final(out)@[2 * (at + p - from)]
                + 256 * final(out)@[2 * (at + p - from) + 1])) % 65536 == 0,
        order is Big ==> forall|p: int|
            from <= p < from + count ==> (#[trigger] source@[p] - (256 * final(out)@[2 * (at + p
                - from)] + final(out)@[2 * (at + p - from) + 1])) % 65536 == 0,
        forall|i: int|
            0 <= i < old(out)@.len() && !(2 * at <= i < 2 * (at + count)) ==> final(out)@[i]
                == old(out)@[i],
{
    let ghost before = out@;
    let mut i: usize = 0;
    while i < count
        invariant
            i <= count,
            out@.len() == before.len(),
            2 * (at + count) <= before.len(),
            from + count <= source@.len(),
            samples(order, out@) == samples(order, before).take(at as int) + source@.subrange(
                from as int,
                from + i,
            ) + samples(order, before).skip(at + i),
            order is Little ==> forall|p: int|
                from <= p < from + i ==> (#[trigger] source@[p] - (out@[2 * (at + p - from)] + 256
                    * out@[2 * (at + p - from) + 1])) % 65536 == 0,
            order is Big ==> forall|p: int|
                from <= p < from + i ==> (#[trigger] source@[p] - (256 * out@[2 * (at + p - from)]
                    + out@[2 * (at + p - from) + 1])) % 65536 == 0,
            forall|k: int|
                0 <= k < before.len() && !(2 * at <= k < 2 * (at + i)) ==> out@[k] == before[k],
        decreases count - i,
    {
        assert(out@.len() == out.len());
        assert(source@.len() == source.len());
        put_sample(order, out, at + i, source[from + i]);
        i += 1;
    }
}

/// Stores silence at sample positions `from..to` of `out`.
pub fn write_silence(order: ByteOrder, out: &mut [u8], from: usize, to: usize)
    requires
        from <= to,
        2 * to <= old(out)@.len(),
    ensures
        final(out)@.len() == old(out)@.len(),
        samples(order, final(out)@) == samples(order, old(out)@).take(from as int) + silence(
            (to - from) as nat,
        ) + samples(order, old(out)@).skip(to as int),
        forall|i: int| 2 * from <= i < 2 * to ==> #[trigger] final(out)@[i] == 0,
        forall|i: int|
            0 <= i < old(out)@.len() && !(2 * from <= i < 2 * to) ==> final(out)@[i] == old(
                out,
            )@[i],
{
    let ghost before = out@;
    let mut i: usize = from;
    while i < to
        invariant
            from <= i <= to,
            out@.len() == before.len(),
            2 * to <= before.len(),
            samples(order, out@) == samples(order, before).take(from as int) + silence((i - from) as nat)
                + samples(order, before).skip(i as int),
            forall|k: int| 2 * from <= k < 2 * i ==> #[trigger] out@[k] == 0,
            forall|k: int|
                0 <= k < before.len() && !(2 * from <= k < 2 * i) ==> out@[k] == before[k],
        decreases to - i,
    {
        put_sample(order, out, i, 0);
        i += 1;
    }
}

/// Plays the mono stream `pcm` on both channels of an interleaved stereo stream.
pub fn mono_to_stereo(pcm: &[i16]) -> (stereo: Vec<i16>)
    requires
        2 * pcm@.len() <= usize::MAX,
    ensures
        stereo@ == doubled(pcm@),
        stereo@.len() == 2 * pcm@.len(),
        forall|i: int|
            #![trigger pcm@[i]]
            0 <= i < pcm@.len() ==> stereo@[2 * i] == pcm@[i] && stereo@[2 * i + 1] == pcm@[i],
{
    let mut stereo: Vec<i16> = Vec::with_capacity(pcm.len() * 2);
    let mut i: usize = 0;
    while i < pcm.len()
        invariant
            i <= pcm@.len(),
            2 * pcm@.len() <= usize::MAX,
            stereo@ == doubled(pcm@.take(i as int)),
        decreases pcm@.len() - i,
    {
        stereo.push(pcm[i]);
        stereo.push(pcm[i]);
        i += 1;
    }
    assert(pcm@.take(i as int) == pcm@);
    stereo
}

/// A stored sample determines its bytes: no two byte pairs hold the same sample.
pub proof fn sample_bytes_unique(
    order: ByteOrder,
    first1: u8,
    second1: u8,
    first2: u8,
    second2: u8,
)
    requires
        sample_of(order, first1, second1) == sample_of(order, first2, second2),
    ensures
        first1 == first2,
        second1 == second2,
{
}

/// Both channels of a doubled mono stream are that mono stream.
pub proof fn doubled_channels(mono: Seq<i16>)
    ensures
        channel(doubled(mono), 0) == mono,
        channel(doubled(mono), 1) == mono,
{
}

/// A sample is the number that its two bytes make up, modulo the 65536 values that
/// they can take: the second byte counts 256 times as much as the first in little
/// order, and the other way round in big order.
pub proof fn sample_value(first: u8, second: u8)
    ensures
        (sample_of(ByteOrder::Little, first, second) - (first + 256 * second)) % 65536 == 0,
        (sample_of(ByteOrder::Big, first, second) - (256 * first + second)) % 65536 == 0,
{
}

/// The same bytes in the other order are the same sample.
pub proof fn orders_mirror(first: u8, second: u8)
    ensures
        sample_of(ByteOrder::Little, first, second) == sample_of(ByteOrder::Big, second, first),
{
}

/// Every pair of bytes is a sample, and how it is read depends neither on where it
/// stands nor on what stands around it.
pub proof fn samples_in_place(bytes: Seq<u8>, i: int)
    ensures
        samples(ByteOrder::Little, bytes).len() == bytes.len() / 2,
        samples(ByteOrder::Big, bytes).len() == bytes.len() / 2,
        0 <= i < bytes.len() / 2 ==> {
            &&& (samples(ByteOrder::Little, bytes)[i] - (bytes[2 * i] + 256 * bytes[2 * i + 1]))
                % 65536 == 0
            &&& (samples(ByteOrder::Big, bytes)[i] - (256 * bytes[2 * i] + bytes[2 * i + 1]))
                % 65536 == 0
        },
{
}

/// The samples of bytes put together, where the first are whole samples, are the
/// samples of each put together.
pub proof fn samples_of_parts(order: ByteOrder, first: Seq<u8>, second: Seq<u8>)
    requires
        first.len() % 2 == 0,
    ensures
        samples(order, first + second) == samples(order, first) + samples(order, second),
{
}

/// Silence of any length is that many zeros.
pub proof fn silence_is_zeros(n: nat)
    ensures
        silence(n).len() == n,
        forall|i: int| 0 <= i < n ==> #[trigger] silence(n)[i] == 0,
{
}

/// A doubled stream has each sample of the mono stream twice in a row, and nothing
/// else.
pub proof fn doubled_pairs(mono: Seq<i16>, i: int)
    ensures
        doubled(mono).len() == 2 * mono.len(),
        0 <= i < mono.len() ==> doubled(mono)[2 * i] == mono[i] && doubled(mono)[2 * i + 1]
            == mono[i],
{
}

} // verus!
