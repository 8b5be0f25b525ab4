use autospeech2speech::audio::{Terminate, CHANNELS, CHAN_SIZE, SAMPLE_RATE};
use autospeech2speech::pcm::{
    join_sample, mono_to_stereo, read_samples, split_sample, write_samples, write_silence, ByteOrder,
};

#[test]
fn stream_format() {
    assert_eq!(SAMPLE_RATE, 44100);
    assert_eq!(CHANNELS, 2);
    assert_eq!(CHAN_SIZE, std::mem::size_of::<i16>());
    assert_eq!(format!("{:?}", Terminate), "Terminate");
}

#[test]
fn sample_bytes() {
    assert_eq!(join_sample(ByteOrder::Little, 0x34, 0x12), 0x1234);
    assert_eq!(join_sample(ByteOrder::Big, 0x12, 0x34), 0x1234);
    assert_eq!(join_sample(ByteOrder::Little, 0xff, 0xff), -1);
    assert_eq!(join_sample(ByteOrder::Little, 0x00, 0x80), i16::MIN);
    assert_eq!(join_sample(ByteOrder::Big, 0x7f, 0xff), i16::MAX);
    assert_eq!(split_sample(ByteOrder::Little, 0x1234), (0x34, 0x12));
    assert_eq!(split_sample(ByteOrder::Big, -2), (0xff, 0xfe));
}

#[test]
fn every_sample_survives_its_bytes() {
    for sample in i16::MIN..=i16::MAX {
        let (first, second) = split_sample(ByteOrder::Little, sample);
        assert_eq!([first, second], sample.to_le_bytes());
        assert_eq!(join_sample(ByteOrder::Little, first, second), sample);
        let (first, second) = split_sample(ByteOrder::Big, sample);
        assert_eq!([first, second], sample.to_be_bytes());
        assert_eq!(join_sample(ByteOrder::Big, first, second), sample);
    }
}

#[test]
fn reads_the_first_samples() {
    let bytes = [1u8, 0, 0xff, 0xff, 3, 0, 9];
    assert_eq!(read_samples(ByteOrder::Little, &bytes, 2), vec![1, -1]);
    assert_eq!(read_samples(ByteOrder::Little, &bytes, 3), vec![1, -1, 3]);
    assert_eq!(read_samples(ByteOrder::Big, &bytes, 3), vec![256, -1, 768]);
    assert!(read_samples(ByteOrder::Little, &bytes, 0).is_empty());
}

#[test]
fn writes_where_asked() {
    let mut out = [7u8; 9];
    write_samples(ByteOrder::Little, &mut out, 1, &[10, -1, 0x0102, 4], 1, 2);
    assert_eq!(out, [7, 7, 0xff, 0xff, 2, 1, 7, 7, 7]);
    write_silence(ByteOrder::Little, &mut out, 2, 4);
    assert_eq!(out, [7, 7, 0xff, 0xff, 0, 0, 0, 0, 7]);
    write_samples(ByteOrder::Big, &mut out, 0, &[0x0102], 0, 1);
    assert_eq!(out, [1, 2, 0xff, 0xff, 0, 0, 0, 0, 7]);
}

#[test]
fn mono_on_both_channels() {
    assert_eq!(mono_to_stereo(&[1, -2, 3]), vec![1, 1, -2, -2, 3, 3]);
    assert!(mono_to_stereo(&[]).is_empty());
}
