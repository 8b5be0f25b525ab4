use autospeech2speech::decode::{DecodeAction, Decoding, Frame, TooManyChannels};
use autospeech2speech::encode::{check_init, frame_count, EncodeError, Encoding};

fn frame(samples: i32, channels: i32, frame_bytes: i32) -> Frame {
    Frame { samples, channels, frame_bytes }
}

#[test]
fn waits_for_the_lookahead() {
    let decoding = Decoding::new();
    assert_eq!(decoding.on_notice(0, false), DecodeAction::Wait);
    assert_eq!(decoding.on_notice(2304 * 8 - 1, false), DecodeAction::Wait);
    assert_eq!(decoding.on_notice(2304 * 8, false), DecodeAction::Decode(0));
    assert_eq!(decoding.on_notice(0, true), DecodeAction::Decode(0));
}

#[test]
fn stereo_frame_is_passed_on() {
    let mut decoding = Decoding::new();
    let step = decoding
        .on_frame(&[1, 2, 3, 4, 0, 0], frame(2, 2, 100), 2304 * 8 + 100, false)
        .unwrap();
    assert_eq!(step.pcm, Some(vec![1, 2, 3, 4]));
    assert_eq!(step.next, DecodeAction::Decode(100));
    assert_eq!(decoding.offset(), 100);
}

#[test]
fn mono_frame_is_doubled() {
    let mut decoding = Decoding::new();
    let step = decoding
        .on_frame(&[1, 2, 0], frame(2, 1, 101), 2304 * 8 + 100, false)
        .unwrap();
    assert_eq!(step.pcm, Some(vec![1, 1, 2, 2]));
    assert_eq!(step.next, DecodeAction::Wait);
    assert_eq!(decoding.offset(), 101);
}

#[test]
fn skipped_bytes_send_nothing() {
    let mut decoding = Decoding::new();
    let step = decoding.on_frame(&[], frame(0, 0, 30), 50, true).unwrap();
    assert_eq!(step.pcm, None);
    assert_eq!(step.next, DecodeAction::Decode(30));
}

#[test]
fn too_many_channels_are_refused() {
    let mut decoding = Decoding::new();
    for channels in [0, 3, -1] {
        assert!(matches!(
            decoding.on_frame(&[1; 8], frame(1, channels, 10), 50, false),
            Err(TooManyChannels)
        ));
    }
    assert_eq!(decoding.offset(), 0);
}

#[test]
fn finished_stream_is_read_to_its_end() {
    let mut decoding = Decoding::new();
    let mut asked = Vec::new();
    let mut action = decoding.on_notice(1000, true);
    while let DecodeAction::Decode(from) = action {
        asked.push(from);
        let left = 1000 - from;
        let bytes = if left < 300 { left } else { 300 };
        let samples = if bytes > 0 { 1 } else { 0 };
        let step = decoding
            .on_frame(&[5, 6], frame(samples, 2, bytes as i32), 1000, true)
            .unwrap();
        assert_eq!(step.pcm.is_some(), bytes > 0);
        action = step.next;
    }
    assert_eq!(asked, vec![0, 300, 600, 900, 1000]);
    assert_eq!(decoding.offset(), 1000);
}

#[test]
fn growing_download_is_decoded_once() {
    let mut decoding = Decoding::new();
    let mut read = 0usize;
    for (available, finished) in [(500, false), (20000, false), (40000, false), (40100, true)] {
        let mut action = decoding.on_notice(available, finished);
        while let DecodeAction::Decode(from) = action {
            assert_eq!(from, read);
            let left = available - from;
            let bytes = if left < 417 { left } else { 417 };
            read += bytes;
            let step = decoding
                .on_frame(&[5, 6], frame(1, 2, bytes as i32), available, finished)
                .unwrap();
            action = step.next;
        }
        assert_eq!(decoding.offset(), read);
        assert!(finished || available - read < 2304 * 8);
    }
    assert_eq!(read, 40100);
}

/// Decodes frames whose first byte is their length in hundreds of bytes, and
/// returns what is sent on over the notices, each handled when so many bytes
/// have arrived.
fn sent_on(stream: &[u8], notices: &[(usize, bool)]) -> Vec<Vec<i16>> {
    let mut decoding = Decoding::new();
    let mut sent = Vec::new();
    for &(available, finished) in notices {
        let data = &stream[..available];
        let mut action = decoding.on_notice(available, finished);
        while let DecodeAction::Decode(from) = action {
            let unread = &data[from..];
            let (bytes, samples) = match unread.first() {
                None => (0, 0),
                Some(&length) if (length as usize) * 100 <= unread.len() && length > 0 => {
                    (length as usize * 100, 1)
                }
                Some(_) => (unread.len(), 0),
            };
            let pcm = [bytes as i16, from as i16];
            let step = decoding
                .on_frame(&pcm, frame(samples, 2, bytes as i32), available, finished)
                .unwrap();
            sent.extend(step.pcm);
            action = step.next;
        }
    }
    sent
}

#[test]
fn notices_do_not_change_the_frames() {
    let mut stream = Vec::new();
    while stream.len() < 60000 {
        let length = 1 + (stream.len() / 100 * 7 % 50) as u8;
        stream.push(length);
        stream.resize(stream.len() + length as usize * 100 - 1, 0);
    }
    let all = stream.len();
    let alone = sent_on(&stream, &[(all, true)]);
    assert!(alone.len() > 10);
    let unchanged = [(all, false), (all, false), (all, true), (all, false), (all, true)];
    assert_eq!(sent_on(&stream, &unchanged), alone);
    let growing = [(10, false), (20000, false), (20000, false), (45678, false), (all, true)];
    assert_eq!(sent_on(&stream, &growing), alone);
}

#[test]
fn room_for_the_worst_case() {
    assert_eq!(Encoding::new(0).capacity(), 7200);
    assert_eq!(Encoding::new(3).capacity(), 7203);
    assert_eq!(Encoding::new(1000).capacity(), 8450);
    for samples in [0usize, 1, 7, 4096, 88200, 3_000_001] {
        let estimate = (samples as f32 * 1.25 + 7200.0) as usize;
        assert_eq!(Encoding::new(samples).capacity(), estimate);
    }
}

#[test]
fn frames_of_a_recording() {
    assert_eq!(frame_count(0), 0);
    assert_eq!(frame_count(7), 3);
    assert_eq!(frame_count(88200), 44100);
}

#[test]
fn encoded_data_then_the_rest() {
    let mut encoding = Encoding::new(0);
    assert_eq!(encoding.room(), 7200);
    assert_eq!(encoding.on_encoded(3), Ok(()));
    assert_eq!(encoding.written(), 3);
    assert_eq!(encoding.room(), 7197);
    assert_eq!(encoding.on_flushed(2), Ok(()));
    let mut out = vec![0u8; encoding.capacity()];
    out[..6].copy_from_slice(&[1, 2, 3, 4, 5, 6]);
    assert_eq!(encoding.finish(out), vec![1, 2, 3, 4, 5]);
}

#[test]
fn unpaired_sample_has_no_frame() {
    for samples in [1usize, 7, 88201] {
        assert_eq!(frame_count(samples), frame_count(samples - 1));
    }
    let finish = |samples: usize, filler: u8| {
        let mut encoding = Encoding::new(samples);
        assert_eq!(encoding.on_encoded(2), Ok(()));
        assert_eq!(encoding.on_flushed(1), Ok(()));
        let mut out = vec![filler; encoding.capacity()];
        out[..3].copy_from_slice(&[7, 8, 9]);
        encoding.finish(out)
    };
    assert_eq!(finish(7, 0), vec![7, 8, 9]);
    assert_eq!(finish(7, 0), finish(6, 0));
    assert_eq!(finish(7, 0), finish(7, 0xff));
}

#[test]
fn encoder_codes() {
    assert_eq!(check_init(0), Ok(()));
    assert_eq!(check_init(-1), Err(EncodeError::Init));
    let mut encoding = Encoding::new(10);
    assert_eq!(encoding.on_encoded(-1), Err(EncodeError::Encode(-1)));
    assert_eq!(encoding.on_flushed(-4), Err(EncodeError::Flush(-4)));
    assert_eq!(encoding.on_encoded(0), Ok(()));
    assert_eq!(encoding.written(), 0);
}
