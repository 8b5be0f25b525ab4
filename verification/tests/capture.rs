use autospeech2speech::capture::{
    accepts_format, captured, on_param, Block, MediaSubtype, MediaType, ParamStep, Recording,
    WrongChannels,
};
use autospeech2speech::pcm::ByteOrder;

#[test]
fn only_a_given_format_is_inspected() {
    assert!(matches!(on_param(true, 4, 4), ParamStep::Inspect));
    assert!(matches!(on_param(false, 4, 4), ParamStep::Ignore));
    assert!(matches!(on_param(true, 3, 4), ParamStep::Ignore));
}

#[test]
fn only_raw_audio_is_accepted() {
    assert!(accepts_format(Some((MediaType::Audio, MediaSubtype::Raw))));
    assert!(!accepts_format(Some((MediaType::Audio, MediaSubtype::Other))));
    assert!(!accepts_format(Some((MediaType::Other, MediaSubtype::Raw))));
    assert!(!accepts_format(None));
}

#[test]
fn block_is_read_to_its_size() {
    let bytes = [1u8, 0, 2, 0, 3, 0];
    let block = Block { size: 5, data: Some(&bytes) };
    assert_eq!(captured(ByteOrder::Little, 2, Some(block)), Ok(Some(vec![1, 2])));
    let block = Block { size: 0, data: Some(&bytes) };
    assert_eq!(captured(ByteOrder::Little, 2, Some(block)), Ok(Some(vec![])));
}

#[test]
fn buffer_without_data_is_skipped() {
    assert_eq!(captured(ByteOrder::Little, 2, None), Ok(None));
    assert_eq!(captured(ByteOrder::Little, 0, None), Ok(None));
    assert_eq!(captured(ByteOrder::Little, 2, Some(Block { size: 8, data: None })), Ok(None));
}

#[test]
fn other_channels_are_refused() {
    let bytes = [1u8, 0];
    let block = Block { size: 2, data: Some(&bytes) };
    assert_eq!(captured(ByteOrder::Little, 1, Some(block)), Err(WrongChannels { channels: 1 }));
    let block = Block { size: 2, data: None };
    assert_eq!(captured(ByteOrder::Little, 0, Some(block)), Err(WrongChannels { channels: 0 }));
}

#[test]
fn captured_stream_is_recorded() {
    let first = [1u8, 0, 2, 0];
    let second = [3u8, 0, 9, 9];
    let blocks = [
        Some(Block { size: 4, data: Some(&first[..]) }),
        None,
        Some(Block { size: 4, data: None }),
        Some(Block { size: 2, data: Some(&second[..]) }),
    ];
    let mut recording = Recording::new();
    let mut messages = 0;
    for block in blocks {
        if let Some(samples) = captured(ByteOrder::Little, 2, block).unwrap() {
            recording.push(&samples);
            messages += 1;
        }
    }
    assert_eq!(messages, 2);
    assert_eq!(recording.into_samples(), vec![1, 2, 3]);
}

#[test]
fn samples_in_the_machines_order() {
    let bytes = [1u8, 0, 2, 0];
    let block = Block { size: 4, data: Some(&bytes) };
    assert_eq!(captured(ByteOrder::Big, 2, Some(block)), Ok(Some(vec![256, 512])));
}

#[test]
fn recording_keeps_the_order() {
    let mut recording = Recording::new();
    recording.push(&[1, 2]);
    recording.push(&[]);
    recording.push(&[3]);
    assert_eq!(recording.into_samples(), vec![1, 2, 3]);
    assert!(Recording::new().into_samples().is_empty());
}
