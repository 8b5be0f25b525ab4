use autospeech2speech::pcm::{read_samples, ByteOrder};
use autospeech2speech::playback::{
    chunk_info, requested_samples, AudioState, ChunkInfo, Fill, Incoming,
};
use std::sync::mpsc::channel;

fn samples(out: &[u8]) -> Vec<i16> {
    read_samples(ByteOrder::Little, out, out.len() / 2)
}

#[test]
fn rest_of_a_chunk_is_kept() {
    let (tx, rx) = channel();
    let mut state = AudioState::new(rx, ByteOrder::Little);
    tx.send(vec![1, 2, 3, 4, 5]).unwrap();
    tx.send(vec![6, 7, 8]).unwrap();
    let mut out = [0xffu8; 8];
    assert_eq!(state.fill(&mut out, 0, 4), (4, Fill::Complete));
    assert_eq!(samples(&out), vec![1, 2, 3, 4]);
    assert_eq!(state.fill(&mut out, 0, 2), (2, Fill::Complete));
    assert_eq!(samples(&out), vec![5, 6, 3, 4]);
    assert_eq!(state.fill(&mut out, 0, 2), (2, Fill::Complete));
    assert_eq!(samples(&out), vec![7, 8, 3, 4]);
}

#[test]
fn silence_fills_a_starved_request() {
    let (tx, rx) = channel();
    let mut state = AudioState::new(rx, ByteOrder::Little);
    tx.send(vec![1, 2]).unwrap();
    let mut out = [0xffu8; 12];
    assert_eq!(state.fill(&mut out, 0, 5), (2, Fill::Starved));
    assert_eq!(samples(&out), vec![1, 2, 0, 0, 0, -1]);
    tx.send(vec![3]).unwrap();
    assert_eq!(state.fill(&mut out, 0, 1), (1, Fill::Complete));
    assert_eq!(samples(&out), vec![3, 2, 0, 0, 0, -1]);
}

#[test]
fn closed_channel_is_reported() {
    let (tx, rx) = channel();
    let mut state = AudioState::new(rx, ByteOrder::Little);
    tx.send(vec![9]).unwrap();
    drop(tx);
    let mut out = [0xffu8; 6];
    assert_eq!(state.fill(&mut out, 0, 1), (1, Fill::Complete));
    assert_eq!(state.fill(&mut out, 0, 3), (0, Fill::Disconnected));
    assert_eq!(samples(&out), vec![9, -1, -1]);
}

#[test]
fn empty_request_receives_nothing() {
    let (tx, rx) = channel();
    let mut state = AudioState::new(rx, ByteOrder::Little);
    tx.send(vec![1]).unwrap();
    drop(tx);
    let mut out = [0u8; 2];
    assert_eq!(state.fill(&mut out, 0, 0), (0, Fill::Complete));
    assert_eq!(state.fill(&mut out, 0, 1), (1, Fill::Complete));
    assert_eq!(samples(&out), vec![1]);
}

#[test]
fn empty_chunks_are_passed_over() {
    let (tx, rx) = channel();
    let mut state = AudioState::new(rx, ByteOrder::Little);
    tx.send(vec![1]).unwrap();
    tx.send(vec![]).unwrap();
    tx.send(vec![]).unwrap();
    tx.send(vec![2, 3]).unwrap();
    let mut out = [0u8; 4];
    assert_eq!(state.fill(&mut out, 0, 2), (2, Fill::Complete));
    assert_eq!(samples(&out), vec![1, 2]);
    assert_eq!(state.fill(&mut out, 0, 1), (1, Fill::Complete));
    assert_eq!(samples(&out), vec![3, 2]);
}

#[test]
fn request_is_taken_up_where_it_stopped() {
    let (tx, rx) = channel();
    let mut state = AudioState::new(rx, ByteOrder::Little);
    tx.send(vec![5, 6, 7]).unwrap();
    let mut out = [0u8; 6];
    assert_eq!(state.fill(&mut out, 1, 3), (3, Fill::Complete));
    assert_eq!(samples(&out), vec![0, 5, 6]);
}

#[test]
fn bytes_in_the_machines_order() {
    let (tx, rx) = channel();
    let mut state = AudioState::new(rx, ByteOrder::Big);
    tx.send(vec![0x0102, -2]).unwrap();
    let mut out = [0u8; 6];
    assert_eq!(state.fill(&mut out, 0, 3), (2, Fill::Starved));
    assert_eq!(out, [1, 2, 0xff, 0xfe, 0, 0]);
}

#[test]
fn samples_go_out_once_and_in_order() {
    let (tx, rx) = channel();
    let mut state = AudioState::new(rx, ByteOrder::Little);
    let mut next = 0i16;
    for size in [3usize, 1, 7, 2, 11, 4] {
        let chunk: Vec<i16> = (0..size as i16).map(|i| next + i).collect();
        next += size as i16;
        tx.send(chunk).unwrap();
    }
    let mut heard = Vec::new();
    for size in [2usize, 5, 1, 8, 6, 6] {
        let mut out = vec![0u8; size * 2];
        let (reached, fill) = state.fill(&mut out, 0, size);
        assert_eq!((reached, fill), (size, Fill::Complete));
        heard.extend(samples(&out));
    }
    assert_eq!(heard, (0..28).collect::<Vec<i16>>());
}

#[test]
fn each_finding_is_acted_on() {
    let (_tx, rx) = channel::<Vec<i16>>();
    let mut state = AudioState::new(rx, ByteOrder::Little);
    let mut out = [0xffu8; 6];
    assert_eq!(
        state.accept(Incoming::Disconnected, &mut out, 0, 3),
        Fill::Disconnected
    );
    assert_eq!(samples(&out), vec![-1, -1, -1]);
    assert_eq!(state.accept(Incoming::Empty, &mut out, 2, 3), Fill::Starved);
    assert_eq!(samples(&out), vec![-1, -1, 0]);
    assert_eq!(
        state.accept(Incoming::Chunk(vec![4, 5, 6]), &mut out, 0, 3),
        Fill::Unfinished
    );
    assert_eq!(state.play_pending(&mut out, 1, 3), 3);
    assert_eq!(samples(&out), vec![-1, 4, 5]);
    assert_eq!(state.play_pending(&mut out, 0, 3), 1);
    assert_eq!(samples(&out), vec![6, 4, 5]);
    assert_eq!(state.play_pending(&mut out, 0, 3), 0);
}

#[test]
fn frames_to_samples_and_bytes() {
    assert_eq!(requested_samples(0), 0);
    assert_eq!(requested_samples(1024), 2048);
    assert_eq!(
        chunk_info(2048),
        ChunkInfo { offset: 0, stride: 4, size: 4096 }
    );
    assert_eq!(chunk_info(7), ChunkInfo { offset: 0, stride: 4, size: 12 });
    assert_eq!(chunk_info(0), ChunkInfo { offset: 0, stride: 4, size: 0 });
}

#[test]
fn whole_frames_stay_whole() {
    let (tx, rx) = channel();
    let mut state = AudioState::new(rx, ByteOrder::Little);
    tx.send(vec![1, -1, 2, -2, 3, -3]).unwrap();
    let mut out = [0u8; 16];
    let (reached, _) = state.fill(&mut out, 0, requested_samples(2));
    assert_eq!(chunk_info(reached).size, 8);
    let (reached, fill) = state.fill(&mut out, 0, requested_samples(4));
    assert_eq!((reached, fill), (2, Fill::Starved));
    assert_eq!(samples(&out), vec![3, -3, 0, 0, 0, 0, 0, 0]);
    assert_eq!(chunk_info(reached).size, 4);
}
