use autospeech2speech::device::{requested_access, Access};
use autospeech2speech::keys::{hot_key, HotKey, KeyState};
use autospeech2speech::session::{KeyAction, State};
use autospeech2speech::speech::{is_accepted, speech_request, Download};

const KEYS: [HotKey; 3] = [HotKey::Replay, HotKey::Talk, HotKey::Other];
const STATES: [KeyState; 2] = [KeyState::Pressed, KeyState::Released];

#[test]
fn access_by_flag() {
    assert_eq!(
        requested_access(libc::O_RDONLY),
        Access { read: false, write: false }
    );
    assert_eq!(
        requested_access(libc::O_WRONLY),
        Access { read: false, write: true }
    );
    assert_eq!(
        requested_access(libc::O_RDWR | libc::O_NONBLOCK),
        Access { read: true, write: true }
    );
    assert_eq!(
        requested_access(libc::O_NONBLOCK),
        Access { read: false, write: false }
    );
}

#[test]
fn hot_keys() {
    assert_eq!(hot_key(97), HotKey::Replay);
    assert_eq!(hot_key(54), HotKey::Talk);
    assert_eq!(hot_key(42), HotKey::Other);
    assert_eq!(hot_key(0), HotKey::Other);
    assert_eq!(hot_key(0x1_0061), HotKey::Replay);
    assert_eq!(
        hot_key(evdev::Key::KEY_RIGHTSHIFT.code() as u32),
        HotKey::Talk
    );
}

#[test]
fn talk_key_is_held() {
    let mut state: State<u8> = State::new();
    assert!(matches!(
        state.on_key(HotKey::Talk, KeyState::Released),
        KeyAction::Ignore
    ));
    assert!(matches!(
        state.on_key(HotKey::Talk, KeyState::Pressed),
        KeyAction::Record
    ));
    state.on_started(7);
    assert!(matches!(
        state.on_key(HotKey::Talk, KeyState::Pressed),
        KeyAction::Ignore
    ));
    assert!(matches!(
        state.on_key(HotKey::Talk, KeyState::Released),
        KeyAction::Stop(7)
    ));
    assert!(matches!(state, State::Recording(7)));
}

#[test]
fn nothing_to_replay_at_first() {
    let state: State<u8> = State::new();
    for key_state in STATES {
        assert!(matches!(
            state.on_key(HotKey::Replay, key_state),
            KeyAction::Ignore
        ));
        assert!(matches!(
            state.on_key(HotKey::Other, key_state),
            KeyAction::Ignore
        ));
    }
}

#[test]
fn busy_program_ignores_keys() {
    let mut state: State<u8> = State::new();
    state.on_started(1);
    state.on_encoded();
    assert!(matches!(state, State::Generating));
    for key in KEYS {
        for key_state in STATES {
            assert!(matches!(state.on_key(key, key_state), KeyAction::Ignore));
        }
    }
    assert!(state.on_answered(true));
    assert!(matches!(state, State::Playing));
    for key in KEYS {
        for key_state in STATES {
            assert!(matches!(state.on_key(key, key_state), KeyAction::Ignore));
        }
    }
}

#[test]
fn answer_is_replayed() {
    let mut state: State<u8> = State::new();
    for answer in [vec![1u8, 2, 3], vec![4]] {
        state.on_started(1);
        state.on_encoded();
        assert!(state.on_answered(true));
        state.on_downloaded(answer.clone());
        match state.on_key(HotKey::Replay, KeyState::Pressed) {
            KeyAction::Replay(mp3) => assert_eq!(mp3, answer),
            _ => panic!("the answer is not played again"),
        }
        assert!(matches!(
            state.on_key(HotKey::Replay, KeyState::Released),
            KeyAction::Ignore
        ));
        assert!(matches!(
            state.on_key(HotKey::Talk, KeyState::Pressed),
            KeyAction::Record
        ));
    }
}

#[test]
fn refused_phrase_changes_nothing() {
    let mut state: State<u8> = State::new();
    state.on_started(1);
    state.on_encoded();
    assert!(!state.on_answered(false));
    assert!(matches!(state, State::Generating));
}

#[test]
fn request_to_the_service() {
    let request = speech_request("voice", "key", " \tBearer token\r\n");
    assert_eq!(
        request.url,
        "https://api.elevenlabs.io/v1/speech-to-speech/voice/stream?optimize_streaming_latency=4"
    );
    assert_eq!(request.accept, "*/*");
    assert_eq!(request.api_key, "key");
    assert_eq!(request.authorization, "Bearer token");
    assert_eq!(request.model_id, "eleven_english_sts_v2");
    assert_eq!(request.file_name, "file.mp3");
}

#[test]
fn success_by_status() {
    for status in [200u16, 201, 299] {
        assert!(is_accepted(status));
    }
    for status in [0u16, 199, 300, 401, 500, 999] {
        assert!(!is_accepted(status));
    }
}

#[test]
fn authorization_without_margins() {
    assert_eq!(speech_request("", "", "\u{3000}a b\u{a0}\n").authorization, "a b");
    assert_eq!(speech_request("", "", " \n\t ").authorization, "");
    assert_eq!(speech_request("", "", "\u{200b}x").authorization, "\u{200b}x");
}

#[test]
fn download_is_kept_and_decoded() {
    let mut decoder = Vec::new();
    let mut download = Download::new();
    assert!(!download.on_data(&mut decoder, &[1, 2]));
    assert!(!download.on_data(&mut decoder, &[]));
    assert!(!download.on_data(&mut decoder, &[3]));
    assert_eq!(decoder, vec![1, 2, 3]);
    assert_eq!(download.on_end(), (vec![1, 2, 3], true));
}
