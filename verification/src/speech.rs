//! The speech-to-speech service: the request and the download of the answer.

use vstd::prelude::*;

verus! {

/// The characters that Unicode calls white space.
pub open spec fn is_white_space(c: char) -> bool {
    ||| '\u{9}' <= c <= '\u{d}'
    ||| c == '\u{20}'
    ||| c == '\u{85}'
    ||| c == '\u{a0}'
    ||| c == '\u{1680}'
    ||| '\u{2000}' <= c <= '\u{200a}'
    ||| c == '\u{2028}'
    ||| c == '\u{2029}'
    ||| c == '\u{202f}'
    ||| c == '\u{205f}'
    ||| c == '\u{3000}'
}

/// `text` without the white space that it starts with.
pub open spec fn trimmed_start(text: Seq<char>) -> Seq<char>
    decreases text.len(),
{
    if text.len() > 0 && is_white_space(text.first()) {
        trimmed_start(text.drop_first())
    } else {
        text
    }
}

/// `text` without the white space that it ends with.
pub open spec fn trimmed_end(text: Seq<char>) -> Seq<char>
    decreases text.len(),
{
    if text.len() > 0 && is_white_space(text.last()) {
        trimmed_end(text.drop_last())
    } else {
        text
    }
}

/// `text` without the white space around it.
pub open spec fn trimmed(text: Seq<char>) -> Seq<char> {
    trimmed_end(trimmed_start(text))
}

/// `str::trim`: what is left of `text` without the white space, as Unicode has
/// it, at its start and at its end.
pub assume_specification[ str::trim ](text: &str) -> (rest: &str)
    ensures
        rest@ == trimmed(text@),
;

/// What a request to the service says beside the recording and the voice
/// settings.
pub struct SpeechRequest {
    pub url: String,
    /// The `accept` header.
    pub accept: String,
    /// The `xi-api-key` header.
    pub api_key: String,
    /// The `Authorization` header.
    pub authorization: String,
    /// The `model_id` field of the form.
    pub model_id: String,
    /// The file name that the recording is sent under.
    pub file_name: String,
}

/// The address that a phrase to be spoken by `voice_id` is sent to.
pub open spec fn speech_url(voice_id: Seq<char>) -> Seq<char> {
    "https://api.elevenlabs.io/v1/speech-to-speech/"@ + voice_id
        + "/stream?optimize_streaming_latency=4"@
}

/// The request that has a phrase spoken by `voice_id`, under `api_key` and with
/// the contents `auth` of the authorization file.
pub fn speech_request(voice_id: &str, api_key: &str, auth: &str) -> (request: SpeechRequest)
    ensures
        request.url@ == speech_url(voice_id@),
        request.url@ == "https://api.elevenlabs.io/v1/speech-to-speech/"@ + voice_id@
            + "/stream?optimize_streaming_latency=4"@,
        request.accept@ == "*/*"@,
        request.api_key@ == api_key@,
        request.authorization@ == trimmed(auth@),
        request.model_id@ == "eleven_english_sts_v2"@,
        request.file_name@ == "file.mp3"@,
{
    let mut url = "https://api.elevenlabs.io/v1/speech-to-speech/".to_owned();
    url.append(voice_id);
    url.append("/stream?optimize_streaming_latency=4");
    SpeechRequest {
        url,
        accept: "*/*".to_owned(),
        api_key: api_key.to_owned(),
        authorization: auth.trim().to_owned(),
        model_id: "eleven_english_sts_v2".to_owned(),
        file_name: "file.mp3".to_owned(),
    }
}

/// Whether the service's answer with the HTTP status `status` is a success.
pub fn is_accepted(status: u16) -> (accepted: bool)
    ensures
        accepted <==> 200 <= status < 300,
{
    200 <= status && status < 300
}

/// The download of an answer: what has arrived is handed to the decoder and kept
/// to be played again.
pub struct Download {
    copy: Vec<u8>,
}

impl Download {
    /// The bytes that have arrived.
    pub closed spec fn view(&self) -> Seq<u8> {
        self.copy@
    }

    /// A download of which nothing has arrived.
    pub fn new() -> (download: Download)
        ensures
            download@ == Seq::<u8>::empty(),
    {
        Download { copy: Vec::new() }
    }

    /// Adds `data`, which has just arrived, to what is kept and to what the
    /// decoder reads. Returns whether the decoder is to be told that the download
    /// is complete.
    pub fn on_data(&mut self, decoder: &mut Vec<u8>, data: &[u8]) -> (finished: bool)
        ensures
            final(self)@ == old(self)@ + data@,
            final(decoder)@ == old(decoder)@ + data@,
            !finished,
    {
        decoder.extend_from_slice(data);
        self.copy.extend_from_slice(data);
        false
    }

    /// The download is complete. Returns the answer, and whether the decoder is
    /// to be told so.
    pub fn on_end(self) -> (result: (Vec<u8>, bool))
        ensures
            result.0@ == self@,
            result.1,
    {
        (self.copy, true)
    }
}

/// What is kept, or has been handed to the decoder, after `data` has arrived
/// piece by piece and `start` was there before.
pub open spec fn arrived(start: Seq<u8>, data: Seq<Seq<u8>>) -> Seq<u8>
    decreases data.len(),
{
    if data.len() == 0 {
        start
    } else {
        arrived(start, data.drop_last()) + data.last()
    }
}

/// However an answer is cut up on its way, the answer that is kept is what
/// arrived, and the decoder has been handed the same bytes.
pub proof fn answer_kept_whole(data: Seq<Seq<u8>>)
    ensures
        arrived(Seq::empty(), data) == data.flatten(),
    decreases data.len(),
{
    if data.len() > 0 {
        answer_kept_whole(data.drop_last());
        data.drop_last().lemma_flatten_push(data.last());
        assert(data.drop_last().push(data.last()) == data);
    }
}

/// What has arrived first is the start of what has arrived later.
proof fn arrived_grows(data: Seq<Seq<u8>>, first: int, later: int)
    requires
        0 <= first <= later <= data.len(),
    ensures
        arrived(Seq::empty(), data.take(first)).is_prefix_of(
            arrived(Seq::empty(), data.take(later)),
        ),
    decreases later,
{
    if first < later {
        arrived_grows(data, first, later - 1);
        assert(data.take(later).drop_last() == data.take(later - 1));
    }
}

/// A notice that is handled when so many pieces of a download have arrived, and on
/// which so many frames are asked for.
pub struct Handling {
    pub pieces: int,
    pub frames: nat,
}

/// The notices of a download of `data` before it is complete, handled as
/// `handlings` say.
pub open spec fn early_notices(
    data: Seq<Seq<u8>>,
    handlings: Seq<Handling>,
) -> Seq<crate::decode::Heard> {
    handlings.map_values(
        |handling: Handling|
            crate::decode::Heard {
                data: arrived(Seq::empty(), data.take(handling.pieces)),
                finished: false,
                frames: handling.frames,
            },
    )
}

/// Playing an answer while it is downloaded sends on the same frames, in the same
/// order, as playing the kept copy again, whenever the decoder gets to the
/// notices. This holds of every decoder whose answer is settled by the lookahead.
pub proof fn replayed_as_first_played<D>(
    decoder: crate::decode::Decoder<D>,
    state: D,
    data: Seq<Seq<u8>>,
    handlings: Seq<Handling>,
    frames: nat,
)
    requires
        crate::decode::lookahead_decides(decoder),
        forall|i: int|
            #![trigger handlings[i]]
            0 <= i < handlings.len() ==> 0 <= handlings[i].pieces <= data.len(),
        forall|i: int, j: int|
            #![trigger handlings[i], handlings[j]]
            0 <= i <= j < handlings.len() ==> handlings[i].pieces <= handlings[j].pieces,
        crate::decode::all_handled(
            decoder,
            crate::decode::fresh(state),
            early_notices(data, handlings).push(
                crate::decode::finished_notice(arrived(Seq::empty(), data), frames),
            ),
        ),
    ensures
        ({
            let early = early_notices(data, handlings);
            let answer = arrived(Seq::empty(), data);
            let replay = crate::decode::finished_notice(
                answer,
                crate::decode::frames_asked(early) + frames,
            );
            &&& crate::decode::handled(decoder, crate::decode::fresh(state), replay)
            &&& crate::decode::after_notices(
                decoder,
                crate::decode::fresh(state),
                early.push(crate::decode::finished_notice(answer, frames)),
            ).sent == crate::decode::after_notice(
                decoder,
                crate::decode::fresh(state),
                replay,
            ).sent
        }),
{
    let early = early_notices(data, handlings);
    let answer = arrived(Seq::empty(), data);
    assert(data.take(data.len() as int) == data);
    assert forall|i: int| #![trigger early[i]] 0 <= i < early.len() implies !early[i].finished
        && early[i].data.is_prefix_of(answer) by {
        arrived_grows(data, handlings[i].pieces, data.len() as int);
    }
    assert forall|i: int, j: int| #![trigger early[i], early[j]] 0 <= i <= j < early.len() implies
        early[i].data.len() <= early[j].data.len() by {
        arrived_grows(data, handlings[i].pieces, handlings[j].pieces);
    }
    crate::decode::replay_sends_the_same(decoder, state, answer, early, frames);
}

/// The authorization neither starts nor ends with white space, so that the end
/// of the file's last line is not sent.
pub proof fn authorization_has_no_margin(auth: Seq<char>)
    ensures
        trimmed(auth).len() > 0 ==> !is_white_space(trimmed(auth).first()) && !is_white_space(
            trimmed(auth).last(),
        ),
{
    trimmed_start_has_no_margin(auth);
    trimmed_end_keeps_start(trimmed_start(auth));
}

proof fn trimmed_start_has_no_margin(text: Seq<char>)
    ensures
        trimmed_start(text).len() > 0 ==> !is_white_space(trimmed_start(text).first()),
    decreases text.len(),
{
    if text.len() > 0 && is_white_space(text.first()) {
        trimmed_start_has_no_margin(text.drop_first());
    }
}

proof fn trimmed_end_keeps_start(text: Seq<char>)
    ensures
        trimmed_end(text).len() > 0 ==> {
            &&& trimmed_end(text).first() == text.first()
            &&& !is_white_space(trimmed_end(text).last())
        },
    decreases text.len(),
{
    if text.len() > 0 && is_white_space(text.last()) {
        trimmed_end_keeps_start(text.drop_last());
    }
}

/// White space is what Unicode's property of that name covers, by code point.
pub proof fn white_space_codes(c: char)
    ensures
        is_white_space(c) <==> {
            let code = c as int;
            9 <= code <= 13 || code == 32 || code == 133 || code == 160 || code == 5760 || 8192
                <= code <= 8202 || code == 8232 || code == 8233 || code == 8239 || code == 8287
                || code == 12288
        },
{
}

/// What trimming leaves is a part of the text in one piece, with nothing but white
/// space before and after it, and with none at its own ends. Returns where it
/// starts and ends.
pub proof fn trimmed_is_the_middle(text: Seq<char>) -> (bounds: (int, int))
    ensures
        0 <= bounds.0 <= bounds.1 <= text.len(),
        trimmed(text) == text.subrange(bounds.0, bounds.1),
        forall|i: int|
            0 <= i < bounds.0 || bounds.1 <= i < text.len() ==> is_white_space(#[trigger] text[i]),
        bounds.0 < bounds.1 ==> !is_white_space(text[bounds.0]) && !is_white_space(
            text[bounds.1 - 1],
        ),
{
    let from = trimmed_start_from(text);
    let rest = text.skip(from);
    let kept = trimmed_end_to(rest);
    assert(rest.take(kept) == text.subrange(from, from + kept));
    assert forall|i: int|
        0 <= i < from || from + kept <= i < text.len() implies is_white_space(
        #[trigger] text[i],
    ) by {
        if i >= from {
            assert(rest[i - from] == text[i]);
        }
    }
    if kept > 0 {
        assert(rest[0] == text[from]);
        assert(rest[kept - 1] == text[from + kept - 1]);
    }
    (from, from + kept)
}

proof fn trimmed_start_from(text: Seq<char>) -> (from: int)
    ensures
        0 <= from <= text.len(),
        trimmed_start(text) == text.skip(from),
        forall|i: int| 0 <= i < from ==> is_white_space(#[trigger] text[i]),
        from < text.len() ==> !is_white_space(text[from]),
    decreases text.len(),
{
    if text.len() > 0 && is_white_space(text.first()) {
        let rest = text.drop_first();
        let from = trimmed_start_from(rest);
        assert(rest.skip(from) == text.skip(from + 1));
        assert forall|i: int| 0 <= i < from + 1 implies is_white_space(#[trigger] text[i]) by {
            if i > 0 {
                assert(rest[i - 1] == text[i]);
            }
        }
        if from < rest.len() {
            assert(rest[from] == text[from + 1]);
        }
        from + 1
    } else {
        assert(text.skip(0) == text);
        0
    }
}

proof fn trimmed_end_to(text: Seq<char>) -> (to: int)
    ensures
        0 <= to <= text.len(),
        trimmed_end(text) == text.take(to),
        forall|i: int| to <= i < text.len() ==> is_white_space(#[trigger] text[i]),
        to > 0 ==> !is_white_space(text[to - 1]),
    decreases text.len(),
{
    if text.len() > 0 && is_white_space(text.last()) {
        let rest = text.drop_last();
        let to = trimmed_end_to(rest);
        assert(rest.take(to) == text.take(to));
        assert forall|i: int| to <= i < text.len() implies is_white_space(#[trigger] text[i]) by {
            if i < rest.len() {
                assert(rest[i] == text[i]);
            }
        }
        if to > 0 {
            assert(rest[to - 1] == text[to - 1]);
        }
        to
    } else {
        assert(text.take(text.len() as int) == text);
        text.len() as int
    }
}

/// The address of a voice is its id between two fixed parts, letter for letter, so
/// that different voices have different addresses.
pub proof fn address_of_voice(voice1: Seq<char>, voice2: Seq<char>)
    ensures
        speech_url(voice1) == "https://api.elevenlabs.io/v1/speech-to-speech/"@ + voice1
            + "/stream?optimize_streaming_latency=4"@,
        speech_url(voice1) == speech_url(voice2) ==> voice1 == voice2,
{
    let front = "https://api.elevenlabs.io/v1/speech-to-speech/"@;
    let back = "/stream?optimize_streaming_latency=4"@;
    if speech_url(voice1) == speech_url(voice2) {
        assert((front + voice1 + back).len() == (front + voice2 + back).len());
        assert((front + voice1 + back).subrange(
            front.len() as int,
            (front.len() + voice1.len()) as int,
        ) == voice1);
        assert((front + voice2 + back).subrange(
            front.len() as int,
            (front.len() + voice2.len()) as int,
        ) == voice2);
    }
}

} // verus!
