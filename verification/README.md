# autospeech2speech

Hold the right shift key to talk. When it is let go, the phrase is sent to a
speech-to-speech service, and the answer is played while it is downloaded. The
right control key plays the last answer again.

- `src/` is the library, verified with Verus: the stages of a phrase and the
  keys (`session`, `keys`), the samples and their bytes (`pcm`), feeding the
  playback stream (`playback`), taking samples from the microphone (`capture`),
  the bookkeeping of encoding and decoding (`encode`, `decode`), the request and
  the download (`speech`) and the access to input devices (`device`).
- `app/` is the program around it: PipeWire, libinput, LAME, minimp3 and HTTP.
- `tests/` holds the library's tests.
