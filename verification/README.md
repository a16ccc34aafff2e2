# voice_input

Voice input for Wayland desktops: hold a key, speak, release, and the transcript
is pasted into the focused application.

`src/` is a Verus library with the decisions of the dictation pipeline, each
with a proved contract. Samples, detectors, resamplers and thread handles are
opaque to it: it moves them, and asks for what has to be computed on them
through functions that the caller hands in.

| Module | What it decides |
|---|---|
| `audio` | how an input device is opened, how a captured buffer is published, which mono samples reach the resampler when |
| `speech::vad` | how a stream of samples is sliced into speech segments |
| `speech::worker` | how a slice becomes a text, and when the worker skips, waits or exits |
| `tray` | the appearance of the tray icon, its menu and what the items do |
| `app`, `state`, `error` | application state, configuration and errors |
| `pieces`, `text` | streams cut into pieces of one size; white space at the ends of a text |

The modules `audio_laws`, `conversion_laws`, `speech::vad_laws`,
`speech::push_laws` and `speech::worker_laws`, and the `law_` functions of
`pieces`, `text` and `tray`, state what holds of every stream, slice and state.

`app/` is the application around the library: cpal for capture, rubato for
resampling, Silero for voice activity, whisper for transcription and ksni for
the tray. `tests/` runs the library on concrete values.
