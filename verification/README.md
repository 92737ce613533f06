# mori-ear

A voice input tool: a hotkey starts and stops a recording, the recording is transcribed while it is
being made, and the text is pasted where the user types. It also transcribes files
(`mori-ear --input FILE`) and serves other programs on the same machine (`mori-ear --serve`).

## Layout

- `src/` is the library `mori_ear`, verified with Verus. It decides; it does no input or output.
- `app/` is the program around it: microphone, clipboard, windows, HTTP, files and threads. Loudness
  is measured there too, in floating point, and handed to the library as questions about stretches
  of a recording ("is this loud?").
- `tests/` runs the library.

## The library

| Modules | What they decide |
| --- | --- |
| `cli`, `config` | what is asked for on the command line, how settings are merged and which go together |
| `hotkey`, `wayland_hotkey` | which keys a hotkey names, and when they go down and up |
| `audio`, `voice_activity` | what of a recording is silence, where it may be cut, whether somebody speaks |
| `wav`, `local_stt`, `stt`, `stt_prompt`, `cleanup` | what is sent to recognisers and to the model that cleans up, and how their replies are read |
| `watchdog`, `pipeline` | which recogniser is asked next, and what becomes of a transcript or a failure |
| `session`, `preview`, `paste` | when a recording starts and stops, in which order texts appear, which keys paste them |
| `multipart`, `service`, `calendar` | which requests are served, with what, and how the service is found |
| `mode_command`, `dictation`, `mode_ui`, `mode_voice` | switching between recognisers by voice or in a window, and which words do not |
| `text`, `float`, `json` | texts, numbers, floating point arithmetic in whole numbers and JSON documents |

The contracts state each result as a function of the arguments. What relates several functions is
stated by the public proof functions whose names begin with `law_`: for example, that segments are
pasted in the order in which they were said, that a form which is written out is read back, that
`local` never asks a recogniser elsewhere, that a switch of modes keeps every other setting, and
that a failed clean-up loses no text.

## What is not proved

Calls into `serde_json`, `hound`, `webrtc-vad` and a few functions of the standard library stand
behind small functions marked `#[verifier::external_body]`. The comment above each of them says what
is believed of the call. They are in `json.rs`, `wav.rs`, `voice_activity.rs`, `multipart.rs` and `text.rs`.
