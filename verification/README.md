# yapper

Push-to-talk dictation for Wayland, transcribed on the machine it runs on. The
library under `src/` holds everything that decides or computes, each function
with a contract that Verus proves. What is taken on trust is what a few calls of
others do: `String::push`, `String::from_utf8`, `str::to_lowercase`,
`char::is_alphanumeric`, `i64::from` and the clock of the standard library, and
the two directories that `dirs` names. The program under `app/` holds what touches
the screen, the microphone, the disk, the session bus and the speech engine: it
carries out what the library says is to be done, and tells it what came of that.

| Module | What is in it |
| --- | --- |
| `ui` | the session: what each key, event and answer leads to, and the status shown |
| `transcribe` | what a recognizer is built from, what becomes of what it heard, and the worker's course |
| `models` | the catalogue, languages, sizes, and a download from start to end |
| `picker`, `preferences` | what the dialogs show and change |
| `config`, `cli` | settings and the command line |
| `history`, `moment` | past transcripts, and saying when they were made |
| `replace` | words that are said, and the text written instead |
| `audio`, `stage`, `players`, `output` | recording, the bars' jitter, pausing music, copying and typing |
| `text`, `lines`, `number`, `order`, `path` | what the rest is built on |

Floating point stays in the program: loudness, resampling, the animation, and
the countdown to the end of a quiet recording.
