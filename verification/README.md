# clipboard-tts

A daemon that watches the clipboard and reads aloud what you copy, through
Google Cloud Text-to-Speech, saving each clip as an MP3 with the text embedded
as an ID3 lyrics frame.

- `src/` is the verified library:
  - `sanitizer`: `sanitize` (runs of ASCII letters, digits and apostrophes joined
    by single spaces), `sanitize_option` (skips code, paths, URLs and indented
    text), and `TextFilter`, the include/exclude regex filter.
  - `pattern`: `CompiledPattern`, a regex compiled by `regex::Regex::new`
    together with the pattern text it was compiled from.
  - `clipboard`: `ClipboardEvent`, `hash_str`, and `WatchState`, the
    deduplicating step of the clipboard watcher.
  - `tts`: `preview`, `save_path`, `cap_text` and `plan_synthesis`, which decide
    what is sent to the speech service and where its audio is saved.
- `app/main.rs` is the program around it: arguments, the clipboard poll loop,
  the speech service call, playback and file writing.
