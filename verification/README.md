# shamash

The decision logic of a wake-word Discord music bot, written in Verus with its
behaviour stated as contracts and proved.

The bot listens in a voice channel, hears "bot, play Dracula by Tame Impala",
searches YouTube for the most-viewed result that looks like a real song, and plays
it. The decisions on that path that work on text, bytes and integers are in `src/` and
verified:

- `parser`: normalising a transcript, finding the wake word (with one misheard
  character tolerated for words longer than four letters) and "play", and splitting
  "<title> by <artist>".
- `search`: which search result counts as a song, and which one is picked.
- `audio`, `listener`: which re-sampling method a pair of rates takes, when the
  voice-activity gate cuts an utterance, and which samples the utterance holds.
- `wav`: 16-bit PCM WAV encoding and decoding.
- `config`, `fetch`, `player`, `voice`, `bot`, `pipeline`, `parakeet`, `whisper`:
  configuration and its errors, downloader and transcriber command lines and output,
  whether a download is usable and the order of the download fallback, channel
  choice, join/leave decisions and replies.
- `text`: the string operations the rest is built on, specified over `Seq<char>`.

`app/` is the ordinary Rust around it: Discord and voice plumbing, processes, files,
and the floating-point audio arithmetic (the re-sampling itself, frame levels, the
beep tone). `tests/` runs the library on concrete
values.
