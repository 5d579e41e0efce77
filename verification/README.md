# vidl

A `yt-dlp` driver: it works out whether a URL is one video, a playlist or a whole channel, picks
the right subtitle tracks per video, sorts a channel's tabs into folders, reads failures for what
went wrong, and patches what was already downloaded (cover art, missing subtitle tracks) without
fetching the media again.

Everything it decides is a library verified with Verus. Everything it touches (programs, files,
the clock, the terminal) belongs to a thin host around it.

```
vidl 'https://www.youtube.com/watch?v=…'
vidl 'https://www.youtube.com/@someone' --into ~/Videos --res 1080
vidl 'https://vimeo.com/12345' --audio
```

## Layout

| | |
|---|---|
| `src/link.rs` | what a URL points at |
| `src/ytdlp/` | yt-dlp's command lines, what its failures mean, the ledger of failed downloads, playlist and tab scans |
| `src/media/` | the subtitle plan of a video, caption lists, ffmpeg and ffprobe command lines, audio tags |
| `src/flow/` | the downloads as step machines: an outcome goes in, what to do next comes out |
| `src/env.rs`, `src/tools.rs`, `src/menu.rs` | what the user asked for, where the programs are, the list of notable flags |
| `src/util/` | text, numbers, paths, dates and colours |
| `app/` | the command line and the host that performs what the machines decide |
| `tests/` | the library on concrete values, whole downloads included |

## How a download runs

Each machine has a specification function `next` from its state and an outcome to its next state
and a reply; its `step` is proved to follow it. A reply holds what to tell the user and one action.
The host performs the action and hands the outcome back, until the action is to return. What holds
of a machine whatever its host reports is stated beside it, in the proof functions whose names
start with `law_`.

## What is trusted

- `String::push` and `str::to_lowercase` of the standard library (`src/util/text.rs`);
- `VorbisComments::push`, `Id3v2Tag::insert_user_text` and `Ilst::insert` of lofty
  (`src/media/tags.rs`).

## Requirements

`yt-dlp` on `PATH`; `ffmpeg` and `ffprobe` for muxing and cover art; `curl` for fetching
thumbnails; `deno` is recommended for YouTube.
