# video_sniffer

The verified core of a desktop tool that lists the video streams a browser plays
and downloads them.

- `src/` is the library. Every item of it is verified with Verus.
  - `text`, `lists`, `display`: characters, lists, and sizes in words.
  - `state`: media, downloads, settings.
  - `ids`: identities as texts.
  - `sniffer`: taking in the requests that the browser extension reports, and answering.
  - `intake`: downloads of typed addresses, and of what an earlier start has left.
  - `hls`, `analysis`: playlists, and the qualities that they offer.
  - `aes`: the decryption of segments.
  - `downloader`, `run`: what is noted of a download, and its course.
  - `plan`, `record`: which parts of a download have come, and the record of it on disk.
  - `ffmpeg`: where the program is looked for that turns TS files into MP4 files.
  - `net`: requests that are tried again.
  - `manifest`: the record of a download in parts, in short.
  - `panel`: what the windows show and what the user does in them.
  - `outside`: what the library takes from other crates.
  - the modules whose names end in `_laws`: what holds of all of these together.
- `tests/` runs the library.
- `app/` is the application: windows, server, network and files.
