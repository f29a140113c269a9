# aoirecord

Records a Discord voice channel into one Ogg Opus file per speaker.

- `src/` is the verified library:
  - `opus_header`: the `OpusHead` and `OpusTags` header packets, byte for byte;
  - `ogg_sink`: the trusted interface to the `ogg` crate's packet writer;
  - `track`: one speaker's stream (granule positions, the held-back last
    frame, the end-of-stream packet) with its laws;
  - `session`: the voice clock, the SSRC maps, one aligned track per speaker,
    and the per-tick frame plan;
  - `bot`: when a recording runs.
- `app/` is the Discord bot around it: serenity and songbird events, the
  Opus encoder (audiopus), files, command line and signals.
- `tests/` runs the library, reading the produced streams back with `ogg`.
