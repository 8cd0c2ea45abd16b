# camera

The verified core of the Newbound camera app, in Verus.

- `src/` is the library, every function verified:
  - `text` — `lines`, `trim`, one-character `split`, prefixes and byte-offset
    slicing, specified over `Seq<char>`;
  - `decimal` — integers as `to_string` writes them and `parse::<i64>` reads
    them, with the round trip proved;
  - `clock` — UTC calendar fields of a millisecond timestamp (chrono), with
    the date tied to its day count;
  - `paths` — where segments and keyframes are filed, keyframe events and
    URLs, with the laws that one path stands for exactly one two-second
    window and that a keyframe URL leads back to its file;
  - `commands` — the command lines of capture, segmenting, live view,
    snapshots and recording;
  - `probe` — reading the libcamera and V4L2 camera listings, and the probe as
    a step function;
  - `session` — recording sessions in the app's metadata, with the laws that
    only the current session captures and that stopping ends every session;
  - `settings` — the stored camera settings and their defaults;
  - `streams` — the decisions of the stream loops, with the law that the
    segment writer archives segments in order, each once.
- `app/` holds the app-server commands: process calls, files, threads and the
  shared data store, around the library.
- `tests/` runs the library on concrete inputs.
