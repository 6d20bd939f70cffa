# clipd

The logic of a replay-buffer clipper, verified with Verus: encoded packets go into a ring, a hotkey
picks the last seconds out of it, and a fragmented-MP4 writer makes a clip of them.

- `src/ring` keeps the most recent packets within a cap on their duration and one on their bytes.
- `src/save` picks the packets of a clip and feeds them to the writer.
- `src/mux` writes the clip: boxes, sample tables, fragments, and the finished movie, and reads its
  duration back.
- `src/status`, `src/watchdog`, `src/engine`, `src/config`, `src/hotkey`, `src/gpu`, `src/logging`:
  what the program knows and decides while it runs.
- `src/ui`: the tray, its notices and icon, the overlay, the list of recent clips, and the settings
  window with its editor.
- `src/cli` reads the command line and plans a run; `src/probe` counts what the probes see.
- `src/check` judges saved clips; `src/rig` measures how far sound and picture are apart.
- `src/constants`, `src/bytes`, `src/text`, `src/wide`, `src/seqs`: what the others build on.

Public proof functions whose comments begin with "Law" state what holds of the library as a whole.

`tests/` runs the library. `app/` is ordinary Rust around it: arguments, files, logs, and the calls
of `ffprobe` and `ffmpeg`.
