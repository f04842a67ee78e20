# video2document

Turns a library of lecture videos into Markdown course notes: each video is cut into
segments, each segment is described by the Kimi chat API, the descriptions are merged into
one document per video with a fixed section order, and every output directory gets an
`index.md`.

## Layout

- `src/` — the verified library (Verus). It holds everything the program decides:
  configuration layering and validation, the scan plan (which files are videos, where their
  outputs go, collisions), segment planning, the ffmpeg/ffprobe arguments, the request
  sent to the model and the reading of its answer, merging the segment notes, rendering
  documents and indexes, the cache and reuse rules, retries and the run report.
  Laws about these decisions are stated as public proof functions next to the code.
- `app/` — the program around it: command line, file system, processes, HTTP, JSON and
  TOML, concurrency. It asks the library for every decision.
- `tests/` — tests of the library on concrete values.

Outside crates are called from `src/` only where the logic needs them (chrono for dates,
sha2 and hex for the processing fingerprint, base64 for inline clips, the standard
library's Unicode lower-casing for collision detection); each such call sits behind a
small function whose contract is stated in its doc comment.
