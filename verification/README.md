# hive

The verified core of Hive, a local photo library: smart-album query building,
duplicate grouping, batch renaming, event detection, cache eviction, caption
decoding, the geometry of the AI editing tools, and the rest of the library's
decisions, each with a contract proved by Verus.

- `src/` — the library, one module per area of the application. Calls into
  outside crates (path handling, date parsing, content and perceptual hashing,
  MIME guessing, EXIF reading, image decoding and encoding, lossy UTF-8) go
  through small trusted wrappers whose contracts name what they return.
- `tests/` — executable tests of the library against concrete values.
- `app/` — plain Rust around the library: the SQLite store, the file system,
  the EXIF measurements, the floating-point arithmetic (distances,
  image statistics, the diffusion noise schedule) and the JSON records the
  interface exchanges.
