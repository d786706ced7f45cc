# filmcraft

The decisions of a film production pipeline, written in Verus and proved
against their contracts: prompt construction, storyboard parsing and
patching, ffmpeg argument and timeline planning, hub paths and white
lists, front-matter documents, casting cards, BGM tracks, object claims,
cost grouping, upload checks, route tables and request validation.

Layout:

- `src/` — the verified library. Each module states its behaviour as spec
  functions and proves the executable code against them; properties that
  span several calls are public proof functions named `law_*`.
- `tests/` — ordinary Rust tests of the library on concrete values.
- `app/` — unverified glue: serde forms of the records, JSON answers of
  models, the environment and clock, the hub files on disk, and runners of
  the stage state machines whose model calls are the caller's closures. It
  reads JSON into the library's types (which fields a value has, and of
  which JSON type), looks at the file system (which files exist, which
  directories hold entries) and performs the I/O; the checks and choices
  over what it read are the library's. Sums of money are kept there, in
  floating point.

What is not here: the HTTP server itself (request objects, the SQLite
project and character tables, the task registry shared with background
workers), the model and media clients, and the chat-driven chapter
splitting and character profiling of imported novels. The library holds the
decisions around them: the install gate and the routing of requests, the
replies for missing objects, request checks, id allocation, deletion of
project directories, the storyboard retry, what each generation stage does
with a model's result, and the paths and documents the stages write.

Outside crates used by the library go through a few trusted wrappers with
stated contracts: `base64` (standard encoding and decoding) and `sha2`
(SHA-256), besides some `std` calls (`String::push`, `char::is_alphanumeric`,
`String::from_utf8`, `String::from_utf8_lossy`).
