# vivrt (verified core)

The logic of the vivrt ray-tracing workspace that does not need a GPU,
written in Verus and proved against its contracts.

- `src/error.rs` — OptiX result codes: decoding, `check`, the display text
  of each error, and the compiler-log helper `extract_log`.
- `src/error_laws.rs` — different errors have different messages.
- `src/optix.rs` — the OptiX handle and `init`.
- `src/scalar.rs` — PLY property types, little-endian decoding, and the
  integer that a value becomes when read as `f32` and cast to `usize`/`i32`.
- `src/text.rs` — header text: lines, UTF-8, Unicode whitespace, `trim`,
  `split_whitespace`, `usize` parsing.
- `src/ply_header.rs`, `src/ply_body.rs`, `src/ply.rs` — the binary PLY
  reader, from file bytes (optionally gzip-compressed) to a mesh.
- `src/ply_laws.rs` — properties proved of every mesh the reader returns.
- `src/ply_edits.rs` — edits that leave a mesh unchanged: comment lines,
  elements other than `vertex` and `face`, extra face properties, and
  moving the body within the file.
- `src/ply_face_edits.rs` — more properties declared for the face element,
  with their values in each face record, leave a mesh unchanged.
- `src/ply_edit_chain.rs` — any sequence of those edits leaves a mesh
  unchanged.
- `src/tensor.rs` — PBRT's `tensor_file` container; field names are
  decoded from UTF-8 lossily, and the last field of a name wins.
- `src/bsdf_grid.rs` — the shapes that the BSDF approximation accepts and
  the indices of the entries it samples.

`app/` holds what stays outside the proofs: loading the CUDA driver with
`libloading`, reading files, converting stored values to `f32`, the floating-point part of the
BSDF approximation, `Display` for `OptixError`, and
the `anyhow` adapter for `cudarc` errors.
