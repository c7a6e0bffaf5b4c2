# seed_io

Conversion of 3D and CAD interchange files (glTF 2.0, STEP AP214/AP242,
USD) to and from one scene model, with the byte-level and text-level work
verified by Verus.

## Layout

- `src/` — the verified library.
  - `bytes.rs`, `text.rs` — little-endian integers, character scanning,
    decimal notation, and the few calls into `std` and `base64` that the
    library trusts.
  - `error.rs`, `scene.rs`, `registry.rs` — errors, the format-neutral
    vocabulary (textures, samplers, alpha modes, units, axes) and the keys
    of the format registry.
  - `formats/gltf` — GLB framing and parsing, buffers and data URIs,
    buffer views and index accessors, textures, samplers, the scene nodes
    of a node tree and the resource builder of the writer.
  - `formats/step` — the ISO 10303-21 grammar, entity conversion, the
    entity graph, string escaping and the entities of a written mesh.
  - `formats/usd` — USDC and USDZ detection, the USDA grammar (values,
    metadata, attributes, relationships, prims and the stage), names,
    escapes and the indented line builder.
  - `formats/seed.rs`, `layout/` — Seed format detection, grid placement
    and alignment.
- `tests/` — tests of the library.
- `app/` — the scene model (floating-point geometry, materials and
  transforms), the format registry, and the readers and writers that
  convert between the scene and the library's values.
