# tmf

Reading and writing of 3D meshes in the tight model format (TMF), with the integer side of
the format verified by Verus.

- `src/` is the verified library: the unaligned bit reader and writer, the framing of files,
  meshes and segments, the triangle, vertex, normal, uv, tangent and custom data encodings
  (as integer codes), the merging and splitting of segments before writing, the mesh
  container, the .obj line kinds and index handling, and the index utilities (pruning, unifying,
  reordering). Its laws (proof functions named `lemma_*_roundtrip`, `lemma_*_effect`,
  `lemma_written_mesh_rebuilds`, ...) state what reading gives back of writing.
- `app/` is the unverified rest: float quantization of the geometry, file I/O, the `.obj`
  text format, triangulation, and the integrity checks of float data.
- `tests/` exercises the library on concrete values.
