# voxel_lab

A verified library for building voxel characters from canonical kits and
directional sprite sheets, written in Verus.

- `src/` holds the library. Every function there carries a `requires` /
  `ensures` contract that Verus proves: kit, bake-spec, layout and pose
  validation; neutral assembly and placement order; fusion and cleanup
  edits with their replay; structural admission; visual-hull carving;
  rigid-part placement and connectivity repair; PNG decoding and
  contact-sheet rendering through the `png` crate; content hashing through
  `sha2`.
- `tests/` runs the library on concrete inputs.
- `app/` is the command-line program: argument handling, file access,
  JSON documents (serde) and the floating-point sampling of posed parts.
