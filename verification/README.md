# stl_thumb

A thumbnail generator for 3D model files (STL, OBJ, 3MF). The logic that does
not need a GPU is a Verus library whose functions carry contracts proved by
Verus; the command-line front end and the wgpu renderer are ordinary Rust.

## Layout

- `src/` — the verified library
  - `mesh.rs`: meshes built from STL, OBJ and 3MF files, bounding boxes,
    normals, and which reader a file name selects
  - `threemf.rs`: the 3MF readers (a tolerant XML scan of every `.model` part,
    and the `threemf` crate's deserializer)
  - `readers.rs`: the calls into `stl_io`, `tobj`, `zip`, `quick-xml` and
    `threemf`, with their results named
  - `canvas.rs`: RGBA pictures, the 2×2 multi-view grid, its separator lines
    and its view labels
  - `config.rs`: the decisions behind the command-line options (image format,
    size, colours, anti-aliasing)
  - `info.rs`: the `--info` report's number formatting and the watertightness test
  - `text.rs`, `float_bits.rs`: integer text, and `f32` comparisons on bit patterns
- `app/` — the `stl-thumb` command: argument parsing with clap, file I/O,
  floating-point geometry, and GPU rendering with wgpu
- `tests/` — tests of the library against the behaviour of the crates it wraps

Coordinates and normals are held as the bit patterns of `f32` values; the
floating-point arithmetic (face normals, parsing coordinates, narrowing 3MF
coordinates) is passed in by the caller as closures.
