# renderer

Thumbnails of 3D models (`.obj`, `.fbx`, `.glb`, `.gltf`) for Windows Explorer and the
command line, with the decisions and the integer pixel work proved by Verus.

- `src/` — the verified library: which loader reads a file, the guess of a streamed
  model's format, the triangle budget and render size, index lists, glTF image
  conversion to RGBA8, texel and pixel access, tinting, the tight box of the drawn
  pixels, and the shell provider's class table, stream copy and bitmap byte order.
- `app/` — the loaders (`tobj`, `gltf`, `ufbx`), the floating-point rasterizer
  (`glam`), the `thumbgen` command line and the COM thumbnail provider (`windows`).
- `tests/` — tests of the library on concrete values.
