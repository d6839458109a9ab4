# hephaestus

The decisions behind a family of plot-document tools, as a library verified
with Verus: the SVG emitter, the desktop viewer's render thread, the file
manager thumbnailer, the shell extensions, the browser client and what the GPU
backends decide around the GPU.

- `src/` is the library. Every item in it is verified, but for the contracts
  of what it calls outside, listed below. Numbers are fixed-point billionths
  (`fixed`), from about -9.22e9 to 9.22e9; what would be beyond is the nearest
  of these, and what may not be a finite number is a `Reading`.
  - `svg` emits scenes as markup. `svg::model` says what a scene is and what
    each draw call makes of it, `svg::scene` does it, `svg::laws` shows that
    whatever is drawn serializes to a well-formed document that refers to
    nothing it does not define. `svg::fragment` holds markup that comes from
    outside to what that needs.
  - `viewer` holds the frame format, exports, windows, file watching and the
    render thread's state.
  - `thumbnailer`, `quicklook`, `explorer` and `web` are the other clients.
  - `backend` holds the draw budget, the readback and the size-bound state of
    the rasterisers.
- `tests/` runs the library.
- `app/` is the ordinary Rust around it: files, threads, the GPU, serialization
  and floating point. The plotting core and the desktop toolkit are reached
  through its traits `Plots` and `Shell`.

## What is trusted

Each of these has a contract that is believed, with a comment that says what it
claims:

- of std: `String::push` and the quoting of text (`text`), `from_utf8_lossy`
  (`thumbnailer::options`), `Path::file_stem`, `Path::file_name`,
  `Path::parent`, `Path::is_absolute` and `Path::join` (`viewer::paths`), and
  the type `PathBuf` (`viewer::windows`);
- of vello: the type `Scene`, `Scene::new`, `Scene::reset` and the sizes of the
  draws in its encoding (`backend::budget`);
- of windows-core: how a `GUID` is shown (`explorer::registry`);
- of wuff: `decompress_woff1`, `decompress_woff2` and the type of their error
  (`web`).
