# rustvidya

The logic of a terminal video player and webcam viewer that draws grayscale
frames as braille dots with the `dotmax` crate, written in Verus and proved
against its contracts.

- `src/` — the verified library:
  - `grid.rs`: the `dotmax` grid, density sets and colour schemes, with the
    contracts verified code relies on;
  - `raster.rs`: nearest-neighbour sampling of frames onto dots and cells;
  - `video.rs`, `rate.rs`, `number.rs`, `text.rs`: playback state and
    rendering, frame decoding through the `image` crate, frame rates as
    fractions read from the `num/den` text a prober prints (numbers kept to
    19 significant digits, `inf` and `nan` included), and the playback
    clock;
  - `webcam.rs`, `devices.rs`, `modes.rs`, `dither.rs`: the webcam view,
    capture-device listing, render/colour/dithering mode cycling, and
    threshold, Bayer and error-diffusion dithering;
  - `controls.rs`: the two views and what each key does in them;
  - `browser.rs`, `bytes.rs`: file-browser filtering, ordering, navigation and
    path shortening, and byte-string searching.
- `app/` — the terminal program: process spawning, file system access,
  timing, drawing with `ratatui`, and the floating-point shading.
- `tests/` — tests of the library on concrete values.
