# imgview

A terminal image viewer: a file picker that lists the subdirectories and
image files of a directory, and a viewer that draws the chosen image with
half blocks, ASCII art or Sixel graphics.

The library (`src/`) holds the logic, with its contracts and proofs:

- `render_method` — the three ways of drawing an image.
- `text` — decimal numbers as text.
- `raster` — RGBA pixel buffers.
- `sixel` — the uniform 256-color palette, nearest-color quantization, run-length
  encoded sixel bands and the whole Sixel escape sequence, with the laws
  that the encoding loses nothing and that every pixel is drawn in its
  own color.
- `cells` — the half-block and ASCII renderings, and the calls into the
  `image` crate that resize and convert images.
- `order` — the stable sort of names by their lower-case forms.
- `entries` — image file names, directory listings and the picker's
  entries.
- `app` — the application's state and how keys, terminal sizes and
  rendering change it.

`app/main.rs` is the program around it: the terminal, the file system,
decoding image files and drawing with `ratatui`.
