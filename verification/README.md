# wyrd-wallpaper

A wallpaper daemon for Wayland. It shows one wallpaper on all outputs, or on the
one that is named, makes a Material palette from it, and writes that palette to
`$XDG_RUNTIME_DIR/wyrd/wallpaper.toml` for other programs. A picker shows the
wallpapers of a directory as a ring of cards.

What the daemon and the picker decide is a library, proved with Verus. The
program around it reads files, talks to the compositor and serves the control
socket.

## Use

```bash
wyrd-wallpaper run --image ~/Pictures/wallpapers/mountain.png
wyrd-wallpaper run --output DP-1

wyrd-wallpaper set ~/Pictures/wallpapers/sunset.png
wyrd-wallpaper list
wyrd-wallpaper current
wyrd-wallpaper select
wyrd-wallpaper color auto
wyrd-wallpaper color manual --accent "#7dd3fc"
```

The catalog is the directory in `WYRD_WALLPAPER_DIR`, or `~/Pictures/wallpapers`.
Its wallpapers are the files named as JPEG, PNG, WebP, AVIF, BMP or SVG whose size
can be read.

## Layout

- `src/`: the library.
  - `buffers`: the frames that the compositor still reads.
  - `catalog`: which files are wallpapers, and the palettes made from them.
  - `daemon`: the daemon's state, and how requests change it.
  - `frame`: the pixels that are shown.
  - `json`: the objects that requests and answers are made of.
  - `outputs`: the outputs that the compositor has announced.
  - `path`: file paths.
  - `picker`, `thumbnails`: the picker's ring of cards, and the images on them.
  - `protocol`: requests, answers, and what the command line sends.
  - `store`: where state is kept, and what a start takes from there.
  - `surface`: how surfaces are set up.
  - `text`, `text_map`, `theme`: texts, maps of them, and colours.
- `app/`: the program.
- `tests/`: tests of the library.

The contracts rest on what the outside crates are said to do in the doc comments
of the functions marked `external_body`: decoding and scaling images, drawing,
printing and reading JSON, and the Material colour model.
