# nes-render

Terminal renderers for NES frames, and the decisions of the hosts that show
them, verified with Verus.

A renderer turns one NTSC frame (240x224 RGB888 pixels) into bytes for a
terminal:

- `halfblock` and `ascii` draw with characters.
- `kitty` sends images by the Kitty graphics protocol, in base64 chunks and
  optionally compressed.
- `sixel` and `chafa` decide what libsixel and chafa are asked for, and what is
  shown of their output.

`tui` and `sdl` decide how the hosts answer events, `audio` is the queue between
the machine and the sound card, and `options` reads the command line's choices.

Every function has a contract over mathematical models. What holds across
functions is stated as public proof functions beside them:

- `kitty_terminal` models a terminal that reads the protocol, and shows that it
  ends up with the frame that was sent and is never blank in between;
  `kitty_laws` holds further properties of what is sent.
- `halfblock_screen` models a terminal that reads colour escapes, and shows that
  every pixel is in its place.
- `upscale`, `codec`, `ascii`, `chafa`, `options`, `tui`, `sdl` and `audio` state
  theirs in the same file.

The calls into other crates stand behind small functions marked
`#[verifier::external_body]`, in `ansi` and `codec`; their doc comments say what
is taken on trust.

`app/` is the player around the library: command line, terminal, window, sound,
and the calls into libsixel and libchafa. It needs the `nes` crate.
