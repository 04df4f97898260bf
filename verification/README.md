# hi

`hi` prints a banner with your host name (or any text) in a bitmap font,
coloured with a gradient, followed by host information lines (kernel,
load/uptime, addresses, processor, memory).

The library in `src/` is verified with Verus:

- `text`: character-level splitting, trimming, line breaking, number
  formatting and parsing, each stated over the characters of a string.
- `colors`: colour specifications (names, `d,d,d`, `h:h:h`, `hhhhhh`, `hhh`,
  `a-b` gradients), the nearest of the sixteen terminal colours, escape
  sequences and usage bars.
- `fonts`: the two bitmap fonts and the layout of text in them, full size or
  with quadrant blocks in small mode.
- `sys`: the information lines, built from what the host commands print.
- `cli`: command-line options and the settings that follow from them.

`app/main.rs` is the command itself: it reads the arguments and the
environment, runs the host commands (locally or over `ssh`), computes the
floating-point ratios (load and memory bars, colour gradient) and prints.
