# jflow stack view

The terminal view of `jf status`: a jj patch stack drawn in a box, each change
with its position, icon, short id and first description line, its bookmark and
how that bookmark relates to the remote, connector lines, the trunk line, all
between side borders, and
command suggestions below the box.

- `src/render.rs` — `Renderer`: every line of the view, with contracts over a
  model in which each coloured piece of text is a painting of its plain text.
- `src/term.rs` — the two calls into the terminal crates: painting text with a
  colour (`colored`) and measuring display width (`console`).
- `src/text.rs` — decimal numbers, repeated and chained glyphs, first lines.
- `src/theme.rs` — colour themes and icon sets by name.
- `src/types.rs` — the changes and bookmark states that the view shows.
- `app/lib.rs` — printing the rendered lines.
