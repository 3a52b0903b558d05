# lonetypist

The logic of Lone Typist, a distraction-free writing app built like a DOS
screen, as a Verus library: the document and its undo history, the soft
wrap at 65 columns, the 80x25 (or 80x50) grid of character cells, the
menus and modal boxes, the status line's page arithmetic, printing, and
the rules that turn a typed name into a path. Every function of the
library carries a contract that Verus proves.

- `src/` is the verified library. `app.rs` holds the application state
  and the interpretation of every command; `paint.rs` says what each
  layer of the screen shows and paints it.
- `tests/` runs the library on concrete values.
- `app/` is what touches the machine: settings on disk, the sandbox's
  folder bookmark, and the GPU pass that draws the grid.
