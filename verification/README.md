# commonmark_viewer

The rendering logic of a CommonMark viewer for egui, verified with Verus.

The library parses a markdown document with pulldown-cmark into events held
as plain values, and decides what is drawn: a flat sequence of layout commands in which every
scope that is opened (a wrapped line, a quote or alert, a table, a row, a
cell) is closed again. Every step is proved against its contract.

- `src/`: the verified library.
  - `events`, `style`, `newline`, `list`, `options`: the values the viewer
    works with.
  - `parse`: the parse of the text by pulldown-cmark, its events turned into
    the library's own.
  - `viewer`, `render`: what one event does to the viewer's state and which
    commands it asks for.
  - `collect`, `table`, `cell`, `trim`, `key`: gathering the events of one
    element, splitting a table into rows and cells, trimming cells, the
    widgets a cell is measured by, and the key of a table's content.
  - `alert`: block quotes that announce an alert such as `[!NOTE]`.
  - `flow`, `process`: walking a whole document, with the elements that are
    drawn as one block (definitions, list items, tables, quotes).
  - `scope`, `scroll`: well-nested scopes, and the split points used when
    only the visible part of a long document is drawn.
  - `laws`, `keep`, `settle`: properties that span several events, what
    drawing a whole document never undoes, and that no element is left
    waiting for its events after an event's turn.
- `app/`: the egui side: carrying out the commands, measuring table columns and sizing them, scrolling.
- `tests/`: tests of the library on concrete documents.
