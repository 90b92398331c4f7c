# leveldbcat

A LevelDB viewer: it browses folders, opens a LevelDB directory, shows keys
and values as bytes, text or JSON, searches the shown entries and exports
them to CSV. It has a GUI and a short CLI preview mode.

## Layout

- `src/` is the verified library. Every function there carries a Verus
  contract, and the properties that tie functions together are stated as
  public proof functions whose names begin with `law_`.
  - `format`: the byte, text and JSON views of a key or value.
  - `highlight`: splitting a line of JSON into coloured runs.
  - `selection`: the selectable text view (cursor, selection, UTF-16
    offsets, line ranges).
  - `browser`: the table of entries (per-column and per-cell modes, search,
    copying) and the folder browser's ordering and breadcrumbs.
  - `reader`: database path checks, lock-file rules and CSV export.
  - `config`, `i18n`, `cli`, `scrollbars`, `sort`, `text`: settings,
    messages, argument handling, scrollbar visibility, a stable sort and
    text helpers.
- `tests/` runs the library on concrete values.
- `app/` is the program around it: the window, file and database I/O,
  reading and writing the configuration file.

## Verify

Run Verus on `src/lib.rs` with the outside crates named in `Cargo.toml`.
