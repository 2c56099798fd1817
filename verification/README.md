# squad_core

A library for reading and editing EA Sports FC squad save files, with its behaviour
stated in `requires` / `ensures` contracts and proved by Verus.

- `src/` is the verified library: the container and table layout (`parse`, `squad`,
  `model`), bit-packed fields and strings (`codec`, `fields`, `huffman`), checksums
  (`crc`, `checks`), edits and records (`edit`, `editor`), the schema file (`meta`),
  tab- and comma-separated export and import (`tsv`, `csv`, `export`), the editor's
  session state (`session`, `guards`, `resources`, `backup`), what the editor lists
  (`listing`: player names, pickers, searches, the team and league lists, the teams of a
  league, a team's roster, paging), historical
  player cards (`fifa_history`), and value domains (`domains`).
- `src/laws.rs`, `src/reimport.rs` and `src/csv_reimport.rs` hold the properties that
  span several operations, each as a public proof function: a set field reads back,
  a refreshed checksum is valid, undo restores a value and redo brings the edit back,
  removing a record undoes adding one, parsed fields are sorted and tables lie back to
  back, the column read agrees with single reads, and importing a table's own export
  changes no byte.
- `app/` is the command-line program around the library: files, the workbook export,
  and error display.
- `tests/` runs the library on concrete save data.
