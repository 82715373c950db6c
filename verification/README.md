# gif_library

The rules of GIF Library, a desktop library of GIFs and images, written in
Verus and proved against their contracts.

- `src/` is the verified library: input normalisation of media records,
  duplicate planning per folder scope, local imports and managed file names,
  the transfer file format (header checks, streaming state, import decisions,
  export descriptions, Base64 round trips), folder names, export file names,
  keybind validation and the keybind state machine, maintenance rules and the
  database migration scripts. Calls into `sha2`, `base64`, `global-hotkey`
  and `std::path` stand behind small trusted wrappers whose contracts say
  what those crates document.
- `tests/` runs the library on concrete values.
- `app/` is the desktop side: SQLite through `rusqlite`, files, the
  clipboard, global shortcut registration and JSON through `serde`. It calls
  the library for every decision and only moves data in and out.
