# rackviz

A machine-room asset manager: rooms, racks, device models and devices
placed in rack slots (U positions), with a recycle bin, paged search,
spreadsheet import and export, an HTML report, backups and a staged restore.

## Layout

- `src/` — the library, verified with Verus. The tables are held as plain
  values (`db::Database`) with their invariant (`Database::wf`): increasing
  ids, unique names, unique serial and asset numbers among devices in use.
  Every operation states in its contract what it returns and how the
  tables change; `laws.rs`, `backup.rs`, `migration.rs`, `restore.rs` and
  `like.rs` hold the properties that span operations.
  - `db/` — the tables and their operations (devices, racks, rooms, device
    models, settings) and the check of tables read from storage.
  - `import.rs`, `export.rs`, `excel.rs` — what a spreadsheet row means and
    what the exported sheets hold.
  - `report.rs` — the figures of the HTML report.
  - `backup.rs`, `restore.rs`, `migration.rs` — which backups to keep or
    accept, the steps of a staged restore, and the schema steps.
  - `commands.rs` — the checks the user-facing commands add.
- `app/` — the command-line program around the library: SQLite storage,
  workbook reading and writing, the report page, backup files, logging and
  JSON in and out.
- `tests/` — tests of the library.
