# csv-audit-tool

A terminal tool that walks through the records of a CSV file one at a time, lets
the user edit selected columns, and saves approved records to a timestamped output
file, with resumable sessions. The original file is never modified.

- `src/` is the verified library (Verus): CSV contents in and out (through the
  `csv` crate), session file names and timestamps, the calendar, the record
  viewer's state machine and the texts of its screens.
- `app/` is the Cursive front end: file system access, session JSON (serde),
  and the dialogs.
- `tests/` exercises the library on concrete values.
