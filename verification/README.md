# zhangji

The bookkeeping rules of 账痕 (BillTrace), a personal ledger: reading
category presets, recognising and reading bill workbooks (annual ledgers
and WeChat Pay statements), the merchant keyword rule engine, duplicate
keys, account postings and the chart time axis, the rules of the
three-level category tree, and the texts of exports. Each function states
what it computes in its `ensures`, and Verus proves it.

## Layout

- `src/` — the verified library
  - `text.rs` — characters, trimming, searching and splitting
  - `presets.rs` — Markdown and plain-text category presets
  - `rules.rs` — the keyword rule engine and learning from assignments
  - `importer.rs` — format detection, header rows and columns, records of
    ledger and WeChat rows, routing, fingerprints, report counters
  - `datetime.rs` — reading and writing dates and times (chrono)
  - `stats.rs` — postings, account groups, the sorted list of accounts
  - `chart.rs` — the buckets of the time axis
  - `export.rs` — CSV, workbook sheets, outlines of the category tree
  - `query.rs` — the WHERE clause of a transaction filter, page windows
  - `tree.rs` — depth, new children, moves and deletions in the tree
  - `commands.rs` — clearing, backgrounds, manual entries, chart images,
    the data of a new ledger, preset counters
  - `models.rs` — the records
- `tests/` — tests of the library on concrete values
- `app/` — the SQLite store, workbook reading and writing, floating-point
  sums, and the commands, around the library

## Dependencies

`zip` stands in `Cargo.toml` only to hold its version at 2.2.0: `calamine`
0.26 accepts any zip 2.x, and the 2.6 releases no longer compile with it.
Nothing calls `zip` directly.
