# vmiscope_gui

The decision logic of VMI-Scope's desktop front end, a Windows Management
Instrumentation explorer, as a verified library.

`src/` holds what the views decide, each function with a contract that Verus
proves:

- `wql` scans a notification query into word and literal tokens and reads its
  event class, watched class and `WITHIN` interval off them, and writes a new
  interval in; `lemma_inject_then_read` proves that a written interval reads
  back.
- `events` names what kind of change an event reports, summarises its
  properties on one line, and keeps the capped event log.
- `codeview` tints a line of code by role without losing a character.
- `network` filters the live connection table, counts its chips and gives
  it a deterministic base order.
- `query`, `saved`, `explorer`, `process`, `machines`, `settings`,
  `nav` and `table` hold those views' rules: the ORDER BY note, the gutter,
  the library filters and previews, the Properties tab's icons and headers,
  the process ancestry and filters, the empty-state sentences, the presets,
  the rail, and the table's stable sort.
- `compare` chooses the key two result sets are aligned on, the columns the
  diff disregards, and when a partial side may take part; `diffview` labels
  every row of B from the differ's report, renders and counts the lines, and
  writes the CSV export.
- `search` gathers the Explorer's global search hits, sorts them stably and
  caps them, and follows a clicked hit.
- `app` is the application state those decisions read and write.

`app/` holds what the library does not: the renderings that go through
floating point, and the process exports that serialise with serde.

`tests/` runs the library on concrete values.
