# helix_base

Support code for the Helix editor, written in Verus and verified:

- `src/width.rs` — display width of text (`DisplayWidth` for `str`, `grapheme_width`),
  through `unicode-segmentation` and `unicode-width`.
- `src/calendar.rs` — the proleptic Gregorian calendar: `civil_from_days`, proved exact
  against a day count defined from leap-year rules.
- `src/text.rs`, `src/timestamp.rs` — decimal formatting and the `YYYY-MM-DDTHH:MM:SS.mmm`
  timestamps of log lines.
- `src/logging.rs` — the logger's decisions: level filtering, routing of language-server
  records to their own files, file names, and the text of each line.
- `src/redraw.rs` — redraw requests on a `tokio::sync::Notify`.

`app/` holds what stays outside verification: the process-wide redraw signal and render
lock, and the `log::Log` implementation that opens and writes the files.
