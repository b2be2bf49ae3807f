# amph

Arch Meta Package Harmonizer: a package management assistant for Arch Linux that
reads what pacman knows about the installed packages and reports on disk usage,
cleanup candidates, dependency warnings and an overall health score, and keeps a
history of its analyses.

The library under `src/` is written in Verus and verified: every public function
states its result in its contract, and `src/laws.rs` proves the properties that
hold across functions (the size buckets partition the packages, the health score
is what the bloat score leaves of 100, a printed cache size reads back, and so on).

- `text.rs`: the string operations the parsers and reports are built from, with
  their specifications (`trim`, `lines`, `split_whitespace`, decimal digits,
  lexicographic order).
- `pacman.rs`: package records and the parsers of `pacman -Qi`, `pacman -Qq`, the
  pacman log and `du -sb` output.
- `stats.rs`, `cleanup.rs`, `deps.rs`, `scan.rs`, `analyzer.rs`: statistics, cleanup
  candidates, dependency inspection, the quick scan and the full analysis.
- `storage.rs`: the history of analyses and the comparison of the last two.
- `report.rs`, `tables.rs`: Markdown reports and the rows of the terminal tables.
- `order.rs`: stable sorting, specified.

`app/` is the command-line program around the library: it runs pacman and `du`,
reads the log and history files, draws the tables and writes JSON and Markdown.
