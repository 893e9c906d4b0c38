# twitcher

Collects metrics about the builds of a Rust project (size of an example's
binary, build time of an example, build time of each crate of the workspace),
one record per commit, and reads the records back to draw one graph per
metric and list all metrics on an index page.

Layout:

- `src/` — the library, verified with Verus: the choice of defaults, the
  command lines of the measurements, the names and values of the metrics,
  the grouping of per-crate timings, the merging of metrics, the folders of
  the results, the commit time, and the reading of the records (series of a
  metric ordered by commit time, its range, the sorted names of all metrics).
- `app/` — the collector program and the two site builders: running
  commands, reading and writing files, JSON, floating-point statistics,
  drawing and templating.
- `tests/` — tests of the library.
