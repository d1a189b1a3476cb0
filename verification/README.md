# real_estate_allocation

The portfolio logic behind a real-estate allocation dashboard, verified with
Verus: buildings and their lots, which buildings and lots a view shows, the
snapshot identity and the single-writer sync rules, dashboard layout seeds,
deep links, map-pin caching decisions, locales and per-building translations.

Layout:

- `src/` — the verified library, one module per concern (`domain`, `portfolio`,
  `roster`, `seed`, `sync`, `archive`, `layout`, `nav`, `places`, `series`,
  `storage`, `i18n`, `translations`, `ui`, with `text` and `error` beneath
  them). Contracts are stated over `Seq`, `Map` and spec functions; the laws
  that relate several functions are public proof functions.
- `tests/` — executable tests of the library against concrete values.
- `app/` — a thin command line around the library: reading and writing the
  snapshot's files, JSON shapes, and the floating-point parts (prices,
  colours, treemap geometry, the risk terminal).
