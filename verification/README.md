# waka

A front-end for libalpm, inspired by nala, whose logic is verified with Verus.

- `src/` is the verified library: the reading of pacman.conf (`pacman_conf`,
  `siglevel`), the live display of a transaction (`render`, `draw`, `style`,
  `format`), the summary tables (`table`, `summary`), package search, listing,
  details and cache cleaning (`packages`, `pkginfo`, `autoremove`, `handle`),
  the transaction history (`history`), the database refresh table (`dbsync`)
  and the small text and sorting routines they rest on (`text`, `sort`,
  `keyed`).
- `app/` is the program: command line, configuration file, terminal and file
  I/O, libalpm itself, and the few floating-point computations (speeds,
  percentages, bar fills).
- `tests/` exercises the library on concrete values.
