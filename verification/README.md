# FrostScan

FrostScan is a disk usage analyzer: it lists a folder, computes the sizes of
its subdirectories in the background, and shows them as a table, an
extension overview and a tree map.

- `src/` is the verified library: the scan tree and its aggregates, the
  recursive size accumulation, the extension overview, the stable orders of
  the table and of the tree map, exact size formatting, the notices, and the
  application state machine with its cache. Its contracts and laws are
  checked by Verus.
- `app/` is the desktop program around it (Iced): the window, the reads of
  the file system, the background thread and the floating-point layout of
  the tree map.
- `tests/` runs the library on concrete cases.
