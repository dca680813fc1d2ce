# druid_table

The index, selection, remapping and bookkeeping logic of a virtualised
table widget for druid, with its contracts proved by Verus.

- `src/` — the verified library:
  - `axis` — table axes, per-axis pairs, display and data positions;
  - `selection` — cell and slice selections, focus moves, cell status;
  - `gestures` — what pointer and key events do to the headings and cells;
  - `data` — remaps between display and data order, header moves, sorts;
  - `diff` — indexed data and the diffs between two versions of it;
  - `animation` — the slot storage of animations, phases and repetitions;
  - `interp` — interpolation coverage and string interpolation;
  - `vis` — ids of data series, marks and persistent band offsets;
  - `builder`, `lens`, `numbers_table` — smaller pieces of configuration;
  - `collections` — the contracts relied on for the `im` collections.
- `tests/` — tests of the library.
- `app/` — the druid-facing and floating-point parts around the library,
  including the glue that resolves druid's events into the library's inputs
  and carries out its decisions.
