# rmbujo

Dot-grid bullet-journal PDF generator for reMarkable devices (Paper Pro Move /
Paper Pro). A year is written as fifteen PDFs — the Future Log, twelve monthly
notebooks, a Collection Template and a Reference — rendered with Typst, with
ICS calendar feeds overlaid on the months and an optional upload to the
reMarkable cloud through `rmapi`.

## Layout

- `src/` — the library, verified with Verus:
  - `calendar` — months and days with weekday labels and week starts, over an
    arithmetic model of the proleptic Gregorian calendar;
  - `ics` — feed URLs and cache decisions, the iCalendar reading (TEXT
    decoding, property lookup, all-day / multi-day / recurring / timed event
    expansion into per-day occurrences in the configured zone), the occurrence
    order and the per-day event map;
  - `templates`, `notebooks`, `render::doc` — every page as HTML (the
    notebook markup its CSS styles) and as a Typst fragment, the page lists of
    every notebook, the escaping they rely on, and the pagination of a day's
    event pages;
  - `deploy` — the backend choice and the exact `rmapi` call plans (folder
    chain, create / content-only refresh / upsert / create-if-missing);
  - `config` — feed colours, defaults and setting validation;
  - `generate` — the year's file names.
- `app/` — the command line, config files, feed downloads, the `rmapi`
  process, device sizes, themes, the Typst preamble and world, and the
  floating-point layout (dot grid, monthly view rows, event-height estimates).
- `tests/` — tests of the library.

## Usage

    rmbujo new                                   # interactive wizard
    rmbujo path/to/2026/rmbujo.toml              # regenerate a year
    rmbujo path/to/2026/rmbujo.toml --refresh-feeds
    rmbujo month path/to/2026/rmbujo.toml --month 5 --target /
