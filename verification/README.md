# collector

The verified core of Collector's Notebook, a desktop catalogue of personal
collections (collections → items → photos and custom fields).

- `src/` is the library, verified with Verus:
  - `model` — the records, sort modes, item counts, the stable collection sort,
    and the normalization applied to freshly loaded data;
  - `paths` — file names, stems, extensions and joins of `/`-separated paths,
    and where data files, photos and thumbnails live;
  - `backups` — data-file snapshots (names, listing, pruning, restore checks)
    and the photo archive's bookkeeping;
  - `edits`, `items`, `commands`, `selection`, `display`, `keys` — what the
    user does to the catalogue (adding, duplicating, renaming and deleting
    collections, items, fields, templates and photos), how lists, check marks
    and text are shown, and how the editors handle the keyboard;
  - `window` — the window's own state (open dialog and its purpose, edit
    mode, status line, searches, lightbox) stepped by events, with what the
    caller does next;
  - `session` — the catalogue with its lists' selections and its window,
    and the steps that change several at once (clicks, import, deleting and
    adding collections, the name dialog);
  - `photos` — photo names, thumbnails and `data:` URLs, on top of the
    `image`, `base64` and `uuid` crates;
  - `order`, `text` — stable sorting and character-level string helpers.
- `app/` is the Tauri backend: file I/O, JSON, dialogs, clipboard and the
  floating-point settings, calling the library for every decision.
- `tests/` runs the library on concrete values.
