# lune_std_roblox

The `roblox` standard library of Lune, with its logic verified by Verus.

- `src/` is the verified library:
  - `text` — search, trimming, splitting and replacement on character
    sequences, each with the exact meaning that `str` gives it;
  - `property` — whether a property's text spans several lines, and the
    nested items of `CFrame`, `Vector3`, `Color3` and list values;
  - `values` — the readable text of `UniqueId` and `Enum` values;
  - `order` — the order of names and the stable sort of property lists;
  - `instance` — the snapshot of an instance, its path and its properties;
  - `markdown`, `markup` — the markdown of a place's instance tree;
  - `names` — the names in a property list are distinct, and so strictly
    ascending once sorted;
  - `document` — writing place and model files through `lune_roblox`, and
    the failures of reading and writing them;
  - `choices` — the file format, cookie form and read-only message that the
    module's functions pick from their arguments.
- `app/` holds the Lua bindings: the module table, the async functions and
  their threads, the decoding of files (the binary decoder panics on some
  malformed files, which nothing can test beforehand), the conversion of
  lune's live instances into documents (a destroyed instance panics there), the walk over lune's instance tree that fills the snapshot,
  the `f32` rendering of vector components, the cookie and Studio lookups.
- `tests/` runs the library on concrete values.
