# caliberate

The library logic of an e-book manager, written in Verus. The functions in
`src/` carry contracts that Verus proves, resting on a small trusted layer:
the wrappers marked `#[verifier::external_body]` around the calls into `std`,
`time` and `uuid` (lower and upper case, path parts, date parsing, UUID
parsing, the clock), whose contracts are believed, and the uninterpreted spec
functions that name what some of those calls return. The clock reading has no
contract beyond its type.

- Managed storage: adopting a book's files into the managed store
  (`adopt`), and adopting a whole source library in bounded pages
  (`bulk_adopt`).
- Attached Calibre libraries (`calibre`): safe content paths, the SQL of book
  queries, counts, searches and facets, schema checks, and the rows read back.
- The library window's logic: columns and sort modes (`columns`, `order`,
  `books`), the tag browser and its filters (`browser`, `grouping`), metadata
  fields and their checks (`fields`), presets (`presets`), statistics
  (`stats`), export paths (`paths`), the reader (`reader`), download sources and
  the download queue (`sources`, `metadata_queue`), jobs and their history file
  (`jobs`), the plugin manager's list (`plugins`), and the decisions behind
  dialogs and panels (`display`, `panels`).
- `text`: the string model (`Seq<char>`) and the text functions the rest uses.

Collections that are keyed by text (sort presets, virtual-library filters,
column presets, saved-search folders) are vectors of name and value pairs, with
each name once as their invariant, and are read as maps through `pairs_map`:
vstd's specifications of `HashMap` and `BTreeMap` keyed by `String` give too
little to prove these contracts over.

`app/` holds what Verus does not see: SQLite access, file and clock I/O, the
loops that run downloads and adoptions against outside services, and the
window state that holds floating-point numbers. `tests/` runs the library on
concrete values.
