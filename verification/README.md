# typing_engine

A typing game engine for Japanese: vocabularies written as `word:reading,...` are parsed,
their readings are cut into chunks, each chunk gets the romanized key strokes that type it,
and a session takes key strokes one by one, keeping statistics, lap times and what to show.

- `src/` is the library, written in Verus: every function carries a contract and is proved
  against it, except the small wrappers around the clock, `String::push` and the operating
  system's random source, whose contracts are trusted.
- `tests/` holds the tests of the library.
- `app/` holds what cannot be proved: serde forms of the result types and the floating point
  accuracy and progress figures.
