# spaghetto

Double-ended data structures, verified with Verus.

- `src/devec.rs`: `DeVec`, a byte buffer with free room on both sides of one contiguous
  live region; reallocation centres the region in the new allocation.
- `src/destring.rs`: `DeString`, a UTF-8 string on a `DeVec`. Its contracts speak of its
  characters (`Seq<char>`, the UTF-8 decoding of its bytes, using vstd's `utf8` module) and
  of its bytes; every operation keeps the bytes valid UTF-8.
- `src/drain.rs`: `Drain`, the characters removed by `DeString::drain`.
- `src/order.rs`: the lexicographic order of `DeString`s.
- `src/codec.rs`: encoding and decoding of single characters, the Unicode `White_Space`
  property, and lemmas about UTF-8.
- `src/laws.rs`: properties that relate several operations, as proof functions.
- `src/settings.rs`: the drop-order and rebalance setting types.
- `src/std_calls.rs`: the trusted calls into std (`std::str::from_utf8`, `char::from_u32`).
- `app/lib.rs`: serde and formatting traits on a copy of `DeString`.
