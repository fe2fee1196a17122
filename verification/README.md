# indexd

The logic of a client that stores objects with an indexer and with storage hosts, verified with
Verus.

- `src/` is the library. Every function in it states what it returns or changes, and Verus proves
  it. What comes from other crates (ciphers, erasure codes, signatures, base64, URLs, JSON, time)
  is called through small wrappers, each with a comment that says what is taken on trust.
- `tests/` runs the library with those crates linked.
- `app/` holds the bindings for Node.js and for browsers. They perform what the library decides.

The parts of the library:

- `download`, `slab_download`, `slab_run`, `erasure`, `encryption`: which parts of which slabs answer a byte
  range, which sectors to read and when to stop, and how the data comes back from the shards.
- `object`, `sealed`, `ids`, `base64_text`, `timestamp`, `account`, `events`: objects and the forms
  in which they travel.
- `signing`, `seed`, `random`: keys and recovery phrases.
- `chunked`, `stream`, `progress`, `urls`, `builder`, `logging`: what the two bindings share.
- `node`, `wasm`: what each of them adds.
