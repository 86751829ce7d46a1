# axiom_engram

An encrypted memory vault: captures of what a person and their assistants do, kept in a SQLCipher
database, searched by text and by similarity, linked to each other, and left to fade unless they
are needed.

Everything the vault decides is in `src/`, written in Rust and proved with Verus: which captures
are noise or repeat what is known, which statements a write, a search, a deletion or a migration
runs, how rows become memories, how results are ranked, which keys open a vault, what the cache
keeps. `app/` talks to the database, the disk, the embedding model and the browser, and does the
floating-point arithmetic.

## Layout

| Module | What it holds |
| --- | --- |
| `text`, `measure`, `time`, `hex`, `json`, `ids`, `error` | texts, numbers by their bits, points in time, identifiers, errors |
| `engram`, `entry`, `sync` | memories as they are stored, as users see them, and on the wire |
| `noise` | which captures are noise; hashes and tags in normal form |
| `capture`, `links` | writing a memory, step by step; the links it gets |
| `schema`, `upgrade` | the tables, and how an older vault is brought up to date; what becomes of its rows |
| `keys`, `open` | the keys of a vault; opening it, key by key |
| `sql`, `rows`, `tables` | statements and rows; what conditions and changes mean for the tables |
| `search`, `store`, `recall`, `digest`, `patterns`, `hygiene`, `query` | reading, deleting, recalling, caring for memories |
| `rank`, `embedding` | the order of results; embeddings as bytes and as neighbours |
| `qem` | the cache in front of the vault, by 32-bit codes |
| `embed`, `web` | when texts are embedded; what browsers need |

Operations that alternate between deciding and talking to the database are state machines:
`capture::WriteJob` and `open::OpenJob` are told what happened and say what to do next.

Numbers with a fraction stand in the library by their bits (`measure::Measure`): they are carried,
compared and ranked there, and computed outside.

Public proof functions whose names begin with `law_` state what holds of the library as a whole.
