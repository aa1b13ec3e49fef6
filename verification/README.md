# howmuchiai

Finds out how much AI tools were used on a machine: hours, tokens, sessions, visits and calls, from
the logs, databases and histories that the tools leave behind.

- `src/` is the library, written in Verus. It reads no files: it takes the lines, rows and bytes that
  were read and computes from them, and every function states what it returns.
- `app/` is the command line program. It finds and opens files and databases, hands their contents to
  the library and prints the result.
- `tests/` runs the library on small logs.

## The library

| Module | What it holds |
| --- | --- |
| `types`, `collections`, `names` | results, token counts, hours, maps by text |
| `text`, `json`, `time_util`, `token_estimate`, `harvest`, `tally` | texts, JSON, active time, days, token estimates |
| `logs`, `ledger` | what a log says, and the totals that are kept while logs are read |
| `providers` | one module for each tool, and the registry of all |
| `browser_transcripts`, `browser_local_storage`, `browser_data_audit` | what browsers store of web apps, and which estimate of tokens is taken |
| `scan`, `tier`, `share`, `device_id`, `platform` | totals, titles, the address of a card, the id of a machine, where things are |

Hours are kept in seconds. Where an outside crate computes something (JSON, dates, tokens, UUIDs,
regular expressions, gzip, base64), a small function makes the call and its comment says what is
taken for granted of the crate. Everything else is proved.

Properties of the library as a whole are the proof functions whose names start with `law_`: that a
message which stands in two logs counts once, that estimates are never added to logged tokens, that
active time never exceeds the time between the first and the last event, and others.
