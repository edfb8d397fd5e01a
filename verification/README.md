# ficus

Process-mining building blocks, verified with Verus: simple event logs, XES
logs with their payloads and their XES documents, event-log statistics (classes, directly-follows pairs, start
and end classes), the alpha algorithm, Petri nets with markings, token replay
and PNML output, directed graphs with node clustering, and the keys under
which pipeline parts keep their values.

Layout:

- `src/` — the library. Verus proves the contract of every function but the
  trusted wrappers around `quick-xml`, `chrono` and `std` (marked
  `external_body`), whose contracts are taken as given.
  - `event_log/` — `SimpleEventLog` and its traces and events, XES lifecycle
    names, the XES log model (extensions, classifiers, properties, globals,
    traces, events with payloads), XES writing, reading the key, value
    and type of an XES payload tag, and reading a payload value (lifecycle,
    date, integer, string, boolean) from its tag.
  - `features/analysis/` — `EventLogInfo` and pattern-discovery strategies.
  - `features/discovery/alpha/` — alpha relations, alpha sets and the alpha
    miner; its contract says that the places of the net are exactly the
    maximal alpha pairs. `alpha_plus` adds the one-length loops of alpha+
    to the alpha net and, for alpha++, the connections read from the alpha
    sets of its places; `alpha_plus_nfc` holds the relations of alpha++ with
    non-free choice (triangles, right double arrow, W1, W2, W3).
  - `features/petri_net/` — nets, markings, replay and PNML.
  - `pipelines/` — context keys and pattern kinds.
  - `utils/` — graphs (with merging of node clusters), intervals, string
    order, a stable sort, suffix-tree text views, sets with ids, decimal text
    of integers, and the XML writer interface.
- `tests/` — tests of the library on concrete values.
- `app/main.rs` — a command-line front end: reads traces from a text file
  (one trace per line, event names separated by whitespace), mines a Petri
  net with the alpha algorithm and writes it as PNML, and optionally writes
  the log as XES. File I/O lives here.

XML goes through `quick-xml` and dates through `chrono`; the library calls
them through a few trusted wrappers whose contracts state what those crates
document.
