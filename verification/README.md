# ypbank

A verified library, written in Verus, for two small systems:

- **Bank transaction records** in three formats — a binary record format,
  a line-oriented text format and CSV — with readers, writers, conversion
  between formats, an index by transaction id and a comparison of two
  record sets.
- **A stock-quote service**: the messages a client and a server exchange,
  the server's subscription manager (who subscribed to which tickers, who
  is still alive, who receives an event), a random walk of quotes that
  never leaves its bounds, and the client's reading of the server's
  answers.

## Layout

- `src/` — the library, verified by Verus; its functions carry contracts
  (one that only stores into a shared atomic flag states nothing about
  it). Modules:
  - `transaction`, `error`, `names`, `bytes`, `chars` — the record, its
    errors, the names of its enumerations, big-endian integers and text
    helpers;
  - `bin_format`, `text_format` (with `text_roundtrip`), `csv_format` —
    the three formats, each with a write-then-read law (for CSV, on the
    condition that the `csv` crate reads back the rows it wrote);
  - `convert` — reading, writing and converting in any format;
  - `compare` (with `compare_laws`) — indexing record sets by id in a
    `BTreeMap` and comparing them;
  - `quote_protocol`, `quote_client`, `quote_server`, `stock_quote`,
    `subscription`, `event_channel`, `tickers` (with `quote_laws`) — the
    quote service. The subscription manager keeps its sessions in a
    `HashMap` by id and its topics sorted; each session sends on an event
    channel whose sending end records, as ghost state, every message handed
    to it and every message that went in. `send_event_at` says exactly what
    an event does at a given time; `send_event` reads the clock and calls it.
- `tests/` — tests run against the compiled library.
- `app/` — the command-line programs (`ypbank_compare`,
  `ypbank_converter`, `quote_server`, `quote_client`): files, sockets,
  threads, timers and the wire encoding, around the library.

Outside crates that the library calls sit behind small trusted wrappers
whose doc comments say what is assumed of them: `byteorder` (big-endian
integers), `csv` (splitting and quoting rows), `rand` (random ranges),
`chrono` (the time), `uuid` (session ids) and `crossbeam` (event channels).
