# Leaderboard monitor

Watches a public leaderboard. The service fetches the page, compares it with the
snapshot that was recorded last, records what changed, tells people by mail, and
answers queries over HTTP. A terminal interface shows the leaderboard, the events
and the development of the scores.

## Layout

- `src/` is the library. Everything in it is verified with Verus: its functions
  state in their contracts what they return or change.
  - `parse` and `fetch` read the leaderboard out of a page or its script bundle.
  - `diff` compares a leaderboard with what was recorded before.
  - `db` is the history: its tables, how a snapshot is added (`insert`), what is
    read back (`read`, `history`), a made-up history (`dummy`), and what holds of
    the history as a whole (`laws`).
  - `query`, `api` and `source` are the questions that can be asked of it.
  - `monitor` is the cycle of the service and the messages; `notify` makes mails.
  - `cli` and `config` are the settings.
  - `tui` is the state of the terminal interface and what it says.
  - `clock` is the time at which a snapshot is recorded.
  - `score` and `text` are the numbers and the strings underneath; `seqs` has facts
    about sequences.
  - `bindings` holds the calls into other crates. Its contracts are taken on trust;
    each says what is claimed of the call.
- `app/` is the program around the library: the command line, the configuration
  file, SQLite, HTTP, SMTP and the terminal. Floating-point arithmetic on scores
  stands there too; the library holds a score as its bit pattern and its texts.
- `tests/` runs the library.

## Trust

The history is a value in memory. The program reads it out of the database inside
a transaction, lets the library extend it, and writes the rows that were added.
