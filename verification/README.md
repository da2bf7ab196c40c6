# tspan

An activity tracker. Machines report when programs start and end; a server keeps the sessions and
computes statistics, calendars and reports on them; a terminal interface administers it.

The logic of all of this is a library, `src/`, whose functions carry contracts that
[Verus](https://github.com/verus-lang/verus) proves.

## Layout

- `src/db.rs` – the store: clients, API tokens, sessions that are running, completed or discarded,
  and programs that could not be started.
- `src/stats.rs`, `breakdown.rs`, `distribution.rs`, `rhythm.rs` – statistics over the sessions.
- `src/svg_calendar.rs`, `markdown.rs`, `html.rs` – calendars, the report, the administration page.
- `src/auth.rs`, `server.rs` – who may do what, and what each request changes and answers.
- `src/importer.rs`, `backup.rs` – session files, and downloads of the database.
- `src/api.rs`, `app.rs`, `refresh.rs`, `draw.rs`, `tabs.rs`, `selection.rs` – the terminal
  interface: the requests it makes, what a key does, what a refresh does, what is on the screen.
- `src/event.rs`, `ebpf.rs`, `filter.rs`, `tracker.rs`, `daemon.rs`, `exporter.rs`, `buffer.rs` –
  the tracer: kernel events, which of them count, what is sent, and what is kept for later.
- `src/laws.rs` – properties that span several of these.
- `src/text.rs`, `words.rs`, `pattern.rs`, `order.rs`, `tally.rs`, `arith.rs`, `calendar.rs`,
  `zone.rs`, `tokens.rs`, `encoding.rs` – texts, order, sums, dates, zones and encodings.
- `tests/` – tests of the library.
- `app/` – the program: command line, SQLite file, HTTP, terminal and kernel probes.

Calls into other crates (dates, time zones, regular expressions, base64, bcrypt, JSON, shell words,
random identifiers) stand behind functions marked `external_body`. Their contracts are not proved;
the comment above each says what it takes for granted.

Shares are kept as the two numbers that they are made of; the program turns them into percentages.
