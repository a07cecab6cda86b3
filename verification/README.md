# tribler_feeder

A feeder that bridges the decentralized Tribler network into a gateway: it asks a
headless Tribler core for torrents, turns them into records, resolves them to
content ids and enriches them from TMDB.

- `src/` is the library, written in Verus. It holds every rule of the feeder: how
  records, magnet links and content ids are made, which hits of a search are sent
  and in which order, what resolving a torrent publishes, how a TMDB entry is
  looked up and what it changes, and how requests to TMDB are budgeted. It does no
  I/O; where the feeder waits for something, a function tells what to do next.
  Without a meta-core in the configuration nothing is published, and the gateway
  stores the records that it is handed.
- `tests/` runs the library on concrete values.
- `app/` is the program: HTTP, the event feed, the clock, an in-memory cache and
  the JSON forms of the library's types. It takes names as they are; a reader of
  release names and a publisher of records can be plugged in through the traits in
  `app/host.rs`.
