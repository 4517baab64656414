# redis_lite

A small Redis-compatible key/value server whose core is verified with Verus.

- `src/` — the verified library:
  - `frame` — RESP frames: the validating scan (`Frame::check`), the parser
    (`Frame::parse`), their text and wire forms, and the laws that relate
    scan, parse and encoding;
  - `connection` — taking one frame off a connection's read buffer;
  - `cmd` — decoding a request frame into a command;
  - `engine`, `store` — the in-memory store and the commands run on it;
  - `cli`, `db`, `utils` — options, snapshot settings, replication role;
  - `parser`, `protocol` — the line-based request parser and its responses;
  - `text` — character and string helpers.
- `tests/` — tests of the library.
- `app/` — the server program: sockets, tasks and channels (tokio).
