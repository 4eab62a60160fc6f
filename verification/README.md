# snowflake

The verified core of a client for Snowflake's query protocol, and the client around it.

- `src/` is the library, verified with Verus. It derives the URLs and the login name of an
  account (`account`), signs the token that authorizes a login (`jwt`), prepares the login
  and the statements of a session and decides what follows from each answer (`login`,
  `client`, `response`), plans how the chunks of a result are downloaded and retried
  (`result`, `chunk`), orders the reads and decodes of an Arrow stream (`decode`), and
  builds the query that reads a table (`query`). What it asks of other crates is in
  `url`, `header`, `json`, `jwt`, `request_id` and `clock`, each call behind a declaration whose
  contract says what is relied on.
- `app/` sends the requests, waits, reads the private key file and streams the batches.
- `tests/` runs the library with the real crates linked.
