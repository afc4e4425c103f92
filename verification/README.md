# mcpg_log_syslog

A syslog sink for the log records of a gateway and its plugins, written in Verus. Each record is
rendered as an RFC 5424 line, or an RFC 3164 line for older collectors, and is sent in a UDP
datagram, on a TCP connection, or to standard output or standard error.

- `src/` is the verified library. It checks the configuration, renders lines, decides which records
  are dropped and what is sent where, and says when a TCP connection is made and used. Contracts
  fix the exact text of every line, down to the civil date of the timestamp.
- `app/` reads the configuration JSON, owns the sockets and does what the library decides.
- `tests/` runs the library.

What is taken on trust is small: how chrono writes an instant in UTC, how serde_json writes a map of
fields, which characters are white space, and what `String::push` does. Each such item says in its
doc comment what is believed of the outside function.

`src/laws.rs` states what holds of all lines and streams: a record gives a single line, whatever its
message, the host name and the application name hold; the parts of a line can be read off it again;
a stream of frames determines its lines. `src/json.rs` states that structured fields can be read
back from the JSON object that a message ends with. `src/tcp.rs` states that a record is never
retried, and that the sink connects for its first record and after a failure only.
