# turso_mysql

A MySQL-protocol front-end for an embedded SQL engine, together with the data
structures that stand behind it. The library is written in Rust and verified with
Verus: each function has a contract, and the contracts are proved.

- `src/protocol`: framing, the handshake, commands, result sets, and the binary
  protocol of prepared statements.
- `src/parser`: the lexer of the MySQL dialect, and the system variables.
- `src/server`: what a connection does with each command, `SHOW` statements, session
  probes, types, errors and replies. The engine and the socket are outside: functions
  here take what happened and say what comes next.
- `src/mvcc`: a Bw-tree index.
- `src/incremental`: weighted sets, streams of them, and views that follow a table.
- `src/conformance`: the format of conformance tests, and how a run is judged.
- `src/transaction.rs`, `src/throughput.rs`: transaction statements, and the rows of
  a write benchmark.

`src/text.rs` and `src/numeric.rs` hold what the other modules need of strings and
numbers.

Laws that relate several functions stand as public proof functions beside them: that
a decoded frame gives back what was encoded, that a view holds the rows of its table
that meet its condition, that a mode which was set is the mode that is read.

What cannot be proved is in a few marked places: calls into `std` for UTF-8, character
classes and hash maps, the `smallvec` vectors in the index, and the names of column
types of the `mysql` client. Floating-point numbers are held as bit patterns and
computed outside.

`app/` is the program around the library: the server on tokio, the conformance runner
on the `mysql` client, and the benchmark. It needs the Turso engine (`turso_core`,
`turso_mysql_parser`, `limbo_crypto`, `turso`), which is built from its own workspace.

`tests/` run the library on concrete values.
