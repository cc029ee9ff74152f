# catapult

Catapult reads log lines from configurable inputs and sends them to
configurable outputs. This crate is its verified core, written in Verus.

- `src/grammar.rs` states the configuration file's grammar as spec functions
  on bytes; `src/config.rs` parses a file and is proved to compute exactly
  that grammar, including when the parse fails and when it needs more input.
- `src/params.rs` holds the parameters of one processor, viewed as a map.
- `src/processor.rs` is what every input and output shares: its name, its
  mandatory parameters and the check that they are given.
- `src/inputs/` and `src/outputs/` hold, for each processor, the decisions it
  takes on its parameters and on every line: the random line generator, the
  UDP addresses, the Elasticsearch URL, and the hourly rotation of the log
  file.
- `app/main.rs` is the program: it reads the configuration file named by
  the `-c` option (`catapult.conf` by default), runs the threads and does
  the I/O that the library decides on.
