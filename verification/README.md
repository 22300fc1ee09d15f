# kvforge

A key-value store with per-key expiry, its RESP wire protocol, its append-only
log, its server and its command-line client, verified with Verus.

- `src/` is the library: everything but the reading and writing of sockets,
  files and the terminal. Its functions carry contracts, and the modules whose
  names end in `_laws` prove what holds of it as a whole.
- `app/` is the program around it: a TCP server that replays and appends to the
  log, and a client with a one-shot and an interactive mode.
- `tests/` runs the library.

| module     | what it holds                                                     |
|------------|-------------------------------------------------------------------|
| `protocol` | values, and their encoding on the wire                            |
| `number`   | decimal numbers                                                   |
| `command`  | commands, and the requests that stand for them                    |
| `store`    | the store, on top of `table` and `index`                          |
| `duration` | spans of time, and the clock                                      |
| `exec`     | what a command does to a store, and its reply                     |
| `aof`      | the log and its replay                                            |
| `session`  | what a server makes of its input, and a client of its replies     |
| `tokenize` | the words of an input line                                        |
| `repl`     | what the client makes of its arguments and input lines            |
| `format`   | how a reply is shown                                              |
| `text`     | what is relied on of the standard library's strings               |
