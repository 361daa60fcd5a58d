# tcpclient

The verified core of a Tauri plugin that opens TCP connections for a web
front end and reports what happens on them as events.

- `src/` — the library, verified with Verus:
  - `desktop.rs`: the table of open connections (at most one per name, each
    recorded with a tag larger than any before), with the operations that connect,
    close, look up and list them, the choice of resolved addresses, and the
    laws that relate these operations;
  - `reader.rs`: what each read on a connection leads to (message, orderly
    close, or failure), and the reading session of a connection, whose
    events always run Connect, messages, one final Disconnect;
  - `history.rs`: the changes made to a table, and the law that a name is
    listed exactly while its last connect has been neither closed, nor
    replaced, nor had its reading task end;
  - `failure.rs`: how an I/O failure is classified as a reset, a timeout or
    another error (never both a reset and a timeout);
  - `mobile.rs`: the client on mobile platforms, where connections are not
    offered;
  - `models.rs`, `error.rs`: the event and error types.
- `app/` — the plugin itself: Tauri commands, tokio sockets, socket2 binding,
  the reading task and the serde forms of the events.
- `tests/` — tests of the library on concrete values.
