# socket

A small non-blocking TCP socket server on mio, with a verified core.

- `src/` (verified with Verus)
  - `transfer.rs`: one step of a non-blocking read loop or write loop, and
    the law that recorded reads append every delivered byte in order.
  - `client.rs`: `ReadWrite`, the buffers of a client connection.
  - `server.rs`: routing of poll tokens and what happens to a readable
    client (close, or hand over everything read as one message).
  - `parser.rs`: `HttpHeaders`, which collects the header names and values
    an HTTP parser reports into an `FnvHashMap`.
  - `echo.rs`: the HTTP echo responder: when a request is complete, the
    response it gets, and when a connection is done.
  - `ws_server.rs`: token counting and per-client actions of the
    counter-based server.
- `app/`: the program around it: sockets, the poll loops, the slab of
  connections, user callbacks, and http-muncher's handler trait.
- `tests/`: tests of the library on concrete values.
