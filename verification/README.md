# Bluefin

Bluefin is an experimental transport protocol on top of UDP: connections are
opened by a three-way handshake, bytes are cut into numbered packets of up to 1500
bytes, ten of which fit into a datagram, what was read is acknowledged, and a
connection is closed by an exchange of `Fin` and `FinAck`.

The library holds all that the protocol decides, as code whose contracts are proved
by Verus. It does no input or output of its own: it says which datagram to send,
which task to wake and what to tell a listener, and is told what came.

## Layout

- `src/wire`: headers and packets, and their bytes.
- `src/handshake.rs`, `src/endpoint.rs`: the beginning of a handshake, and the
  hellos and the calls of `accept()` that wait for each other.
- `src/connection`: the state machine of the close.
- `src/worker`: the tasks of a host. `packing` says what the datagrams of a stream
  are, `writer` and `ack` make them, `pump` drives the two, `handle` is what callers
  send through, `pending` counts what a flush waits for; `reader` and `conn_reader`
  put datagrams into the buffers of a connection and take bytes out. `flush` relates
  the count to what is on the wire, `end_of_stream` says what is read after a `Fin`.
- `src/net`: what a host keeps of its connections. `ordered_bytes` puts packets back
  into order; `client`, `server` and `established` open and close connections;
  `delivery` relates what is read to what was sent.
- `src/socket`, `src/utils`: what the use of a socket and of the cores decides, and
  a ring buffer.
- `src/tool`, `src/bench`, `src/text`: the decisions of the two kinds of programs,
  and numbers as text.
- `tests`: the tests of the library.
- `app`: the programs around it, with the sockets, the tasks and the terminal: a
  netcat-like tool, and the client and the server of a benchmark.

## What is relied on

A few outside functions are taken at their word: the buffers of `bytes`, the map of
`dashmap`, the channels of `tokio`, the generator of `rand`, and `String::push` and
`Waker` of `std`. Their contracts stand in `src/shared_bytes.rs`,
`src/net/registry.rs`, `src/net/wake.rs`, `src/worker/channel.rs`,
`src/handshake.rs`, `src/tool/args.rs` and `src/text.rs`.

The laws of the protocol are the proof functions whose names begin with `law_`. Some
of them: a reader finds in a datagram exactly the packets that were written; no byte
is lost, doubled or moved on its way into datagrams; packets can arrive in any order,
while others are read; a flush ends when every accepted byte is on the wire; after a
`Fin` only what was already buffered is read, and the end of a stream lasts; the two
ends of a handshake agree on the numbers of their first data packets; a `Fin` is
answered, and sent no more than three times.
