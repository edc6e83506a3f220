# beava

The logic of a server for a framed TCP protocol, and of the load generators for
it, verified with Verus.

The library does no I/O. Where the logic waits for a socket, a channel or a
clock, it is a state machine: `step` takes what has happened and says what is to
be done next, and its contract says which step may follow which event.

- `wire`: frames, and the laws of cutting a stream of bytes into frames.
- `wire_request`: what a frame asks for.
- `net::connection`, `net::server`, `net::response`: reading frames, serving a
  connection, and the frames that carry responses.
- `io_thread_worker`, `worker_loop`: the clients of an I/O worker thread, and
  its loop.
- `bench`: how the load is spread over connections and threads, and how
  latencies are measured.
- `buffer`, `json`, `histogram`: the items of the `bytes`, `serde_json` and
  `hdrhistogram` crates that the library calls, with what it relies on.

`app/` holds the programs: sockets, channels, threads, clocks, command lines,
and everything that is a floating-point number.
