# rezmq_native

Fast ZeroMQ bindings for Elixir: a background worker thread multiplexes the
I/O of ZeroMQ sockets with `zmq_poll`, so that the BEAM scheduler never blocks.

The crate is split in two:

- `src/` is the verified library. `worker` holds the worker's state (live
  sockets with their handles, readers, write queues), kept well-formed by a
  type invariant, decodes written messages, and takes the decisions of the
  I/O loop: what to poll, what to do on each poll result and each send, what
  a request changes, and what is answered, including how a libzmq return
  code becomes a reply.
  `model` is its mathematical model, `laws` the properties proved of it, `frames` how messages are framed, `poll` the control channel,
  `reply` what the NIF calls answer, `order` the sorted listing of map keys.
  The laws include properties over whole sequences of events (`model::Event`),
  over a whole write round, and over a whole stream of received frames.
- `app/` is the NIF itself: resources, the request channel, the libzmq calls,
  term encoding of replies, and the loop that performs the I/O and hands its
  outcome to the library.
