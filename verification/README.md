# nakamoto-net-poll

A poll-based reactor for Bitcoin peers that talk over the encrypted transport of BIP 324.

The library in `src/` does no I/O. It is told what happened to sockets and what the service
asks for, keeps track of peers and of their encrypted connections, and says what is left to do.
Its functions are verified with Verus, but for the calls at the two boundaries named below.

- `reactor`: peers, the queue of messages that wait, and what to do for each event.
- `session`: the handshake and the channel of one connection.
- `framing`: packets in a stream of received bytes.
- `cycle`: the order in which things are done while the reactor runs.
- `laws`, `reactor_laws`, `process_laws`: what holds of connections, of reactors, and of
  reactors over many calls.
- `transport`, `sources`: the boundary to the `bip324` and `popol` crates. What is believed of
  them without proof stands here, and only here.
- `peers`, `addr`, `io`, `time`, `dial`, `node`, `bip324_info`: what the rest is made of.

`app/` holds the sockets, clocks and channels around the library.

Where a connection cannot go on, the library returns a `Fault`; `app/` panics on it.
