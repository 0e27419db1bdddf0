# raftor

A distributed websocket chat: users connect to any node of a cluster, rooms
and users are spread over the nodes by a consistent hash ring, and nodes talk
to each other over length-prefixed JSON frames.

## Layout

- `src/` is the verified library (Verus):
  - `network/codec.rs`: framing of node-to-node messages, with the
    round-trip and streaming laws of the frame format;
  - `utils.rs`: node ids derived from cluster addresses (SHA-256);
  - `hash_ring.rs`: the ring that places rooms and users on nodes;
  - `network/network.rs`: a node's bookkeeping of its peers (known nodes,
    connections, cut-off nodes, raft routing);
  - `network/node.rs`, `network/session.rs`: the two ends of a peer
    connection (pending requests, heartbeats);
  - `server.rs`: the chat rooms and connected users of a node, with the
    laws that tie joining, listing, sending and creating rooms together;
  - `session.rs`: a user's websocket session;
  - `raftor.rs`, `network/remote.rs`, `network/request.rs`, `channel.rs`,
    `config.rs`: the smaller decisions and types.
- `tests/` exercises the library on concrete values.
- `app/` is the program: actix actors, sockets, HTTP routes and JSON, around
  the library.
