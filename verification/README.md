# p2p3

A peer-to-peer message passer. Each node keeps the peers it knows, passes
broadcasts on around the ring of peers once per source and sequence
number, and spreads the connection information of newcomers so that they
connect to the rest of the network. Peers share a configuration file that
lists where the network can be reached.

- `src/` is the library, verified with Verus. `network` holds the message
  kinds, the state of a node (`MessagePasser`), what it does with each
  message and each network event, and the `MessagePasserT` operations
  built on sending; `network::peer_map` is the ordered map of peers,
  `network::bootstrap_handler` the shared configuration, and
  `network::properties` the properties that span several steps. `old_copy`
  holds a simpler node with a plain broadcast counter.
- `app/` is the transport: the connection service and its event thread,
  the encodings on the wire and on disk, and the git repository that holds
  the configuration. After each step the library hands over the messages to
  send, the bytes to pass on and the requests for the connection service,
  and the transport carries them out.
- `tests/` runs the library on concrete values.
