# ZettaTransport

The rules of an encrypted, multiplexed transport over UDP, written and proved in
Verus. One connection carries reliable byte streams and unreliable datagrams,
sharing congestion control, flow control, path validation and path-MTU discovery.

`src/` is the library. It decides and computes: what to do with a packet, what to
send, what to retransmit, how large a window is. It opens no socket and reads no
clock; times are nanoseconds that the caller passes in.

- `wire`, `frame`, `addr`, `payload`, `error`: values that go over the network
- `bitmap`, `replay_window`, `ack_tracker`, `ranges`, `range_list`: which packets arrived
- `unacked`, `unacked_window`, `recovery`: which packets are out, and what becomes of them
- `congestion`: CUBIC and Reno
- `stream_type`, `stream_buffer`, `stream_state`: streams
- `crypto`, `cookie`, `handshake`: the handshake
- `connection`, `actor`, `incoming`, `outgoing`, `event_loop`: a connection and its owner
- `cumulative`, `cumulative_actor`, `shards`: connections with cumulative
  acknowledgements, and those that repair losses from parity packets
- `router`: which connection a datagram belongs to

Functions named `law_..` state what holds of the library as a whole.

`app/` is ordinary Rust around it: sockets, tasks, clocks and floating-point
arithmetic. The wire format and the packet encryption come in there, through traits.
