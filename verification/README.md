# futuapi

Client for the FutuOpenD quote and trade gateway.

- `src/` is the verified library: the packet header and its byte layout
  (`protocol.rs`), the framing of request packets with the SHA-1 digest of
  the body, the bookkeeping of a connection (serial numbers, online flag,
  reply channels, reconnection backoff, routing of incoming packets), the
  parsing of security lists such as `"SH000001,hz399001"` (`common.rs`) and
  the protocol enumerations the logic reads (`pb.rs`).
- `app/` is the asynchronous client around it: the TCP connection, the
  protobuf messages, heartbeat and reconnection tasks, and the request
  methods of `FutuApi`.
- `tests/` runs the library on concrete values.
