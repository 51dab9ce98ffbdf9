# erlang_port

Helpers for writing Erlang/Elixir ports in Rust, verified with Verus.

A port opened with `{:packet, N}` exchanges packets: an `N`-byte big-endian
size header followed by the payload, an EETF document.

- `src/packet.rs`: `PacketSize`, the size header (`encode_size`, `decode_size`)
  and the laws of packet framing (round trip, unambiguity, a stream of packets
  read back in order).
- `src/message.rs`: `MessageSerialize` / `MessageDeserialize`, the EETF
  documents of `i8`, `i32` and `String` in both directions with their round
  trips, and the `{ok, _}` / `{error, _}` replies of `ErlResult`.
- `src/port.rs`: `PacketReceiver` / `PacketSender` implementing `PortReceive` /
  `PortSend` over any `ByteSource` / `ByteSink`, the in-memory `ByteCursor`
  (and `Vec<u8>` as a sink), `MessageIterator`, `IOPort`.
  The contracts of `send` and `receive` speak of the writer's `written` bytes
  and the reader's `pending` bytes for streams that declare they obey the
  stream laws, as `ByteCursor` and `Vec<u8>` do. The laws there tie them
  together: a send reads back (`law_receive_reads_back_send`), and so do
  `i8`, `i32` and `String` messages, a size header reads back, `k` packets are received or iterated in order, and `reply` is
  `send` of the converted response.
- `app/lib.rs`: the glue that Verus does not see: std I/O adapters (`stdio`,
  `nouse_stdio`), serde-based messages (`Eetf<T>`), the serde form of
  `ErlResult`, and a std `Iterator` over messages.
