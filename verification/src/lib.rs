//! erlang_port helps make writing Erlang/Elixir ports in Rust easier.
//!
//! A port opened in Erlang/Elixir with the `{:packet, N}` option exchanges
//! packets: an `N`-byte big-endian size header followed by that many bytes of
//! payload. Payloads are documents in erlang external term format, suitable
//! for passing to/receiving from `binary_to_term`/`term_to_binary`.
//!
//! - `packet`: the size header and the framing of packets, with the laws that
//!   make framing unambiguous.
//! - `message`: the `MessageSerialize`/`MessageDeserialize` traits and the
//!   `{ok, _}`/`{error, _}` replies of `ErlResult`.
//! - `port`: `PacketReceiver`/`PacketSender`, which implement the
//!   `PortReceive`/`PortSend` traits over any `ByteSource`/`ByteSink`.
//!
//! If you wish to implement a line-based port or a custom port protocol (using
//! the :stream option) you can do so by implementing the
//! `PortSend`/`PortReceive` traits.
pub mod message;
pub mod packet;
pub mod port;

pub use message::{ErlResult, MessageDeserialize, MessageSerialize};
pub use packet::{decode_size, encode_size, PacketSize};
pub use port::{
    ByteCursor, ByteSink, ByteSource, IOPort, MessageIterator, PacketReceiver, PacketSender, PortReceive,
    PortSend,
};
