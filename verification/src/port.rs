//! Receivers and senders for ports opened in packet mode.
use crate::message::{
    binary_term, eetf_binary, eetf_integer, fix_integer_term, law_integer_round_trip,
    law_string_round_trip, ErlResult, MessageDeserialize, MessageSerialize, ETF_VERSION,
};
use crate::packet::{
    be_value, byte_range, decode_size, encode_size, header_bytes, law_header_round_trip,
    law_packet_round_trip, law_packet_stream_in_order, law_size_header_read_back,
    law_size_round_trip, packet_bytes, packet_stream, split_packet, PacketSize,
};
use std::marker::PhantomData;
use vstd::prelude::*;

verus! {

/// The stream of bytes a `PacketReceiver` reads from.
///
/// This has the shape of `std::io::Read::read_exact`; the application wraps
/// stdin, file descriptor 3 or any other reader in an implementation of it.
///
/// The stream is modelled by `pending`, the bytes it has still to deliver.
/// An implementation that declares `obeys_source_laws` promises the clauses
/// guarded by it; one that does not (every implementation outside this crate,
/// which cannot define spec functions) is promised nothing of.
pub trait ByteSource {
    /// Whether this implementation keeps the laws below.
    open spec fn obeys_source_laws() -> bool {
        false
    }

    /// The bytes the stream has still to deliver, in order.
    open spec fn pending(&self) -> Seq<u8> {
        Seq::empty()
    }

    /// Fills `buf` with the next bytes of the stream. Returns `false` when the
    /// stream ended before `buf` was full. An implementation on top of real
    /// I/O panics on any other failure.
    ///
    /// The first clause is what Rust guarantees of any `&mut [u8]`: a slice
    /// keeps its length.
    fn read_or_end(&mut self, buf: &mut [u8]) -> (filled: bool)
        ensures
            final(buf)@.len() == old(buf)@.len(),
            Self::obeys_source_laws() ==> (filled <==> old(buf)@.len() <= old(self).pending().len()),
            Self::obeys_source_laws() && filled ==> old(self).pending() == final(buf)@
                + final(self).pending(),
    ;

    /// Fills `buf` with the next bytes of the stream. A stream that obeys the
    /// laws must be asked for no more than it has pending; on top of real I/O,
    /// a stream that cannot fill `buf` panics.
    fn read_exact(&mut self, buf: &mut [u8])
        requires
            Self::obeys_source_laws() ==> old(buf)@.len() <= old(self).pending().len(),
        ensures
            final(buf)@.len() == old(buf)@.len(),
            Self::obeys_source_laws() ==> old(self).pending() == final(buf)@ + final(self).pending(),
    ;
}

/// The stream of bytes a `PacketSender` writes to.
///
/// This has the shape of `std::io::Write`; the application wraps stdout, file
/// descriptor 4 or any other writer in an implementation of it.
///
/// The stream is modelled by `written`, all bytes written so far, and
/// `flushed`, the part of them that has been flushed. An implementation that
/// declares `obeys_sink_laws` promises the clauses guarded by it; one that
/// does not is promised nothing of.
pub trait ByteSink {
    /// Whether this implementation keeps the laws below.
    open spec fn obeys_sink_laws() -> bool {
        false
    }

    /// The bytes written to the stream so far, in order.
    open spec fn written(&self) -> Seq<u8> {
        Seq::empty()
    }

    /// The bytes of the stream that have been flushed.
    open spec fn flushed(&self) -> Seq<u8> {
        Seq::empty()
    }

    /// Writes all of `bytes`. When it cannot, this does not return: an
    /// implementation on top of real I/O panics.
    fn write_all(&mut self, bytes: &[u8])
        ensures
            Self::obeys_sink_laws() ==> final(self).written() == old(self).written() + bytes@,
    ;

    /// Flushes what was written. When it cannot, this does not return.
    fn flush(&mut self)
        ensures
            Self::obeys_sink_laws() ==> final(self).written() == old(self).written(),
            Self::obeys_sink_laws() ==> final(self).flushed() == final(self).written(),
    ;
}

/// A vector collects what is written to it, as `std::io::Write` does for
/// `Vec<u8>`; nothing is buffered.
impl ByteSink for Vec<u8> {
    open spec fn obeys_sink_laws() -> bool {
        true
    }

    open spec fn written(&self) -> Seq<u8> {
        self@
    }

    open spec fn flushed(&self) -> Seq<u8> {
        self@
    }

    fn write_all(&mut self, bytes: &[u8])
        ensures
            final(self)@ == old(self)@ + bytes@,
    {
        self.extend_from_slice(bytes);
        assert(self@ =~= old(self)@ + bytes@);
    }

    fn flush(&mut self)
        ensures
            final(self)@ == old(self)@,
    {
    }
}

/// A stream over bytes held in memory, read from the front, as
/// `std::io::Cursor` reads a `Vec<u8>`.
pub struct ByteCursor {
    bytes: Vec<u8>,
    position: usize,
}

impl ByteCursor {
    #[verifier::type_invariant]
    spec fn position_in_bounds(self) -> bool {
        self.position <= self.bytes@.len()
    }

    /// A stream that delivers `bytes`, in order.
    pub fn new(bytes: Vec<u8>) -> (cursor: Self)
        ensures
            cursor.rest() == bytes@,
    {
        let cursor = ByteCursor { bytes, position: 0 };
        assert(cursor.rest() =~= cursor.bytes@);
        cursor
    }
}

impl ByteCursor {
    /// The bytes left to read.
    pub closed spec fn rest(&self) -> Seq<u8> {
        self.bytes@.skip(self.position as int)
    }

    /// Copies the next `buf.len()` bytes into `buf` and moves past them.
    fn take_into(&mut self, buf: &mut [u8])
        requires
            old(buf)@.len() <= old(self).rest().len(),
        ensures
            final(buf)@.len() == old(buf)@.len(),
            old(self).rest() == final(buf)@ + final(self).rest(),
    {
        proof {
            use_type_invariant(&*self);
        }
        let start = self.position;
        let n = buf.len();
        assert(start + n <= self.bytes.len());
        for i in 0..n
            invariant
                n == buf@.len(),
                start + n <= self.bytes.len(),
                self.position == start,
                self.bytes == old(self).bytes,
                forall|j: int| 0 <= j < i ==> buf@[j] == self.bytes@[start + j],
        {
            buf[i] = self.bytes[start + i];
        }
        self.position = start + n;
        assert(old(self).rest() =~= buf@ + self.rest());
    }
}

impl ByteSource for ByteCursor {
    open spec fn obeys_source_laws() -> bool {
        true
    }

    open spec fn pending(&self) -> Seq<u8> {
        self.rest()
    }

    /// When fewer than `buf.len()` bytes are left, the rest of the stream is
    /// consumed and `false` returned, as `Read::read_exact` does for a cursor.
    fn read_or_end(&mut self, buf: &mut [u8]) -> (filled: bool) {
        proof {
            use_type_invariant(&*self);
        }
        let left = self.bytes.len() - self.position;
        if buf.len() <= left {
            self.take_into(buf);
            true
        } else {
            self.position = self.bytes.len();
            false
        }
    }

    fn read_exact(&mut self, buf: &mut [u8]) {
        self.take_into(buf);
    }
}

/// Reading through a mutable reference reads from what it points at.
impl<'a, S: ByteSource> ByteSource for &'a mut S {
    open spec fn obeys_source_laws() -> bool {
        S::obeys_source_laws()
    }

    open spec fn pending(&self) -> Seq<u8> {
        (**self).pending()
    }

    fn read_or_end(&mut self, buf: &mut [u8]) -> (filled: bool) {
        (**self).read_or_end(buf)
    }

    fn read_exact(&mut self, buf: &mut [u8]) {
        (**self).read_exact(buf);
    }
}

/// Writing through a mutable reference writes to what it points at.
impl<'a, S: ByteSink> ByteSink for &'a mut S {
    open spec fn obeys_sink_laws() -> bool {
        S::obeys_sink_laws()
    }

    open spec fn written(&self) -> Seq<u8> {
        (**self).written()
    }

    open spec fn flushed(&self) -> Seq<u8> {
        (**self).flushed()
    }

    fn write_all(&mut self, bytes: &[u8]) {
        (**self).write_all(bytes);
    }

    fn flush(&mut self) {
        (**self).flush();
    }
}

/// `PortReceive` allows an app to receive messages through an Erlang port.
pub trait PortReceive {
    /// Receives a single message over the port.
    ///
    /// If there are no more messages returns None. If there's a problem reading
    /// the message it will panic.
    ///
    /// A `MessageDeserialize` implementation should exist for the message we are
    /// reading.
    ///
    /// An implementation that declares `obeys_receive_laws` promises that the
    /// message is deserialized from a payload of which `receives` holds. The
    /// message type must accept every payload the receiver may hand on.
    fn receive<T>(&mut self) -> (message: Option<T>) where T: MessageDeserialize
        requires
            old(self).can_receive(),
            forall|payload: Seq<u8>| #[trigger] old(self).may_deliver(payload) ==> T::accepts(payload),
        ensures
            Self::obeys_receive_laws() ==> exists|payload: Option<Vec<u8>>|
                Self::receives(&*old(self), &*final(self), payload) && match (payload, message) {
                    (None, None) => true,
                    (Some(p), Some(m)) => call_ensures(T::deserialize_message, (p,), m),
                    _ => false,
                },
    ;

    /// Whether this implementation keeps the law of `receive` above.
    open spec fn obeys_receive_laws() -> bool {
        false
    }

    /// Whether `receive` may be called in this state. A packet receiver
    /// reading a stream that obeys the source laws requires that the stream
    /// does not end inside a packet: on such a stream the call could not
    /// return (a reader on top of real I/O panics).
    open spec fn can_receive(&self) -> bool {
        true
    }

    /// Whether `payload` may be the next payload this receiver hands to the
    /// deserializer; by default, any.
    open spec fn may_deliver(&self, payload: Seq<u8>) -> bool {
        true
    }

    /// What a call of `receive` does to the receiver, from `before` to
    /// `after`, and which payload it hands to the deserializer (`None`: no
    /// message).
    open spec fn receives(before: &Self, after: &Self, payload: Option<Vec<u8>>) -> bool {
        true
    }

    /// Creates an iterator over a series of messages read from the port.
    fn iter<'a, T>(&'a mut self) -> (iter: MessageIterator<'a, Self, T>) where Self: Sized
        ensures
            iter.receiver() == *old(self),
    {
        MessageIterator { receiver: self, phantom: PhantomData }
    }
}

/// `PortSend` allows an application to send messages through an Erlang port.
pub trait PortSend {
    /// Sends a single message over the port.
    ///
    /// In Erlang "Let it Crash" style, if we fail to encode the command or write it
    /// to a stream we will panic. Since this library is intended to be used as part
    /// of an Erlang system this should be picked up by the BEAM VM which can
    /// restart the Port.
    ///
    /// An implementation that declares `obeys_send_laws` promises that it
    /// sends the bytes that the message's `serialize_message` returns, as
    /// `sends` says.
    fn send<T>(&mut self, data: T) where T: MessageSerialize
        ensures
            Self::obeys_send_laws() ==> exists|bytes: Vec<u8>|
                call_ensures(T::serialize_message, (data,), bytes) && Self::sends(
                    &*old(self),
                    &*final(self),
                    bytes@,
                ),
    ;

    /// Whether this implementation keeps the law of `send` above.
    open spec fn obeys_send_laws() -> bool {
        false
    }

    /// What sending the serialized message `bytes` does to the sender, from
    /// `before` to `after`.
    open spec fn sends(before: &Self, after: &Self, bytes: Seq<u8>) -> bool {
        true
    }

    /// Sends an `{:ok, T}` or `{:error, E}` over the port.
    ///
    /// This can be used to reply to a command that was received in the port, or to
    /// send arbitrary commands to the Port inside the BEAM.
    ///
    /// Applications can pass any data type they want into `reply`, provided there's
    /// a definition of `Into<ErlResult<T, E>>` for that type. A default
    /// implementation is provided for `Result<T, E>`.
    ///
    /// It sends the `ErlResult` that `response` converts into.
    fn reply<R, T, E>(&mut self, response: R) where
        R: Into<ErlResult<T, E>>,
        T: MessageSerialize,
        E: MessageSerialize,

        ensures
            Self::obeys_send_laws() ==> exists|reply: ErlResult<T, E>, bytes: Vec<u8>|
                call_ensures(R::into, (response,), reply) && call_ensures(
                    ErlResult::<T, E>::serialize_message,
                    (reply,),
                    bytes,
                ) && Self::sends(&*old(self), &*final(self), bytes@),
    {
        let reply: ErlResult<T, E> = response.into();
        self.send::<ErlResult<T, E>>(reply);
    }
}

/// What a call of `receive` did, from the receiver `before` to `after`,
/// returning `message`: the receiver handed on a payload (or none) as its
/// `receives` says, and the message is what `deserialize_message` made of it.
pub open spec fn received_message<P: PortReceive + ?Sized, T: MessageDeserialize>(
    before: &P,
    after: &P,
    message: Option<T>,
) -> bool {
    exists|payload: Option<Vec<u8>>|
        P::receives(before, after, payload) && match (payload, message) {
            (None, None) => true,
            (Some(p), Some(m)) => call_ensures(T::deserialize_message, (p,), m),
            _ => false,
        }
}

/// What a call of `send` did, from the sender `before` to `after`, sending
/// `message`: the bytes that `serialize_message` returned were sent as the
/// sender's `sends` says.
pub open spec fn sent_message<P: PortSend + ?Sized, M: MessageSerialize>(
    before: &P,
    after: &P,
    message: M,
) -> bool {
    exists|bytes: Vec<u8>|
        call_ensures(M::serialize_message, (message,), bytes) && P::sends(before, after, bytes@)
}

/// A receiver for ports opened in Packet mode.
///
/// If a port is opened with the `{:packet, N}` option then this receiver can
/// be used with the `packet_size` set to `N`
pub struct PacketReceiver<R> {
    reader: R,
    packet_size: PacketSize,
}

impl<R: ByteSource> PacketReceiver<R> {
    /// The reader packets are taken from.
    pub closed spec fn reader(&self) -> R {
        self.reader
    }

    /// The size of the packet headers this receiver expects.
    pub closed spec fn packet_size(&self) -> PacketSize {
        self.packet_size
    }

    pub fn from_reader(reader: R, packet_size: PacketSize) -> (receiver: Self)
        ensures
            receiver.reader() == reader,
            receiver.packet_size() == packet_size,
    {
        PacketReceiver { reader, packet_size }
    }

    /// What reading a size header does, from the receiver `before` to
    /// `after`, returning `size`: the packet size is kept; from a reader that
    /// obeys the source laws, `None` comes exactly when fewer bytes than a
    /// header are left, and `Some(n)` takes off the stream the header that
    /// denotes `n`.
    pub open spec fn reads_size(before: &Self, after: &Self, size: Option<usize>) -> bool {
        &&& after.packet_size() == before.packet_size()
        &&& R::obeys_source_laws() ==> (size is None <==> before.reader().pending().len()
            < before.packet_size().width())
        &&& R::obeys_source_laws() ==> (size matches Some(n) ==> before.reader().pending()
            == header_bytes(before.packet_size(), n as nat) + after.reader().pending() && n
            == be_value(before.reader().pending().take(before.packet_size().width() as int)))
    }

    /// Reads the size header of the next packet, or `None` when the stream
    /// ended before one.
    fn read_size(&mut self) -> (size: Option<usize>)
        ensures
            Self::reads_size(&*old(self), &*final(self), size),
    {
        let width = self.packet_size.header_len();
        let mut header: Vec<u8> = vec![0u8; width];
        if !self.reader.read_or_end(header.as_mut_slice()) {
            return None;
        }
        let n = decode_size(self.packet_size, header.as_slice());
        proof {
            law_header_round_trip(self.packet_size, header@);
            if R::obeys_source_laws() {
                assert(old(self).reader().pending().take(width as int) =~= header@);
            }
        }
        Some(n)
    }

    /// Reads a whole packet and returns its payload, or `None` when the
    /// stream ended before the packet's size header.
    fn read_packet(&mut self) -> (payload: Option<Vec<u8>>)
        requires
            R::obeys_source_laws() ==> (old(self).reader().pending().len()
                < old(self).packet_size().width() || split_packet(
                old(self).packet_size(),
                old(self).reader().pending(),
            ) is Some),
        ensures
            final(self).packet_size() == old(self).packet_size(),
            R::obeys_source_laws() ==> (payload is None <==> old(self).reader().pending().len()
                < old(self).packet_size().width()),
            R::obeys_source_laws() ==> (payload matches Some(p) ==> split_packet(
                old(self).packet_size(),
                old(self).reader().pending(),
            ) == Some((p@, final(self).reader().pending()))),
    {
        match self.read_size() {
            None => None,
            Some(size) => {
                let ghost before = self.reader.pending();
                proof {
                    if R::obeys_source_laws() {
                        let stream = old(self).reader().pending();
                        let w = self.packet_size.width();
                        law_size_round_trip(self.packet_size, size as nat);
                        assert(stream.len() == w + before.len());
                        assert(stream.take(w as int) =~= header_bytes(self.packet_size, size as nat));
                        assert(size <= before.len());
                    }
                }
                let mut payload: Vec<u8> = vec![0u8; size];
                self.reader.read_exact(payload.as_mut_slice());
                proof {
                    if R::obeys_source_laws() {
                        let w = self.packet_size.width();
                        let stream = old(self).reader().pending();
                        law_header_round_trip(self.packet_size, stream.take(w as int));
                        assert(stream.take(w as int) =~= header_bytes(self.packet_size, size as nat));
                        assert(stream =~= header_bytes(self.packet_size, size as nat) + before);
                        assert(stream.len() == w + size + self.reader.pending().len());
                        assert(stream.subrange(w as int, w + size) =~= payload@);
                        assert(stream.skip(w + size) =~= self.reader.pending());
                    }
                }
                Some(payload)
            },
        }
    }
}

impl<R: ByteSource> PortReceive for PacketReceiver<R> {
    /// Reads exactly one packet off the stream and deserializes its payload;
    /// `None` when the stream ended before the packet's size header. When
    /// the stream ends inside a packet, the reader does not return.
    open spec fn obeys_receive_laws() -> bool {
        R::obeys_source_laws()
    }

    /// A packet receiver keeps its packet size. From a reader that obeys the
    /// source laws, it hands on no payload exactly when fewer bytes than a
    /// size header are left, and otherwise takes exactly one packet off the
    /// stream and hands on its payload.
    open spec fn receives(before: &Self, after: &Self, payload: Option<Vec<u8>>) -> bool {
        &&& after.packet_size() == before.packet_size()
        &&& (payload is None <==> before.reader().pending().len() < before.packet_size().width())
        &&& (payload matches Some(p) ==> split_packet(
            before.packet_size(),
            before.reader().pending(),
        ) == Some((p@, after.reader().pending())))
    }

    /// From a reader that obeys the source laws, only the payload of the
    /// next packet on the stream.
    open spec fn may_deliver(&self, payload: Seq<u8>) -> bool {
        R::obeys_source_laws() ==> (split_packet(self.packet_size(), self.reader().pending()) matches Some(
            (p, _),
        ) && p == payload)
    }

    /// The stream either ends before the next size header, or holds the
    /// whole next packet.
    open spec fn can_receive(&self) -> bool {
        R::obeys_source_laws() ==> (self.reader().pending().len() < self.packet_size().width()
            || split_packet(self.packet_size(), self.reader().pending()) is Some)
    }

    fn receive<T>(&mut self) -> (message: Option<T>) where T: MessageDeserialize
        ensures
            final(self).packet_size() == old(self).packet_size(),
            R::obeys_source_laws() ==> (message is None <==> old(self).reader().pending().len()
                < old(self).packet_size().width()),
            R::obeys_source_laws() ==> (message matches Some(m) ==> exists|payload: Vec<u8>|
                call_ensures(T::deserialize_message, (payload,), m) && split_packet(
                    old(self).packet_size(),
                    old(self).reader().pending(),
                ) == Some((payload@, final(self).reader().pending()))),
    {
        match self.read_packet() {
            None => {
                assert(R::obeys_source_laws() ==> Self::receives(&*old(self), &*self, None));
                None
            },
            Some(payload) => {
                let ghost p = payload;
                assert(old(self).may_deliver(p@));
                let message = T::deserialize_message(payload);
                assert(call_ensures(T::deserialize_message, (p,), message));
                assert(R::obeys_source_laws() ==> Self::receives(&*old(self), &*self, Some(p)));
                Some(message)
            },
        }
    }
}

/// A sender for ports opened in Packet mode.
///
/// If a port is opened with the `{:packet, N}` option then this sender can
/// be used with the `packet_size` set to `N`
pub struct PacketSender<W> {
    writer: W,
    packet_size: PacketSize,
}

impl<W: ByteSink> PacketSender<W> {
    /// The writer packets are written to.
    pub closed spec fn writer(&self) -> W {
        self.writer
    }

    /// The size of the packet headers this sender writes.
    pub closed spec fn packet_size(&self) -> PacketSize {
        self.packet_size
    }

    pub fn from_writer(writer: W, packet_size: PacketSize) -> (sender: Self)
        ensures
            sender.writer() == writer,
            sender.packet_size() == packet_size,
    {
        PacketSender { writer, packet_size }
    }

    /// What writing a size header does, from the sender `before` to `after`:
    /// the packet size is kept, and a writer that obeys the sink laws gets the
    /// header for `size` appended.
    pub open spec fn writes_size(before: &Self, after: &Self, size: usize) -> bool {
        &&& after.packet_size() == before.packet_size()
        &&& W::obeys_sink_laws() ==> after.writer().written() == before.writer().written()
            + header_bytes(before.packet_size(), size as nat)
    }

    /// Writes the size header for a payload of `size` bytes.
    fn write_size(&mut self, size: usize)
        ensures
            Self::writes_size(&*old(self), &*final(self), size),
    {
        let header = encode_size(self.packet_size, size);
        self.writer.write_all(header.as_slice());
    }

    /// Writes one packet carrying `data`, and flushes it.
    fn write_packet(&mut self, data: &[u8])
        ensures
            final(self).packet_size() == old(self).packet_size(),
            W::obeys_sink_laws() ==> final(self).writer().written() == old(self).writer().written()
                + packet_bytes(old(self).packet_size(), data@),
            W::obeys_sink_laws() ==> final(self).writer().flushed() == final(self).writer().written(),
    {
        self.write_size(data.len());
        self.writer.write_all(data);
        self.writer.flush();
        proof {
            if W::obeys_sink_laws() {
                assert(self.writer.written() =~= old(self).writer().written() + packet_bytes(
                    self.packet_size,
                    data@,
                ));
            }
        }
    }
}

impl<W: ByteSink> PortSend for PacketSender<W> {
    open spec fn obeys_send_laws() -> bool {
        true
    }

    /// A packet sender keeps its packet size; when its writer obeys the sink
    /// laws, it appends to the writer the packet carrying `bytes`, and leaves
    /// everything written flushed.
    open spec fn sends(before: &Self, after: &Self, bytes: Seq<u8>) -> bool {
        &&& after.packet_size() == before.packet_size()
        &&& W::obeys_sink_laws() ==> after.writer().written() == before.writer().written()
            + packet_bytes(before.packet_size(), bytes)
        &&& W::obeys_sink_laws() ==> after.writer().flushed() == after.writer().written()
    }

    /// Serializes `message` and writes it as one packet, then flushes.
    fn send<T>(&mut self, message: T) where T: MessageSerialize
        ensures
            final(self).packet_size() == old(self).packet_size(),
            W::obeys_sink_laws() ==> exists|data: Vec<u8>|
                call_ensures(T::serialize_message, (message,), data) && final(self).writer().written()
                    == old(self).writer().written() + packet_bytes(old(self).packet_size(), data@),
            W::obeys_sink_laws() ==> final(self).writer().flushed() == final(self).writer().written(),
    {
        let data = message.serialize_message();
        self.write_packet(data.as_slice());
    }
}

/// What a receiver reads back is what a sender wrote: when the bytes a
/// sender appended to its writer for one message are what a receiver's
/// reader has next, the receiver hands that message's bytes to the
/// deserializer and leaves the rest of the stream for the next call. Applied
/// call after call, packets are read back in the order they were sent.
pub proof fn law_receive_reads_back_send<W: ByteSink, R: ByteSource>(
    sender_before: PacketSender<W>,
    sender_after: PacketSender<W>,
    bytes: Seq<u8>,
    receiver_before: PacketReceiver<R>,
    receiver_after: PacketReceiver<R>,
    payload: Option<Vec<u8>>,
    rest: Seq<u8>,
)
    requires
        W::obeys_sink_laws(),
        R::obeys_source_laws(),
        PacketSender::sends(&sender_before, &sender_after, bytes),
        bytes.len() < byte_range(sender_before.packet_size().width()),
        receiver_before.packet_size() == sender_before.packet_size(),
        receiver_before.reader().pending() == sender_after.writer().written().skip(
            sender_before.writer().written().len() as int,
        ) + rest,
        PacketReceiver::receives(&receiver_before, &receiver_after, payload),
    ensures
        payload matches Some(p) && p@ == bytes,
        receiver_after.reader().pending() == rest,
{
    let ps = sender_before.packet_size();
    let packet = packet_bytes(ps, bytes);
    assert(sender_after.writer().written().skip(sender_before.writer().written().len() as int)
        =~= packet);
    law_packet_round_trip(ps, bytes, rest);
    law_size_round_trip(ps, bytes.len());
}

/// A wrapper around a receiver and a sender.
///
/// This struct does not implement PortSend or PortReceive itself, as you could
/// end up mutably borrowing the IOPort when calling `port.iter()` and then
/// you'd be unable to call `port.reply` inside your loop. Instead you should
/// call the functions on receiver and sender directly.
pub struct IOPort<R, S> where R: PortReceive, S: PortSend {
    pub receiver: R,
    pub sender: S,
}

/// Iterator over messages from a PortReceive.
pub struct MessageIterator<'a, R: 'a, T> {
    receiver: &'a mut R,
    phantom: PhantomData<T>,
}

impl<'a, R, T> MessageIterator<'a, R, T> {
    /// The receiver messages are taken from.
    pub closed spec fn receiver(&self) -> R {
        *self.receiver
    }
}

impl<'a, R, T> MessageIterator<'a, R, T> where R: PortReceive {
    pub fn from_receiver(receiver: &'a mut R) -> (iter: MessageIterator<'a, R, T>)
        ensures
            iter.receiver() == *old(receiver),
    {
        MessageIterator { receiver, phantom: PhantomData }
    }
}

impl<'a, R, T> MessageIterator<'a, R, T> where R: PortReceive, T: MessageDeserialize {
    /// Receives the next message, or `None` once the port has no more: what
    /// the receiver's `receive` returns.
    pub fn next(&mut self) -> (message: Option<T>)
        requires
            old(self).receiver().can_receive(),
            forall|payload: Seq<u8>| #[trigger]
                old(self).receiver().may_deliver(payload) ==> T::accepts(payload),
        ensures
            R::obeys_receive_laws() ==> received_message(
                &old(self).receiver(),
                &final(self).receiver(),
                message,
            ),
    {
        let ghost before = *self.receiver;
        let r: &mut R = &mut *self.receiver;
        let message = r.receive();
        let ghost after = *r;
        proof {
            if R::obeys_receive_laws() {
                let payload = choose|payload: Option<Vec<u8>>|
                    R::receives(&before, &after, payload) && match (payload, message) {
                        (None, None) => true,
                        (Some(p), Some(m)) => call_ensures(T::deserialize_message, (p,), m),
                        _ => false,
                    };
                assert(final(self).receiver() == after);
                assert(R::receives(&old(self).receiver(), &final(self).receiver(), payload));
            }
        }
        message
    }
}

/// A size header that a sender writes reads back, on a receiver whose stream
/// holds what was written, as the size it was written for, whenever that size
/// fits the header; what followed the header is left for the next read.
pub proof fn law_read_size_reads_back_write_size<W: ByteSink, R: ByteSource>(
    sender_before: PacketSender<W>,
    sender_after: PacketSender<W>,
    size: usize,
    receiver_before: PacketReceiver<R>,
    receiver_after: PacketReceiver<R>,
    size_read: Option<usize>,
    rest: Seq<u8>,
)
    requires
        W::obeys_sink_laws(),
        R::obeys_source_laws(),
        PacketSender::writes_size(&sender_before, &sender_after, size),
        size < byte_range(sender_before.packet_size().width()),
        receiver_before.packet_size() == sender_before.packet_size(),
        receiver_before.reader().pending() == sender_after.writer().written().skip(
            sender_before.writer().written().len() as int,
        ) + rest,
        PacketReceiver::reads_size(&receiver_before, &receiver_after, size_read),
    ensures
        size_read == Some(size),
        receiver_after.reader().pending() == rest,
{
    let ps = sender_before.packet_size();
    let w = ps.width();
    let header = header_bytes(ps, size as nat);
    assert(sender_after.writer().written().skip(sender_before.writer().written().len() as int)
        =~= header);
    law_size_header_read_back(ps, size as nat, rest);
    let stream = receiver_before.reader().pending();
    assert(stream == header + rest);
    if let Some(n) = size_read {
        law_size_round_trip(ps, n as nat);
        let after = receiver_after.reader().pending();
        assert((header_bytes(ps, n as nat) + after).skip(w as int) =~= after);
    }
}

/// One call of `receive` on a packet receiver whose stream holds the packets
/// for `payloads` from the `i`-th on: the call deserializes the `i`-th payload
/// and leaves the packets after it.
proof fn lemma_receive_takes_next_packet<R: ByteSource, T: MessageDeserialize>(
    receivers: Seq<PacketReceiver<R>>,
    messages: Seq<Option<T>>,
    payloads: Seq<Seq<u8>>,
    i: int,
)
    requires
        R::obeys_source_laws(),
        0 <= i < payloads.len(),
        i + 1 < receivers.len(),
        i < messages.len(),
        forall|j: int|
            0 <= j < payloads.len() ==> #[trigger] payloads[j].len() < byte_range(
                receivers[0].packet_size().width(),
            ),
        receivers[i].packet_size() == receivers[0].packet_size(),
        receivers[i].reader().pending() == packet_stream(receivers[0].packet_size(), payloads.skip(i)),
        received_message(&receivers[i], &receivers[i + 1], messages[i]),
    ensures
        receivers[i + 1].packet_size() == receivers[0].packet_size(),
        receivers[i + 1].reader().pending() == packet_stream(
            receivers[0].packet_size(),
            payloads.skip(i + 1),
        ),
        messages[i] is Some,
        exists|p: Vec<u8>|
            p@ == payloads[i] && call_ensures(T::deserialize_message, (p,), messages[i]->0),
{
    let ps = receivers[0].packet_size();
    law_packet_stream_in_order(ps, payloads, i);
    let payload = choose|payload: Option<Vec<u8>>|
        #[trigger] PacketReceiver::receives(&receivers[i], &receivers[i + 1], payload) && match (
            payload,
            messages[i],
        ) {
            (None, None) => true,
            (Some(p), Some(m)) => call_ensures(T::deserialize_message, (p,), m),
            _ => false,
        };
    assert(payload is Some);
    let p = payload->0;
    assert(p@ == payloads[i]);
}

/// The state of a packet receiver after `j` calls of `receive` on a stream
/// holding the packets for `payloads`: it still has the packets from the
/// `j`-th on.
proof fn lemma_receivers_follow_stream<R: ByteSource, T: MessageDeserialize>(
    receivers: Seq<PacketReceiver<R>>,
    messages: Seq<Option<T>>,
    payloads: Seq<Seq<u8>>,
    j: int,
)
    requires
        R::obeys_source_laws(),
        0 <= j <= payloads.len(),
        receivers.len() == payloads.len() + 2,
        messages.len() == payloads.len() + 1,
        forall|k: int|
            0 <= k < payloads.len() ==> #[trigger] payloads[k].len() < byte_range(
                receivers[0].packet_size().width(),
            ),
        receivers[0].reader().pending() == packet_stream(receivers[0].packet_size(), payloads),
        forall|k: int|
            0 <= k < messages.len() ==> #[trigger] received_message(
                &receivers[k],
                &receivers[k + 1],
                messages[k],
            ),
    ensures
        receivers[j].packet_size() == receivers[0].packet_size(),
        receivers[j].reader().pending() == packet_stream(receivers[0].packet_size(), payloads.skip(j)),
    decreases j,
{
    if j == 0 {
        assert(payloads.skip(0) =~= payloads);
    } else {
        let i = j - 1;
        lemma_receivers_follow_stream(receivers, messages, payloads, i);
        assert(received_message(&receivers[i], &receivers[i + 1], messages[i]));
        lemma_receive_takes_next_packet(receivers, messages, payloads, i);
    }
}

/// A packet receiver whose stream holds the packets for `payloads`, one
/// after the other, receives them call after call in the order they were
/// written: the `j`-th call deserializes the `j`-th payload and takes exactly
/// its packet off the stream, and the call after the last packet reports
/// that no message is left. `receivers[j]` is the receiver before call `j`,
/// `messages[j]` what that call returned; every payload's length fits the
/// header.
pub proof fn law_packets_received_in_order<R: ByteSource, T: MessageDeserialize>(
    receivers: Seq<PacketReceiver<R>>,
    messages: Seq<Option<T>>,
    payloads: Seq<Seq<u8>>,
)
    requires
        R::obeys_source_laws(),
        receivers.len() == payloads.len() + 2,
        messages.len() == payloads.len() + 1,
        forall|j: int|
            0 <= j < payloads.len() ==> #[trigger] payloads[j].len() < byte_range(
                receivers[0].packet_size().width(),
            ),
        receivers[0].reader().pending() == packet_stream(receivers[0].packet_size(), payloads),
        forall|j: int|
            0 <= j < messages.len() ==> #[trigger] received_message(
                &receivers[j],
                &receivers[j + 1],
                messages[j],
            ),
    ensures
        forall|j: int|
            0 <= j < payloads.len() ==> #[trigger] messages[j] is Some && exists|p: Vec<u8>|
                p@ == payloads[j] && call_ensures(T::deserialize_message, (p,), messages[j]->0),
        forall|j: int|
            0 <= j <= payloads.len() ==> #[trigger] receivers[j].reader().pending()
                == packet_stream(receivers[0].packet_size(), payloads.skip(j)),
        messages[payloads.len() as int] is None,
{
    let k = payloads.len() as int;
    assert forall|j: int| 0 <= j < payloads.len() implies #[trigger] messages[j] is Some
        && exists|p: Vec<u8>|
        p@ == payloads[j] && call_ensures(T::deserialize_message, (p,), messages[j]->0) by {
        lemma_receivers_follow_stream(receivers, messages, payloads, j);
        assert(received_message(&receivers[j], &receivers[j + 1], messages[j]));
        lemma_receive_takes_next_packet(receivers, messages, payloads, j);
    }
    assert forall|j: int| 0 <= j <= payloads.len() implies #[trigger] receivers[j].reader().pending()
        == packet_stream(receivers[0].packet_size(), payloads.skip(j)) by {
        lemma_receivers_follow_stream(receivers, messages, payloads, j);
    }
    lemma_receivers_follow_stream(receivers, messages, payloads, k);
    law_packet_stream_in_order(receivers[0].packet_size(), payloads, k);
    assert(received_message(&receivers[k], &receivers[k + 1], messages[k]));
}

/// Each step of an iterator is one call of `receive` on its receiver: what
/// `next` promises of a step, from the receiver before it to the receiver
/// after it, is exactly what `receive` promises of a call.
pub proof fn law_next_is_receive<R: PortReceive, T: MessageDeserialize>(
    before: R,
    after: R,
    message: Option<T>,
)
    ensures
        received_message(&before, &after, message) <==> exists|payload: Option<Vec<u8>>|
            R::receives(&before, &after, payload) && match (payload, message) {
                (None, None) => true,
                (Some(p), Some(m)) => call_ensures(T::deserialize_message, (p,), m),
                _ => false,
            },
{
}

/// An iterator made from a packet receiver whose stream holds the packets
/// for `payloads` yields their messages in order, then `None`: `iters[j]` is
/// the iterator before the `j`-th `next` and `messages[j]` what it returned.
pub proof fn law_iter_yields_packets_in_order<'a, R: ByteSource, T: MessageDeserialize>(
    iters: Seq<MessageIterator<'a, PacketReceiver<R>, T>>,
    messages: Seq<Option<T>>,
    payloads: Seq<Seq<u8>>,
)
    requires
        R::obeys_source_laws(),
        iters.len() == payloads.len() + 2,
        messages.len() == payloads.len() + 1,
        forall|j: int|
            0 <= j < payloads.len() ==> #[trigger] payloads[j].len() < byte_range(
                iters[0].receiver().packet_size().width(),
            ),
        iters[0].receiver().reader().pending() == packet_stream(
            iters[0].receiver().packet_size(),
            payloads,
        ),
        forall|j: int|
            0 <= j < messages.len() ==> #[trigger] received_message(
                &iters[j].receiver(),
                &iters[j + 1].receiver(),
                messages[j],
            ),
    ensures
        forall|j: int|
            0 <= j < payloads.len() ==> #[trigger] messages[j] is Some && exists|p: Vec<u8>|
                p@ == payloads[j] && call_ensures(T::deserialize_message, (p,), messages[j]->0),
        messages[payloads.len() as int] is None,
{
    let receivers = Seq::new(iters.len(), |j: int| iters[j].receiver());
    assert forall|j: int| 0 <= j < messages.len() implies #[trigger] received_message(
        &receivers[j],
        &receivers[j + 1],
        messages[j],
    ) by {
        assert(received_message(&iters[j].receiver(), &iters[j + 1].receiver(), messages[j]));
    }
    law_packets_received_in_order(receivers, messages, payloads);
}

/// Replying is sending what the response converts into: what `reply`
/// promises of a call holds exactly when what `send` promises holds of some
/// result of `into()` on the response.
pub proof fn law_reply_is_send_of_into<P: PortSend, R, T, E>(before: P, after: P, response: R) where
    R: Into<ErlResult<T, E>>,
    T: MessageSerialize,
    E: MessageSerialize,

    ensures
        (exists|reply: ErlResult<T, E>, bytes: Vec<u8>|
            call_ensures(R::into, (response,), reply) && call_ensures(
                ErlResult::<T, E>::serialize_message,
                (reply,),
                bytes,
            ) && P::sends(&before, &after, bytes@)) <==> (exists|reply: ErlResult<T, E>|
            call_ensures(R::into, (response,), reply) && sent_message(&before, &after, reply)),
{
    if exists|reply: ErlResult<T, E>|
        call_ensures(R::into, (response,), reply) && sent_message(&before, &after, reply) {
        let reply = choose|reply: ErlResult<T, E>|
            call_ensures(R::into, (response,), reply) && sent_message(&before, &after, reply);
        let bytes = choose|bytes: Vec<u8>|
            call_ensures(ErlResult::<T, E>::serialize_message, (reply,), bytes) && P::sends(
                &before,
                &after,
                bytes@,
            );
        assert(call_ensures(R::into, (response,), reply) && call_ensures(
            ErlResult::<T, E>::serialize_message,
            (reply,),
            bytes,
        ) && P::sends(&before, &after, bytes@));
    }
    if exists|reply: ErlResult<T, E>, bytes: Vec<u8>|
        call_ensures(R::into, (response,), reply) && call_ensures(
            ErlResult::<T, E>::serialize_message,
            (reply,),
            bytes,
        ) && P::sends(&before, &after, bytes@) {
        let (reply, bytes) = choose|reply: ErlResult<T, E>, bytes: Vec<u8>|
            call_ensures(R::into, (response,), reply) && call_ensures(
                ErlResult::<T, E>::serialize_message,
                (reply,),
                bytes,
            ) && P::sends(&before, &after, bytes@);
        assert(sent_message(&before, &after, reply));
    }
}

/// Replying with a `Result` sends the `ErlResult` it converts into: `Ok(v)`
/// goes out as `Okay(v)` and `Err(e)` as `Error(e)`.
pub proof fn law_reply_with_result<P: PortSend, T: MessageSerialize, E: MessageSerialize>(
    before: P,
    after: P,
    response: Result<T, E>,
)
    requires
        exists|reply: ErlResult<T, E>, bytes: Vec<u8>|
            call_ensures(Result::<T, E>::into, (response,), reply) && call_ensures(
                ErlResult::<T, E>::serialize_message,
                (reply,),
                bytes,
            ) && P::sends(&before, &after, bytes@),
    ensures
        sent_message(
            &before,
            &after,
            match response {
                Ok(v) => ErlResult::<T, E>::Okay(v),
                Err(e) => ErlResult::<T, E>::Error(e),
            },
        ),
{
    let (reply, bytes) = choose|reply: ErlResult<T, E>, bytes: Vec<u8>|
        call_ensures(Result::<T, E>::into, (response,), reply) && call_ensures(
            ErlResult::<T, E>::serialize_message,
            (reply,),
            bytes,
        ) && P::sends(&before, &after, bytes@);
    assert(reply == match response {
        Ok(v) => ErlResult::<T, E>::Okay(v),
        Err(e) => ErlResult::<T, E>::Error(e),
    });
}

/// A string sent through a packet sender is received as the same string by a
/// packet receiver whose stream holds what the sender wrote, whenever the
/// string's document fits the header; what followed the packet is left for
/// the next call.
pub proof fn law_string_received_as_sent<W: ByteSink, R: ByteSource>(
    sender_before: PacketSender<W>,
    sender_after: PacketSender<W>,
    value: String,
    receiver_before: PacketReceiver<R>,
    receiver_after: PacketReceiver<R>,
    message: Option<String>,
    rest: Seq<u8>,
)
    requires
        W::obeys_sink_laws(),
        R::obeys_source_laws(),
        sent_message(&sender_before, &sender_after, value),
        (seq![ETF_VERSION] + binary_term(vstd::utf8::encode_utf8(value@))).len() < byte_range(
            sender_before.packet_size().width(),
        ),
        receiver_before.packet_size() == sender_before.packet_size(),
        receiver_before.reader().pending() == sender_after.writer().written().skip(
            sender_before.writer().written().len() as int,
        ) + rest,
        received_message(&receiver_before, &receiver_after, message),
    ensures
        message matches Some(m) && m@ == value@,
        receiver_after.reader().pending() == rest,
{
    let doc = seq![ETF_VERSION] + binary_term(vstd::utf8::encode_utf8(value@));
    let bytes = choose|bytes: Vec<u8>|
        call_ensures(String::serialize_message, (value,), bytes) && PacketSender::sends(
            &sender_before,
            &sender_after,
            bytes@,
        );
    assert(bytes@ == doc);
    let payload = choose|payload: Option<Vec<u8>>|
        #[trigger] PacketReceiver::receives(&receiver_before, &receiver_after, payload) && match (
            payload,
            message,
        ) {
            (None, None) => true,
            (Some(p), Some(m)) => call_ensures(String::deserialize_message, (p,), m),
            _ => false,
        };
    law_receive_reads_back_send(
        sender_before,
        sender_after,
        bytes@,
        receiver_before,
        receiver_after,
        payload,
        rest,
    );
    crate::packet::lemma_header_ranges();
    law_string_round_trip(value@);
}

/// An `i32` sent through a packet sender is received as the same integer by
/// a packet receiver whose stream holds what the sender wrote; what followed
/// the packet is left for the next call.
pub proof fn law_i32_received_as_sent<W: ByteSink, R: ByteSource>(
    sender_before: PacketSender<W>,
    sender_after: PacketSender<W>,
    value: i32,
    receiver_before: PacketReceiver<R>,
    receiver_after: PacketReceiver<R>,
    message: Option<i32>,
    rest: Seq<u8>,
)
    requires
        W::obeys_sink_laws(),
        R::obeys_source_laws(),
        sent_message(&sender_before, &sender_after, value),
        receiver_before.packet_size() == sender_before.packet_size(),
        receiver_before.reader().pending() == sender_after.writer().written().skip(
            sender_before.writer().written().len() as int,
        ) + rest,
        received_message(&receiver_before, &receiver_after, message),
    ensures
        message == Some(value),
        receiver_after.reader().pending() == rest,
{
    let doc = seq![ETF_VERSION] + fix_integer_term(value as int);
    let bytes = choose|bytes: Vec<u8>|
        call_ensures(i32::serialize_message, (value,), bytes) && PacketSender::sends(
            &sender_before,
            &sender_after,
            bytes@,
        );
    assert(bytes@ == doc);
    crate::packet::lemma_be_value_of_be_bytes((value as int % 0x1_0000_0000) as nat, 4);
    assert(doc.len() <= 6);
    crate::packet::lemma_header_ranges();
    let payload = choose|payload: Option<Vec<u8>>|
        #[trigger] PacketReceiver::receives(&receiver_before, &receiver_after, payload) && match (
            payload,
            message,
        ) {
            (None, None) => true,
            (Some(p), Some(m)) => call_ensures(i32::deserialize_message, (p,), m),
            _ => false,
        };
    law_receive_reads_back_send(
        sender_before,
        sender_after,
        bytes@,
        receiver_before,
        receiver_after,
        payload,
        rest,
    );
    law_integer_round_trip(value as int);
}

/// An `i8` sent through a packet sender is received as the same integer by
/// a packet receiver whose stream holds what the sender wrote; what followed
/// the packet is left for the next call.
pub proof fn law_i8_received_as_sent<W: ByteSink, R: ByteSource>(
    sender_before: PacketSender<W>,
    sender_after: PacketSender<W>,
    value: i8,
    receiver_before: PacketReceiver<R>,
    receiver_after: PacketReceiver<R>,
    message: Option<i8>,
    rest: Seq<u8>,
)
    requires
        W::obeys_sink_laws(),
        R::obeys_source_laws(),
        sent_message(&sender_before, &sender_after, value),
        receiver_before.packet_size() == sender_before.packet_size(),
        receiver_before.reader().pending() == sender_after.writer().written().skip(
            sender_before.writer().written().len() as int,
        ) + rest,
        received_message(&receiver_before, &receiver_after, message),
    ensures
        message == Some(value),
        receiver_after.reader().pending() == rest,
{
    let doc = seq![ETF_VERSION] + fix_integer_term(value as int);
    let bytes = choose|bytes: Vec<u8>|
        call_ensures(i8::serialize_message, (value,), bytes) && PacketSender::sends(
            &sender_before,
            &sender_after,
            bytes@,
        );
    assert(bytes@ == doc);
    crate::packet::lemma_be_value_of_be_bytes((value as int % 0x1_0000_0000) as nat, 4);
    assert(doc.len() <= 6);
    crate::packet::lemma_header_ranges();
    let payload = choose|payload: Option<Vec<u8>>|
        #[trigger] PacketReceiver::receives(&receiver_before, &receiver_after, payload) && match (
            payload,
            message,
        ) {
            (None, None) => true,
            (Some(p), Some(m)) => call_ensures(i8::deserialize_message, (p,), m),
            _ => false,
        };
    law_receive_reads_back_send(
        sender_before,
        sender_after,
        bytes@,
        receiver_before,
        receiver_after,
        payload,
        rest,
    );
    law_integer_round_trip(value as int);
}

} // verus!
