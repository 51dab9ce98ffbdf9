use erlang_port::{
    decode_size, encode_size, ByteCursor, ByteSource, ErlResult, MessageDeserialize,
    MessageSerialize, PacketReceiver, PacketSender, PacketSize, PortReceive, PortSend,
};
use serde::ser::{Serialize, Serializer};

/// A source over fixed bytes.
struct SliceSource<'a>(&'a [u8]);

impl<'a> ByteSource for SliceSource<'a> {
    fn read_or_end(&mut self, buf: &mut [u8]) -> bool {
        if self.0.len() < buf.len() {
            self.0 = &[];
            false
        } else {
            let (head, tail) = self.0.split_at(buf.len());
            buf.copy_from_slice(head);
            self.0 = tail;
            true
        }
    }

    fn read_exact(&mut self, buf: &mut [u8]) {
        assert!(self.0.len() >= buf.len(), "Couldn't read full packet of data");
        let (head, tail) = self.0.split_at(buf.len());
        buf.copy_from_slice(head);
        self.0 = tail;
    }
}

/// Payload bytes handed through unchanged.
struct Raw(Vec<u8>);

impl MessageSerialize for Raw {
    fn serialize_message(self) -> Vec<u8> {
        self.0
    }
}

impl MessageDeserialize for Raw {
    fn deserialize_message(buffer: Vec<u8>) -> Self {
        Raw(buffer)
    }
}

/// The derived serde encoding of a reply enum, written out by hand.
enum SerdeReply {
    Success(i8),
    Error(String),
}

impl Serialize for SerdeReply {
    fn serialize<S: Serializer>(&self, serializer: S) -> Result<S::Ok, S::Error> {
        match self {
            SerdeReply::Success(value) => serializer.serialize_newtype_variant("ErlResult", 0, "Ok", value),
            SerdeReply::Error(err) => {
                serializer.serialize_newtype_variant("ErlResult", 1, "Error", err)
            }
        }
    }
}

fn sent_bytes<T: MessageSerialize>(packet_size: PacketSize, message: T) -> Vec<u8> {
    let mut out = Vec::new();
    {
        let mut sender = PacketSender::from_writer(&mut out, packet_size);
        sender.send(message);
    }
    out
}

fn replied_bytes(packet_size: PacketSize, response: Result<i8, String>) -> Vec<u8> {
    let mut out = Vec::new();
    {
        let mut sender = PacketSender::from_writer(&mut out, packet_size);
        sender.reply(response);
    }
    out
}

fn received_payloads(packet_size: PacketSize, stream: &[u8]) -> Vec<Vec<u8>> {
    let mut receiver = PacketReceiver::from_reader(SliceSource(stream), packet_size);
    let mut out = Vec::new();
    while let Some(Raw(payload)) = receiver.receive() {
        out.push(payload);
    }
    out
}

#[test]
fn size_header_is_big_endian_of_the_right_width() {
    assert_eq!(encode_size(PacketSize::One, 44), vec![44]);
    assert_eq!(encode_size(PacketSize::Two, 300), vec![1, 44]);
    assert_eq!(encode_size(PacketSize::Four, 300), vec![0, 0, 1, 44]);
    assert_eq!(encode_size(PacketSize::Four, 0x0102_0304), vec![1, 2, 3, 4]);
}

#[test]
fn size_header_keeps_only_the_low_order_bytes() {
    assert_eq!(encode_size(PacketSize::One, 300), vec![44]);
    assert_eq!(encode_size(PacketSize::Two, 0x1_0005), vec![0, 5]);
}

#[test]
fn size_header_decodes_to_its_length() {
    assert_eq!(decode_size(PacketSize::One, &[200]), 200);
    assert_eq!(decode_size(PacketSize::Two, &[1, 44]), 300);
    assert_eq!(decode_size(PacketSize::Four, &[0, 0, 1, 44]), 300);
    assert_eq!(decode_size(PacketSize::Four, &[255, 255, 255, 255]), 0xffff_ffff);
    for size in [PacketSize::One, PacketSize::Two, PacketSize::Four] {
        let header = encode_size(size, 77);
        assert_eq!(decode_size(size, &header), 77);
    }
}

#[test]
fn sent_packet_is_header_then_payload() {
    assert_eq!(sent_bytes(PacketSize::Two, Raw(vec![7, 8, 9])), vec![0, 3, 7, 8, 9]);
    assert_eq!(sent_bytes(PacketSize::One, Raw(vec![])), vec![0]);
    assert_eq!(
        sent_bytes(PacketSize::Four, Raw(vec![1])),
        vec![0, 0, 0, 1, 1]
    );
}

#[test]
fn sent_packets_read_back_in_order() {
    let mut stream = sent_bytes(PacketSize::One, Raw(vec![1, 2]));
    stream.extend(sent_bytes(PacketSize::One, Raw(vec![])));
    stream.extend(sent_bytes(PacketSize::One, Raw(vec![3; 255])));
    let payloads = received_payloads(PacketSize::One, &stream);
    assert_eq!(payloads, vec![vec![1, 2], vec![], vec![3; 255]]);
}

#[test]
fn long_payload_header_is_truncated() {
    let stream = sent_bytes(PacketSize::One, Raw(vec![5; 257]));
    assert_eq!(stream.len(), 258);
    assert_eq!(stream[0], 1);
    // The truncated header makes the receiver read a one-byte packet.
    let mut receiver = PacketReceiver::from_reader(SliceSource(&stream), PacketSize::One);
    let first: Option<Raw> = receiver.receive();
    assert_eq!(first.map(|Raw(p)| p), Some(vec![5]));
}

#[test]
fn receive_is_none_when_the_stream_ends_before_a_header() {
    assert!(received_payloads(PacketSize::Four, &[]).is_empty());
    let mut receiver = PacketReceiver::from_reader(SliceSource(&[0, 0, 1]), PacketSize::Four);
    let message: Option<Raw> = receiver.receive();
    assert!(message.is_none());
}

#[test]
fn integers_and_strings_are_eetf_terms() {
    assert_eq!(5i8.serialize_message(), vec![131, 97, 5]);
    assert_eq!((-1i8).serialize_message(), vec![131, 98, 255, 255, 255, 255]);
    assert_eq!(300i32.serialize_message(), vec![131, 98, 0, 0, 1, 44]);
    assert_eq!(
        "hi".to_string().serialize_message(),
        vec![131, 109, 0, 0, 0, 2, 104, 105]
    );
}

#[test]
fn reply_is_an_ok_or_error_tuple() {
    assert_eq!(
        ErlResult::<i8, String>::Okay(1).serialize_message(),
        vec![131, 104, 2, 100, 0, 2, 111, 107, 97, 1]
    );
    assert_eq!(
        ErlResult::<i8, String>::Error("Nope".to_string()).serialize_message(),
        vec![131, 104, 2, 100, 0, 5, 101, 114, 114, 111, 114, 109, 0, 0, 0, 4, 78, 111, 112, 101]
    );
}

#[test]
fn reply_matches_the_serde_encoding_of_a_result_enum() {
    assert_eq!(
        ErlResult::<i8, String>::Okay(-7).serialize_message(),
        serde_eetf::to_bytes(&SerdeReply::Success(-7)).unwrap()
    );
    assert_eq!(
        ErlResult::<i8, String>::Error("bad".to_string()).serialize_message(),
        serde_eetf::to_bytes(&SerdeReply::Error("bad".to_string())).unwrap()
    );
}

#[test]
fn reply_sends_one_packet_with_the_tuple() {
    let bytes = replied_bytes(PacketSize::Two, Ok(1));
    assert_eq!(bytes, vec![0, 10, 131, 104, 2, 100, 0, 2, 111, 107, 97, 1]);
    let bytes = replied_bytes(PacketSize::Two, Err("x".to_string()));
    let payloads = received_payloads(PacketSize::Two, &bytes);
    assert_eq!(
        payloads,
        vec![ErlResult::<i8, String>::Error("x".to_string()).serialize_message()]
    );
}

#[test]
fn erl_result_from_result_keeps_the_variant() {
    assert_eq!(ErlResult::from(Ok::<i8, String>(3)), ErlResult::Okay(3));
    assert_eq!(
        ErlResult::from(Err::<i8, String>("e".to_string())),
        ErlResult::Error("e".to_string())
    );
}

#[test]
fn framing_is_unambiguous_across_packet_sizes() {
    let long = vec![9u8; 300];
    let mut stream = sent_bytes(PacketSize::Two, Raw(vec![]));
    stream.extend(sent_bytes(PacketSize::Two, Raw(long.clone())));
    assert_eq!(&stream[..4], &[0, 0, 1, 44]);
    let payloads = received_payloads(PacketSize::Two, &stream);
    assert_eq!(payloads, vec![vec![], long]);
}

#[test]
fn receiver_reads_through_a_mutable_reference() {
    let stream = sent_bytes(PacketSize::Four, Raw(vec![4, 2]));
    let mut source = SliceSource(&stream);
    {
        let mut receiver = PacketReceiver::from_reader(&mut source, PacketSize::Four);
        let first: Option<Raw> = receiver.receive();
        assert_eq!(first.map(|Raw(p)| p), Some(vec![4, 2]));
    }
    assert!(source.0.is_empty());
}

/// The serde encoding of a reply carrying an `i32`, written out by hand.
enum SerdeIntReply {
    Success(i32),
    Error(i32),
}

impl Serialize for SerdeIntReply {
    fn serialize<S: Serializer>(&self, serializer: S) -> Result<S::Ok, S::Error> {
        match self {
            SerdeIntReply::Success(value) => {
                serializer.serialize_newtype_variant("ErlResult", 0, "Ok", value)
            }
            SerdeIntReply::Error(err) => {
                serializer.serialize_newtype_variant("ErlResult", 1, "Error", err)
            }
        }
    }
}

#[test]
fn replies_match_the_serde_encoding_across_payloads() {
    for value in [0i32, 255, 256, -1, i32::MIN, i32::MAX] {
        assert_eq!(
            ErlResult::<i32, i32>::Okay(value).serialize_message(),
            serde_eetf::to_bytes(&SerdeIntReply::Success(value)).unwrap()
        );
        assert_eq!(
            ErlResult::<i32, i32>::Error(value).serialize_message(),
            serde_eetf::to_bytes(&SerdeIntReply::Error(value)).unwrap()
        );
    }
    for text in ["", "ok", "error", "h\u{e9}llo w\u{f6}rld", &"x".repeat(300)] {
        assert_eq!(
            ErlResult::<i8, String>::Error(text.to_string()).serialize_message(),
            serde_eetf::to_bytes(&SerdeReply::Error(text.to_string())).unwrap()
        );
    }
}

#[test]
fn byte_cursor_receives_what_a_vec_sender_sent_in_order() {
    let mut wire: Vec<u8> = Vec::new();
    {
        let mut sender = PacketSender::from_writer(&mut wire, PacketSize::Two);
        sender.send(Raw(vec![1, 2, 3]));
        sender.send(Raw(vec![]));
        sender.send(Raw(vec![9; 300]));
    }
    assert_eq!(wire.len(), 2 + 3 + 2 + 2 + 300);
    let mut receiver = PacketReceiver::from_reader(ByteCursor::new(wire), PacketSize::Two);
    let mut got: Vec<Vec<u8>> = Vec::new();
    let mut iter = receiver.iter();
    while let Some(Raw(p)) = iter.next() {
        got.push(p);
    }
    assert_eq!(got, vec![vec![1, 2, 3], vec![], vec![9; 300]]);
    let after: Option<Raw> = receiver.receive();
    assert!(after.is_none());
}

#[test]
fn byte_cursor_next_matches_receive_call_for_call() {
    let mut stream = sent_bytes(PacketSize::Four, Raw(vec![4]));
    stream.extend(sent_bytes(PacketSize::Four, Raw(vec![5, 6])));
    let mut by_receive = PacketReceiver::from_reader(ByteCursor::new(stream.clone()), PacketSize::Four);
    let mut by_iter = PacketReceiver::from_reader(ByteCursor::new(stream), PacketSize::Four);
    let mut iter = by_iter.iter();
    for _ in 0..3 {
        let a: Option<Raw> = by_receive.receive();
        let b: Option<Raw> = iter.next();
        assert_eq!(a.map(|Raw(p)| p), b.map(|Raw(p)| p));
    }
}

#[test]
fn byte_cursor_reads_a_size_header_back() {
    for (size, n) in [(PacketSize::One, 200usize), (PacketSize::Two, 0xbeef), (PacketSize::Four, 0x0102_0304)] {
        let mut stream = encode_size(size, n);
        stream.extend(vec![0u8; n]);
        let mut receiver = PacketReceiver::from_reader(ByteCursor::new(stream), size);
        let message: Option<Raw> = receiver.receive();
        assert_eq!(message.map(|Raw(p)| p.len()), Some(n));
        let rest: Option<Raw> = receiver.receive();
        assert!(rest.is_none());
    }
}

#[test]
fn byte_cursor_ending_before_a_header_gives_none() {
    let mut receiver = PacketReceiver::from_reader(ByteCursor::new(vec![0, 0, 1]), PacketSize::Four);
    let message: Option<Raw> = receiver.receive();
    assert!(message.is_none());
    let mut empty = PacketReceiver::from_reader(ByteCursor::new(Vec::new()), PacketSize::One);
    let message: Option<Raw> = empty.receive();
    assert!(message.is_none());
}

#[test]
fn byte_cursor_read_or_end_fills_or_reports_the_end() {
    let mut cursor = ByteCursor::new(vec![1, 2, 3]);
    let mut two = [0u8; 2];
    assert!(cursor.read_or_end(&mut two));
    assert_eq!(two, [1, 2]);
    let mut more = [0u8; 2];
    assert!(!cursor.read_or_end(&mut more));
    let mut one = [0u8; 1];
    assert!(!cursor.read_or_end(&mut one));
}

#[test]
fn reply_with_result_sends_its_erl_result() {
    for response in [Ok(7i8), Err("bad".to_string())] {
        let replied = replied_bytes(PacketSize::Four, response.clone());
        let expected = sent_bytes(PacketSize::Four, ErlResult::from(response));
        assert_eq!(replied, expected);
    }
}

#[test]
fn integers_are_read_from_eetf_terms() {
    assert_eq!(i8::deserialize_message(vec![131, 97, 5]), 5);
    assert_eq!(i8::deserialize_message(vec![131, 98, 255, 255, 255, 128]), -128);
    assert_eq!(i32::deserialize_message(vec![131, 98, 0, 0, 1, 44]), 300);
    assert_eq!(i32::deserialize_message(vec![131, 98, 128, 0, 0, 0]), i32::MIN);
    assert_eq!(i32::deserialize_message(vec![131, 110, 1, 0, 7]), 7);
    assert_eq!(i32::deserialize_message(vec![131, 110, 2, 1, 1, 1]), -257);
    assert_eq!(i32::deserialize_message(vec![131, 111, 0, 0, 0, 1, 0, 9]), 9);
    // Bytes after the term are not read.
    assert_eq!(i8::deserialize_message(vec![131, 97, 100, 0, 0]), 100);
}

#[test]
fn strings_are_read_from_eetf_binaries() {
    assert_eq!(
        String::deserialize_message(vec![131, 109, 0, 0, 0, 2, 104, 105]),
        "hi".to_string()
    );
    assert_eq!(String::deserialize_message(vec![131, 109, 0, 0, 0, 0]), String::new());
}

#[test]
fn integers_and_strings_read_back_what_was_sent() {
    for value in [0i32, 1, 255, 256, -1, i32::MIN, i32::MAX] {
        assert_eq!(i32::deserialize_message(value.serialize_message()), value);
    }
    for value in [i8::MIN, -1i8, 0, 127] {
        assert_eq!(i8::deserialize_message(value.serialize_message()), value);
    }
    for value in ["", "hello", "h\u{e9}llo \u{1f600}"] {
        assert_eq!(String::deserialize_message(value.to_string().serialize_message()), value);
    }
}

#[test]
fn messages_sent_to_a_vec_are_received_from_a_byte_cursor() {
    let mut wire: Vec<u8> = Vec::new();
    {
        let mut sender = PacketSender::from_writer(&mut wire, PacketSize::Four);
        sender.send("hello".to_string());
        sender.send("w\u{f6}rld".to_string());
    }
    let mut receiver = PacketReceiver::from_reader(ByteCursor::new(wire), PacketSize::Four);
    assert_eq!(receiver.receive::<String>(), Some("hello".to_string()));
    assert_eq!(receiver.receive::<String>(), Some("w\u{f6}rld".to_string()));
    assert_eq!(receiver.receive::<String>(), None);

    let mut ints: Vec<u8> = Vec::new();
    {
        let mut sender = PacketSender::from_writer(&mut ints, PacketSize::One);
        for value in [3i32, -70000, 255] {
            sender.send(value);
        }
    }
    let mut receiver = PacketReceiver::from_reader(ByteCursor::new(ints), PacketSize::One);
    let mut got = Vec::new();
    let mut iter = receiver.iter::<i32>();
    while let Some(value) = iter.next() {
        got.push(value);
    }
    assert_eq!(got, vec![3, -70000, 255]);
}
