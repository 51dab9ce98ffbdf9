use byteorder::{BigEndian, WriteBytesExt};
use erlang_port::{
    ByteSink, ByteSource, ErlResult, MessageDeserialize,
    MessageSerialize, PacketReceiver, PacketSender, PacketSize, PortReceive, PortSend,
};
use serde::de::{self, Deserialize, Deserializer, EnumAccess, MapAccess, VariantAccess, Visitor};
use serde::ser::{Serialize, SerializeStruct, Serializer};
use std::fmt;
use std::io::{Cursor, Read, Write};

/// A stream over an in-memory cursor, in the manner of the std adapters.
struct CursorStream<'a>(&'a mut Cursor<Vec<u8>>);

impl<'a> ByteSource for CursorStream<'a> {
    fn read_or_end(&mut self, buf: &mut [u8]) -> bool {
        match Read::read_exact(self.0, buf) {
            Ok(()) => true,
            Err(err) => {
                if err.kind() == std::io::ErrorKind::UnexpectedEof {
                    false
                } else {
                    panic!("IO when reading size {}", err)
                }
            }
        }
    }

    fn read_exact(&mut self, buf: &mut [u8]) {
        Read::read_exact(self.0, buf).expect("Couldn't read full packet of data");
    }
}

impl<'a> ByteSink for CursorStream<'a> {
    fn write_all(&mut self, bytes: &[u8]) {
        Write::write_all(self.0, bytes).expect("writing to the port failed");
    }

    fn flush(&mut self) {
        Write::flush(self.0).expect("flushing stdout failed");
    }
}

#[derive(Debug, PartialEq)]
struct TestCommand {
    int8: i8,
}

impl Serialize for TestCommand {
    fn serialize<S: Serializer>(&self, serializer: S) -> Result<S::Ok, S::Error> {
        let mut state = serializer.serialize_struct("TestCommand", 1)?;
        state.serialize_field("int8", &self.int8)?;
        state.end()
    }
}

struct FieldName(String);

struct FieldNameVisitor;

impl<'de> Visitor<'de> for FieldNameVisitor {
    type Value = FieldName;

    fn expecting(&self, formatter: &mut fmt::Formatter) -> fmt::Result {
        formatter.write_str("a field name")
    }

    fn visit_str<E: de::Error>(self, value: &str) -> Result<FieldName, E> {
        Ok(FieldName(value.to_string()))
    }

    fn visit_string<E: de::Error>(self, value: String) -> Result<FieldName, E> {
        Ok(FieldName(value))
    }
}

impl<'de> Deserialize<'de> for FieldName {
    fn deserialize<D: Deserializer<'de>>(deserializer: D) -> Result<Self, D::Error> {
        deserializer.deserialize_identifier(FieldNameVisitor)
    }
}

struct TestCommandVisitor;

impl<'de> Visitor<'de> for TestCommandVisitor {
    type Value = TestCommand;

    fn expecting(&self, formatter: &mut fmt::Formatter) -> fmt::Result {
        formatter.write_str("struct TestCommand")
    }

    fn visit_map<A: MapAccess<'de>>(self, mut map: A) -> Result<TestCommand, A::Error> {
        let mut int8 = None;
        while let Some(FieldName(name)) = map.next_key::<FieldName>()? {
            if name == "int8" {
                int8 = Some(map.next_value::<i8>()?);
            } else {
                return Err(de::Error::unknown_field(&name, &["int8"]));
            }
        }
        match int8 {
            Some(int8) => Ok(TestCommand { int8 }),
            None => Err(de::Error::missing_field("int8")),
        }
    }
}

impl<'de> Deserialize<'de> for TestCommand {
    fn deserialize<D: Deserializer<'de>>(deserializer: D) -> Result<Self, D::Error> {
        deserializer.deserialize_struct("TestCommand", &["int8"], TestCommandVisitor)
    }
}

impl<'a> MessageSerialize for &'a TestCommand {
    fn serialize_message(self) -> Vec<u8> {
        serde_eetf::to_bytes(self).expect("Serialization failed")
    }
}

impl MessageDeserialize for TestCommand {
    fn deserialize_message(buffer: Vec<u8>) -> Self {
        serde_eetf::from_bytes(&buffer).expect("Deserialization Failed")
    }
}

/// The serde encoding that the Erlang side gives an `{ok, _}` / `{error, _}` tuple.
#[derive(Debug, PartialEq)]
enum TestReply {
    Success(i8),
    Error(String),
}

impl Serialize for TestReply {
    fn serialize<S: Serializer>(&self, serializer: S) -> Result<S::Ok, S::Error> {
        match self {
            TestReply::Success(value) => serializer.serialize_newtype_variant("ErlResult", 0, "Ok", value),
            TestReply::Error(err) => {
                serializer.serialize_newtype_variant("ErlResult", 1, "Error", err)
            }
        }
    }
}

struct TestReplyVisitor;

impl<'de> Visitor<'de> for TestReplyVisitor {
    type Value = TestReply;

    fn expecting(&self, formatter: &mut fmt::Formatter) -> fmt::Result {
        formatter.write_str("an ok or error tuple")
    }

    fn visit_enum<A: EnumAccess<'de>>(self, data: A) -> Result<TestReply, A::Error> {
        let (name, variant): (String, A::Variant) = data.variant()?;
        if name == "Ok" {
            Ok(TestReply::Success(variant.newtype_variant()?))
        } else if name == "Error" {
            Ok(TestReply::Error(variant.newtype_variant()?))
        } else {
            Err(de::Error::unknown_variant(&name, &["Ok", "Error"]))
        }
    }
}

impl<'de> Deserialize<'de> for TestReply {
    fn deserialize<D: Deserializer<'de>>(deserializer: D) -> Result<Self, D::Error> {
        deserializer.deserialize_enum("ErlResult", &["Ok", "Error"], TestReplyVisitor)
    }
}

impl MessageDeserialize for TestReply {
    fn deserialize_message(buffer: Vec<u8>) -> Self {
        serde_eetf::from_bytes(&buffer).expect("Deserialization Failed")
    }
}

fn reply_as_result(reply: TestReply) -> ErlResult<i8, String> {
    match reply {
        TestReply::Success(value) => ErlResult::Okay(value),
        TestReply::Error(err) => ErlResult::Error(err),
    }
}

fn collect_messages<T: MessageDeserialize>(cursor: &mut Cursor<Vec<u8>>, packet_size: PacketSize) -> Vec<T> {
    let mut receiver = PacketReceiver::from_reader(CursorStream(cursor), packet_size);
    let mut iter = receiver.iter();
    let mut results = Vec::new();
    while let Some(message) = iter.next() {
        results.push(message);
    }
    results
}

#[test]
fn test_packet_receiver_iter() {
    let buff = serde_eetf::to_bytes(&TestCommand { int8: 100 }).unwrap();

    let mut size_buff = Vec::new();
    size_buff
        .write_u32::<BigEndian>(buff.len() as u32)
        .expect("write data size failed");
    size_buff.extend_from_slice(&buff);
    size_buff
        .write_u32::<BigEndian>(buff.len() as u32)
        .expect("write data size failed");
    size_buff.extend_from_slice(&buff);

    let results: Vec<TestCommand> =
        collect_messages(&mut Cursor::new(size_buff), PacketSize::Four);
    assert_eq!(results.len(), 2);
    assert_eq!(results[0], results[1]);
}

fn do_reply_test(input: Result<i8, String>, expected_output: ErlResult<i8, String>) {
    let mut cursor = Cursor::new(vec![]);
    {
        let mut sender = PacketSender::from_writer(CursorStream(&mut cursor), PacketSize::Four);
        sender.reply(input);
    }
    cursor.set_position(0);

    let replies: Vec<TestReply> = collect_messages(&mut cursor, PacketSize::Four);
    let result: Vec<ErlResult<i8, String>> = replies.into_iter().map(reply_as_result).collect();

    assert_eq!(result, [expected_output]);
}

#[test]
fn test_packet_sender_reply() {
    do_reply_test(Ok(1), ErlResult::Okay(1));
    do_reply_test(
        Err("Nope".to_string()),
        ErlResult::Error("Nope".to_string()),
    );
}

fn do_send_test(packet_size: PacketSize) {
    let input = TestCommand { int8: 127 };

    let mut cursor = Cursor::new(vec![]);
    {
        let mut sender = PacketSender::from_writer(CursorStream(&mut cursor), packet_size);
        sender.send(&input);
    }
    cursor.set_position(0);

    let result: Vec<TestCommand> = collect_messages(&mut cursor, packet_size);

    assert_eq!(result, [input]);
}

#[test]
fn test_packet_sender_send() {
    do_send_test(PacketSize::One);
    do_send_test(PacketSize::Two);
    do_send_test(PacketSize::Four);
}
