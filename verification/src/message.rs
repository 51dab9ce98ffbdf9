//! Turning messages into bytes and back, and the `{ok, _}` / `{error, _}`
//! replies sent back to Erlang.
//!
//! Messages travel as documents in erlang external term format (EETF),
//! suitable for `binary_to_term` / `term_to_binary` on the Erlang side.
use crate::packet::{be_bytes, be_value, be_write_u16};
use vstd::prelude::*;

verus! {

/// Trait that parses some data from a Vec<u8>
///
/// This is used in the receive function to deserialize commands.
///
/// In Erlang "Let it Crash" style, if the data in `buffer` is malformed this
/// trait should panic. Since this library is intended to be used as part of an
/// Erlang system this should be picked up by the BEAM VM which can restart the
/// Port.
pub trait MessageDeserialize: Sized {
    /// The buffers a message of this type is read from. On any other buffer
    /// an implementation on top of an outside decoder panics, so a verified
    /// caller hands it only these; by default, every buffer.
    open spec fn accepts(buffer: Seq<u8>) -> bool {
        true
    }

    fn deserialize_message(buffer: Vec<u8>) -> Self
        requires
            Self::accepts(buffer@),
    ;
}

/// Trait that serializes some data into a Vec<u8>
///
/// This is used in the send function to serialize commands. Implementations
/// are expected to produce an EETF document.
///
/// In Erlang "Let it Crash" style, if we fail to serialize for whatever reason
/// this trait should panic. Since this library is intended to be used as part
/// of an Erlang system this should be picked up by the BEAM VM which can
/// restart the Port.
pub trait MessageSerialize {
    fn serialize_message(self) -> Vec<u8>;
}

/// The version byte that starts every EETF document.
pub const ETF_VERSION: u8 = 131;

/// EETF tag of a tuple of fewer than 256 elements.
pub const SMALL_TUPLE_EXT: u8 = 104;

/// EETF tag of an atom whose name is latin-1, with a two-byte length.
pub const ATOM_EXT: u8 = 100;

/// EETF tag of an integer in `0..=255`, held in one byte.
pub const SMALL_INTEGER_EXT: u8 = 97;

/// EETF tag of a 32-bit signed integer, held in four big-endian bytes.
pub const INTEGER_EXT: u8 = 98;

/// EETF tag of a binary, with a four-byte length.
pub const BINARY_EXT: u8 = 109;

/// EETF tag of a big integer with a one-byte digit count.
pub const SMALL_BIG_EXT: u8 = 110;

/// EETF tag of a big integer with a four-byte digit count.
pub const LARGE_BIG_EXT: u8 = 111;

/// The EETF term of a small integer, as `eetf` encodes it: one byte for
/// values in `0..=255`, four big-endian two's-complement bytes otherwise.
pub open spec fn fix_integer_term(value: int) -> Seq<u8> {
    if 0 <= value <= 255 {
        seq![SMALL_INTEGER_EXT, value as u8]
    } else {
        seq![INTEGER_EXT] + be_bytes((value % 0x1_0000_0000) as nat, 4)
    }
}

/// The EETF term of a binary holding `bytes`.
pub open spec fn binary_term(bytes: Seq<u8>) -> Seq<u8> {
    seq![BINARY_EXT] + be_bytes(bytes.len(), 4) + bytes
}

/// The number that `bytes` denote when read least significant byte first.
pub open spec fn le_value(bytes: Seq<u8>) -> nat
    decreases bytes.len(),
{
    if bytes.len() == 0 {
        0
    } else {
        bytes[0] as nat + 256 * le_value(bytes.skip(1))
    }
}

/// The 32-bit two's-complement integer whose bit pattern is `bits`.
pub open spec fn signed32(bits: nat) -> int {
    if bits >= 0x8000_0000 {
        bits - 0x1_0000_0000
    } else {
        bits as int
    }
}

/// The big integer with sign byte `sign` (1 for negative) and `magnitude`.
pub open spec fn signed_big(sign: u8, magnitude: nat) -> int {
    if sign == 1 {
        -magnitude
    } else {
        magnitude as int
    }
}

/// The integer an EETF document holds in one of the uncompressed integer
/// forms, or `None` when it holds none: a small integer (one byte), an
/// integer (four big-endian two's-complement bytes), or a big integer (digit
/// count, sign byte 0 or 1, then the magnitude least significant byte
/// first). What follows the term is not read.
pub open spec fn eetf_integer(doc: Seq<u8>) -> Option<int> {
    if doc.len() < 2 || doc[0] != ETF_VERSION {
        None
    } else if doc[1] == SMALL_INTEGER_EXT && doc.len() >= 3 {
        Some(doc[2] as int)
    } else if doc[1] == INTEGER_EXT && doc.len() >= 6 {
        Some(signed32(be_value(doc.subrange(2, 6))))
    } else if doc[1] == SMALL_BIG_EXT && doc.len() >= 4 && doc.len() >= 4 + doc[2] && doc[3] <= 1 {
        Some(signed_big(doc[3], le_value(doc.subrange(4, 4 + doc[2]))))
    } else if doc[1] == LARGE_BIG_EXT && doc.len() >= 7 && doc.len() >= 7
        + be_value(doc.subrange(2, 6)) && doc[6] <= 1 {
        Some(
            signed_big(
                doc[6],
                le_value(doc.subrange(7, 7 + be_value(doc.subrange(2, 6)) as int)),
            ),
        )
    } else {
        None
    }
}

/// The bytes an EETF document holds as an uncompressed binary, or `None`
/// when it holds none. What follows the term is not read.
pub open spec fn eetf_binary(doc: Seq<u8>) -> Option<Seq<u8>> {
    if doc.len() >= 6 && doc[0] == ETF_VERSION && doc[1] == BINARY_EXT && doc.len() >= 6
        + be_value(doc.subrange(2, 6)) {
        Some(doc.subrange(6, 6 + be_value(doc.subrange(2, 6)) as int))
    } else {
        None
    }
}

/// Calls `serde_eetf::from_bytes` for an `i8` on a document that holds an
/// integer in the range of `i8`: it decodes the term and returns that
/// integer. (Documents compressed with zlib are decoded too; this contract
/// does not cover them.)
#[verifier::external_body]
fn eetf_i8_of_doc(doc: &[u8]) -> (value: i8)
    requires
        eetf_integer(doc@) matches Some(v) && i8::MIN <= v <= i8::MAX,
    ensures
        eetf_integer(doc@) == Some(value as int),
{
    serde_eetf::from_bytes(doc).expect("Deserialization Failed")
}

/// Calls `serde_eetf::from_bytes` for an `i32` on a document that holds an
/// integer in the range of `i32`: it decodes the term and returns that
/// integer. (Documents compressed with zlib are decoded too; this contract
/// does not cover them.)
#[verifier::external_body]
fn eetf_i32_of_doc(doc: &[u8]) -> (value: i32)
    requires
        eetf_integer(doc@) matches Some(v) && i32::MIN <= v <= i32::MAX,
    ensures
        eetf_integer(doc@) == Some(value as int),
{
    serde_eetf::from_bytes(doc).expect("Deserialization Failed")
}

/// Calls `serde_eetf::from_bytes` for a `String` on a document that holds a
/// binary of valid UTF-8: it returns the string those bytes encode.
/// (Documents compressed with zlib are decoded too; this contract does not
/// cover them.)
#[verifier::external_body]
fn eetf_string_of_doc(doc: &[u8]) -> (value: String)
    requires
        eetf_binary(doc@) matches Some(bytes) && vstd::utf8::valid_utf8(bytes),
    ensures
        value@ == vstd::utf8::decode_utf8(eetf_binary(doc@).unwrap()),
{
    serde_eetf::from_bytes(doc).expect("Deserialization Failed")
}

/// Calls `serde_eetf::to_bytes` on an `i8`, which serde_eetf serializes as
/// an EETF integer term.
#[verifier::external_body]
fn eetf_doc_of_i8(value: i8) -> (doc: Vec<u8>)
    ensures
        doc@ == seq![ETF_VERSION] + fix_integer_term(value as int),
{
    serde_eetf::to_bytes(&value).expect("Serialization failed")
}

/// Calls `serde_eetf::to_bytes` on an `i32`, which serde_eetf serializes as
/// an EETF integer term.
#[verifier::external_body]
fn eetf_doc_of_i32(value: i32) -> (doc: Vec<u8>)
    ensures
        doc@ == seq![ETF_VERSION] + fix_integer_term(value as int),
{
    serde_eetf::to_bytes(&value).expect("Serialization failed")
}

/// Calls `serde_eetf::to_bytes` on a `String`, which serde_eetf serializes
/// as an EETF binary of the string's UTF-8 bytes.
#[verifier::external_body]
fn eetf_doc_of_string(value: &String) -> (doc: Vec<u8>)
    ensures
        doc@ == seq![ETF_VERSION] + binary_term(vstd::utf8::encode_utf8(value@)),
{
    serde_eetf::to_bytes(value).expect("Serialization failed")
}

/// An `i8` is sent as an Erlang integer.
impl MessageSerialize for i8 {
    fn serialize_message(self) -> (doc: Vec<u8>)
        ensures
            doc@ == seq![ETF_VERSION] + fix_integer_term(self as int),
    {
        eetf_doc_of_i8(self)
    }
}

/// An `i32` is sent as an Erlang integer.
impl MessageSerialize for i32 {
    fn serialize_message(self) -> (doc: Vec<u8>)
        ensures
            doc@ == seq![ETF_VERSION] + fix_integer_term(self as int),
    {
        eetf_doc_of_i32(self)
    }
}

/// A `String` is sent as an Erlang binary of its UTF-8 bytes.
impl MessageSerialize for String {
    fn serialize_message(self) -> (doc: Vec<u8>)
        ensures
            doc@ == seq![ETF_VERSION] + binary_term(vstd::utf8::encode_utf8(self@)),
    {
        eetf_doc_of_string(&self)
    }
}

/// An `i8` is read from an Erlang integer in its range.
impl MessageDeserialize for i8 {
    open spec fn accepts(buffer: Seq<u8>) -> bool {
        eetf_integer(buffer) matches Some(v) && i8::MIN <= v <= i8::MAX
    }

    fn deserialize_message(buffer: Vec<u8>) -> (value: i8)
        ensures
            eetf_integer(buffer@) == Some(value as int),
    {
        eetf_i8_of_doc(buffer.as_slice())
    }
}

/// An `i32` is read from an Erlang integer in its range.
impl MessageDeserialize for i32 {
    open spec fn accepts(buffer: Seq<u8>) -> bool {
        eetf_integer(buffer) matches Some(v) && i32::MIN <= v <= i32::MAX
    }

    fn deserialize_message(buffer: Vec<u8>) -> (value: i32)
        ensures
            eetf_integer(buffer@) == Some(value as int),
    {
        eetf_i32_of_doc(buffer.as_slice())
    }
}

/// A `String` is read from an Erlang binary of UTF-8 bytes.
impl MessageDeserialize for String {
    open spec fn accepts(buffer: Seq<u8>) -> bool {
        eetf_binary(buffer) matches Some(bytes) && vstd::utf8::valid_utf8(bytes)
    }

    fn deserialize_message(buffer: Vec<u8>) -> (value: String)
        ensures
            value@ == vstd::utf8::decode_utf8(eetf_binary(buffer@).unwrap()),
    {
        eetf_string_of_doc(buffer.as_slice())
    }
}

/// A result enum for replying to commands from Erlang.
///
/// This will serialize into a standard erlang result tuple of either:
///
/// 1. `{:ok, result}` on `Okay`
/// 2. `{:error, err}` on `Error`
///
/// All replies sent via `reply` are converted into this enum.
#[derive(Debug, PartialEq)]
pub enum ErlResult<T, E> {
    Okay(T),
    Error(E),
}

impl<T, E> From<Result<T, E>> for ErlResult<T, E> {
    fn from(result: Result<T, E>) -> (r: Self) {
        match result {
            Ok(success) => ErlResult::Okay(success),
            Err(error) => ErlResult::Error(error),
        }
    }
}

impl<T, E> vstd::std_specs::convert::FromSpecImpl<Result<T, E>> for ErlResult<T, E> {
    open spec fn obeys_from_spec() -> bool {
        true
    }

    open spec fn from_spec(result: Result<T, E>) -> Self {
        match result {
            Ok(success) => ErlResult::Okay(success),
            Err(error) => ErlResult::Error(error),
        }
    }
}

/// The name of the atom that tags a successful reply: `ok`.
pub open spec fn ok_atom() -> Seq<u8> {
    seq![0x6fu8, 0x6bu8]
}

/// The name of the atom that tags a failed reply: `error`.
pub open spec fn error_atom() -> Seq<u8> {
    seq![0x65u8, 0x72u8, 0x72u8, 0x6fu8, 0x72u8]
}

/// The atom that tags a reply of this kind.
pub open spec fn reply_tag<T, E>(reply: ErlResult<T, E>) -> Seq<u8> {
    match reply {
        ErlResult::Okay(_) => ok_atom(),
        ErlResult::Error(_) => error_atom(),
    }
}

/// The EETF encoding of an atom named `name`.
pub open spec fn atom_term(name: Seq<u8>) -> Seq<u8> {
    seq![ATOM_EXT] + be_bytes(name.len(), 2) + name
}

/// The term held by an EETF document: the document without its version byte.
pub open spec fn doc_term(doc: Seq<u8>) -> Seq<u8> {
    if doc.len() > 0 && doc[0] == ETF_VERSION {
        doc.skip(1)
    } else {
        doc
    }
}

/// The EETF document of the pair `{tag, value}`, where `value_doc` is the
/// EETF document of `value`.
pub open spec fn tagged_pair_doc(tag: Seq<u8>, value_doc: Seq<u8>) -> Seq<u8> {
    seq![ETF_VERSION, SMALL_TUPLE_EXT, 2u8] + atom_term(tag) + doc_term(value_doc)
}

/// Builds the EETF document of `{tag, value}` from the document of `value`.
fn tagged_pair(tag: &[u8], value_doc: &[u8]) -> (doc: Vec<u8>)
    requires
        tag@.len() < 0x1_0000,
    ensures
        doc@ == tagged_pair_doc(tag@, value_doc@),
{
    let mut doc: Vec<u8> = vec![ETF_VERSION, SMALL_TUPLE_EXT, 2u8, ATOM_EXT];
    let len = be_write_u16(tag.len() as u16);
    doc.push(len[0]);
    doc.push(len[1]);
    proof {
        reveal_with_fuel(be_bytes, 3);
        assert(be_bytes(tag@.len(), 2) =~= seq![(tag@.len() / 256) as u8, (tag@.len() % 256) as u8]);
    }
    let ghost head = doc@;
    for i in 0..tag.len()
        invariant
            doc@ == head + tag@.take(i as int),
    {
        doc.push(tag[i]);
        assert(tag@.take(i + 1) =~= tag@.take(i as int).push(tag@[i as int]));
    }
    assert(tag@.take(tag@.len() as int) =~= tag@);
    let start: usize = if value_doc.len() > 0 && value_doc[0] == ETF_VERSION {
        1
    } else {
        0
    };
    let ghost mid = doc@;
    for j in start..value_doc.len()
        invariant
            start <= value_doc@.len(),
            doc@ == mid + value_doc@.subrange(start as int, j as int),
    {
        doc.push(value_doc[j]);
        assert(value_doc@.subrange(start as int, j + 1) =~= value_doc@.subrange(
            start as int,
            j as int,
        ).push(value_doc@[j as int]));
    }
    assert(value_doc@.subrange(start as int, value_doc@.len() as int) =~= doc_term(value_doc@));
    assert(doc@ =~= tagged_pair_doc(tag@, value_doc@));
    doc
}

/// Replies are sent as `{ok, result}` or `{error, err}` tuples, around the
/// document that the payload's own `MessageSerialize` gives.
impl<T: MessageSerialize, E: MessageSerialize> MessageSerialize for ErlResult<T, E> {
    fn serialize_message(self) -> (bytes: Vec<u8>)
        ensures
            exists|value_doc: Vec<u8>|
                #![trigger tagged_pair_doc(reply_tag(self), value_doc@)]
                match self {
                    ErlResult::Okay(success) => call_ensures(T::serialize_message, (success,), value_doc),
                    ErlResult::Error(error) => call_ensures(E::serialize_message, (error,), value_doc),
                } && bytes@ == tagged_pair_doc(reply_tag(self), value_doc@),
    {
        let ghost reply = self;
        match self {
            ErlResult::Okay(success) => {
                let tag: [u8; 2] = [0x6f, 0x6b];
                assert(tag@ =~= ok_atom());
                let value_doc = success.serialize_message();
                let doc = tagged_pair(&tag, value_doc.as_slice());
                assert(doc@ == tagged_pair_doc(reply_tag(reply), value_doc@));
                doc
            },
            ErlResult::Error(error) => {
                let tag: [u8; 5] = [0x65, 0x72, 0x72, 0x6f, 0x72];
                assert(tag@ =~= error_atom());
                let value_doc = error.serialize_message();
                let doc = tagged_pair(&tag, value_doc.as_slice());
                assert(doc@ == tagged_pair_doc(reply_tag(reply), value_doc@));
                doc
            },
        }
    }
}

/// A successful reply and a failed one never have the same encoding,
/// whatever they carry.
pub proof fn law_reply_tags_distinct(ok_doc: Seq<u8>, error_doc: Seq<u8>)
    ensures
        tagged_pair_doc(ok_atom(), ok_doc) != tagged_pair_doc(error_atom(), error_doc),
{
    reveal_with_fuel(be_bytes, 3);
    assert(tagged_pair_doc(ok_atom(), ok_doc)[5] == 2);
    assert(tagged_pair_doc(error_atom(), error_doc)[5] == 5);
}

/// Replies with the same tag and different payload terms have different
/// encodings: the payload is recovered from the reply by dropping the
/// tuple header and the tag.
pub proof fn law_reply_payload_recoverable(tag: Seq<u8>, value_doc: Seq<u8>)
    requires
        tag.len() < 0x1_0000,
    ensures
        tagged_pair_doc(tag, value_doc).len() == 6 + tag.len() + doc_term(value_doc).len(),
        tagged_pair_doc(tag, value_doc).skip(6 + tag.len() as int) == doc_term(value_doc),
{
    crate::packet::lemma_be_value_of_be_bytes(tag.len(), 2);
    assert(tagged_pair_doc(tag, value_doc).skip(6 + tag.len() as int) =~= doc_term(value_doc));
}

/// An integer in the range of `i32` sent as an EETF document reads back from
/// that document as the same integer; `i32` messages accept the document,
/// and so do `i8` messages when the integer is in their range.
pub proof fn law_integer_round_trip(value: int)
    requires
        i32::MIN <= value <= i32::MAX,
    ensures
        eetf_integer(seq![ETF_VERSION] + fix_integer_term(value)) == Some(value),
        <i32 as MessageDeserialize>::accepts(seq![ETF_VERSION] + fix_integer_term(value)),
        i8::MIN <= value <= i8::MAX ==> <i8 as MessageDeserialize>::accepts(
            seq![ETF_VERSION] + fix_integer_term(value),
        ),
{
    let doc = seq![ETF_VERSION] + fix_integer_term(value);
    if !(0 <= value <= 255) {
        let bits = (value % 0x1_0000_0000) as nat;
        crate::packet::lemma_be_value_of_be_bytes(bits, 4);
        crate::packet::lemma_header_ranges();
        assert(doc.subrange(2, 6) =~= be_bytes(bits, 4));
        vstd::arithmetic::div_mod::lemma_small_mod(bits, 0x1_0000_0000);
        if value < 0 {
            vstd::arithmetic::div_mod::lemma_mod_add_multiples_vanish(value, 0x1_0000_0000);
            vstd::arithmetic::div_mod::lemma_small_mod(
                (value + 0x1_0000_0000) as nat,
                0x1_0000_0000,
            );
        } else {
            vstd::arithmetic::div_mod::lemma_small_mod(value as nat, 0x1_0000_0000);
        }
        assert(signed32(bits) == value);
    }
}

/// A string sent as an EETF document reads back from that document as the
/// same string, whenever its UTF-8 encoding's length fits the binary's
/// four-byte length: `String` messages accept the document.
pub proof fn law_string_round_trip(value: Seq<char>)
    requires
        vstd::utf8::encode_utf8(value).len() < 0x1_0000_0000,
    ensures
        eetf_binary(seq![ETF_VERSION] + binary_term(vstd::utf8::encode_utf8(value))) == Some(
            vstd::utf8::encode_utf8(value),
        ),
        <String as MessageDeserialize>::accepts(
            seq![ETF_VERSION] + binary_term(vstd::utf8::encode_utf8(value)),
        ),
        vstd::utf8::decode_utf8(vstd::utf8::encode_utf8(value)) == value,
{
    let bytes = vstd::utf8::encode_utf8(value);
    let doc = seq![ETF_VERSION] + binary_term(bytes);
    crate::packet::lemma_be_value_of_be_bytes(bytes.len(), 4);
    crate::packet::lemma_header_ranges();
    vstd::arithmetic::div_mod::lemma_small_mod(bytes.len(), 0x1_0000_0000);
    assert(doc.subrange(2, 6) =~= be_bytes(bytes.len(), 4));
    assert(doc.subrange(6, 6 + bytes.len() as int) =~= bytes);
    vstd::utf8::encode_utf8_valid_utf8(value);
    vstd::utf8::encode_utf8_decode_utf8(value);
}

/// What a reply is made of, byte for byte: the version byte, the header of a
/// two-element tuple, the atom `ok` (for `Okay`) or `error` (for `Error`),
/// and then the payload's term. When the payload's document starts with the
/// version byte, as every EETF document does, the term is that document
/// without its first byte, whatever kind of term it holds; a payload that
/// does not start with it is carried whole.
pub proof fn law_reply_encoding<T: MessageSerialize, E: MessageSerialize>(
    reply: ErlResult<T, E>,
    bytes: Vec<u8>,
)
    requires
        call_ensures(ErlResult::<T, E>::serialize_message, (reply,), bytes),
    ensures
        exists|value_doc: Vec<u8>|
            #![trigger value_doc@]
            match reply {
                ErlResult::Okay(success) => call_ensures(
                    T::serialize_message,
                    (success,),
                    value_doc,
                ) && (value_doc@.len() > 0 && value_doc@[0] == 131u8 ==> bytes@ == seq![
                    131u8,
                    104u8,
                    2u8,
                    100u8,
                    0u8,
                    2u8,
                    111u8,
                    107u8,
                ] + value_doc@.skip(1)) && (!(value_doc@.len() > 0 && value_doc@[0] == 131u8)
                    ==> bytes@ == seq![131u8, 104u8, 2u8, 100u8, 0u8, 2u8, 111u8, 107u8]
                    + value_doc@),
                ErlResult::Error(error) => call_ensures(
                    E::serialize_message,
                    (error,),
                    value_doc,
                ) && (value_doc@.len() > 0 && value_doc@[0] == 131u8 ==> bytes@ == seq![
                    131u8,
                    104u8,
                    2u8,
                    100u8,
                    0u8,
                    5u8,
                    101u8,
                    114u8,
                    114u8,
                    111u8,
                    114u8,
                ] + value_doc@.skip(1)) && (!(value_doc@.len() > 0 && value_doc@[0] == 131u8)
                    ==> bytes@ == seq![
                    131u8,
                    104u8,
                    2u8,
                    100u8,
                    0u8,
                    5u8,
                    101u8,
                    114u8,
                    114u8,
                    111u8,
                    114u8,
                ] + value_doc@),
            },
{
    let value_doc = choose|value_doc: Vec<u8>|
        #![trigger tagged_pair_doc(reply_tag(reply), value_doc@)]
        match reply {
            ErlResult::Okay(success) => call_ensures(T::serialize_message, (success,), value_doc),
            ErlResult::Error(error) => call_ensures(E::serialize_message, (error,), value_doc),
        } && bytes@ == tagged_pair_doc(reply_tag(reply), value_doc@);
    reveal_with_fuel(be_bytes, 3);
    let d = value_doc@;
    match reply {
        ErlResult::Okay(_) => {
            let head = seq![131u8, 104u8, 2u8, 100u8, 0u8, 2u8, 111u8, 107u8];
            assert(seq![ETF_VERSION, SMALL_TUPLE_EXT, 2u8] + atom_term(ok_atom()) =~= head);
            if d.len() > 0 && d[0] == 131u8 {
                assert(bytes@ =~= head + d.skip(1));
            } else {
                assert(bytes@ =~= head + d);
            }
        },
        ErlResult::Error(_) => {
            let head = seq![131u8, 104u8, 2u8, 100u8, 0u8, 5u8, 101u8, 114u8, 114u8, 111u8, 114u8];
            assert(seq![ETF_VERSION, SMALL_TUPLE_EXT, 2u8] + atom_term(error_atom()) =~= head);
            if d.len() > 0 && d[0] == 131u8 {
                assert(bytes@ =~= head + d.skip(1));
            } else {
                assert(bytes@ =~= head + d);
            }
        },
    }
}

} // verus!
