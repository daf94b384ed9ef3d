//! Packets, and their form on the wire.
//!
//! A packet is written as its kind followed by its message. The kind has bincode's form of a
//! string: its length in bytes as eight little-endian bytes, and then these bytes. The message is
//! whatever its type was encoded to, and reaches to the end of the frame.

use vstd::bytes::{
    lemma_auto_spec_u64_to_from_le_bytes, spec_u64_from_le_bytes, spec_u64_to_le_bytes,
};
use vstd::prelude::*;
use vstd::utf8::{
    decode_utf8, decode_utf8_encode_utf8, encode_utf8, encode_utf8_decode_utf8,
    encode_utf8_valid_utf8, valid_utf8,
};

use crate::quote::{quote, quoted};

verus! {

/// The error of bincode, carried and never looked into.
#[verifier::external_type_specification]
#[verifier::external_body]
pub struct ExBincodeError(bincode::ErrorKind);

/// The message in a packet.
#[derive(Debug, PartialEq, Eq)]
pub enum Payload {
    /// The bytes of the encoded message.
    Encoded(Vec<u8>),
    /// The message has no encoding.
    Unencodable,
}

impl View for Payload {
    type V = Option<Seq<u8>>;

    open spec fn view(&self) -> Option<Seq<u8>> {
        match self {
            Payload::Encoded(data) => Some(data@),
            Payload::Unencodable => None,
        }
    }
}

impl Clone for Payload {
    fn clone(&self) -> (copy: Self)
        ensures
            copy@ == self@,
    {
        match self {
            Payload::Encoded(data) => {
                let copy = data.clone();
                assert(copy@ == data@);
                Payload::Encoded(copy)
            },
            Payload::Unencodable => Payload::Unencodable,
        }
    }
}

/// The mathematical value of a [`NetworkPacket`].
pub struct PacketView {
    pub kind: Seq<char>,
    pub data: Option<Seq<u8>>,
}

/// [`NetworkPacket`]s are untyped packets to be sent over the wire.
#[derive(Debug, PartialEq, Eq)]
pub struct NetworkPacket {
    /// The name under which the type of the message is registered.
    pub kind: String,
    pub data: Payload,
}

impl View for NetworkPacket {
    type V = PacketView;

    open spec fn view(&self) -> PacketView {
        PacketView { kind: self.kind@, data: self.data@ }
    }
}

/// bincode's form of a string.
pub open spec fn string_bytes(text: Seq<char>) -> Seq<u8> {
    spec_u64_to_le_bytes(encode_utf8(text).len() as u64) + encode_utf8(text)
}

/// How many bytes the string at the front of `bytes` claims to have.
pub open spec fn string_len(bytes: Seq<u8>) -> int {
    spec_u64_from_le_bytes(bytes.take(8)) as int
}

/// Whether `bytes` begins with a string in bincode's form.
pub open spec fn starts_with_string(bytes: Seq<u8>) -> bool {
    &&& 8 <= bytes.len()
    &&& 8 + string_len(bytes) <= bytes.len()
    &&& valid_utf8(bytes.subrange(8, 8 + string_len(bytes)))
}

/// The string at the front of `bytes`.
pub open spec fn leading_string(bytes: Seq<u8>) -> Seq<char> {
    decode_utf8(bytes.subrange(8, 8 + string_len(bytes)))
}

/// The frame of a packet; a packet whose message has no encoding has none.
pub open spec fn frame_of(packet: PacketView) -> Option<Seq<u8>> {
    match packet.data {
        Some(data) => Some(string_bytes(packet.kind) + data),
        None => None,
    }
}

/// The packet in a frame, where there is one.
pub open spec fn packet_in(frame: Seq<u8>) -> Option<PacketView> {
    if starts_with_string(frame) {
        Some(
            PacketView {
                kind: leading_string(frame),
                data: Some(frame.skip(8 + string_len(frame))),
            },
        )
    } else {
        None
    }
}

/// `NetworkPacket { kind: <kind> }`.
pub open spec fn packet_text(kind: Seq<char>) -> Seq<char> {
    "NetworkPacket { kind: "@ + kind + " }"@
}

/// A packet in words, where its kind is shown as `kind`.
pub fn describe_packet(kind: &str) -> (text: String)
    ensures
        text@ == packet_text(kind@),
{
    let mut text = "NetworkPacket { kind: ".to_owned();
    text.append(kind);
    text.append(" }");
    text
}

/// Calls `bincode::serialize` on a string.
///
/// Believed of it: it succeeds, and gives the length in eight little-endian bytes followed by the
/// UTF-8 bytes of the string.
#[verifier::external_body]
fn serialize_string(text: &str) -> (bytes: Result<Vec<u8>, Box<bincode::ErrorKind>>)
    ensures
        bytes matches Ok(bytes) && bytes@ == string_bytes(text@),
{
    bincode::serialize(text)
}

/// Calls `bincode::deserialize` for a string.
///
/// Believed of it: it succeeds if and only if the bytes begin with a string in bincode's form,
/// whatever follows, and then gives that string.
#[verifier::external_body]
fn deserialize_string(bytes: &[u8]) -> (text: Result<String, Box<bincode::ErrorKind>>)
    ensures
        text is Ok <==> starts_with_string(bytes@),
        text matches Ok(text) ==> text@ == leading_string(bytes@),
{
    bincode::deserialize(bytes)
}

impl NetworkPacket {
    /// The packet in words: its kind, and nothing of its message.
    pub fn description(&self) -> (text: String)
        ensures
            text@ == packet_text(quoted(self.kind@)),
    {
        describe_packet(quote(self.kind.as_str()).as_str())
    }

    /// The frame to send for this packet, or nothing where its message has no encoding.
    pub fn encode(&self) -> (frame: Option<Vec<u8>>)
        ensures
            (match frame {
                Some(frame) => Some(frame@),
                None => None,
            }) == frame_of(self@),
    {
        match &self.data {
            Payload::Encoded(data) => match serialize_string(self.kind.as_str()) {
                Ok(kind) => {
                    let mut frame = kind;
                    frame.extend_from_slice(data.as_slice());
                    assert(frame@ == string_bytes(self.kind@) + data@);
                    Some(frame)
                },
                Err(_) => None,
            },
            Payload::Unencodable => None,
        }
    }

    /// The packet in a received frame, or nothing where the frame does not begin with a kind.
    pub fn decode(frame: &[u8]) -> (packet: Option<NetworkPacket>)
        ensures
            (match packet {
                Some(packet) => Some(packet@),
                None => None,
            }) == packet_in(frame@),
    {
        match deserialize_string(frame) {
            Ok(kind) => {
                proof {
                    decode_utf8_encode_utf8(frame@.subrange(8, 8 + string_len(frame@)));
                }
                let end: usize = frame.len();
                let start: usize = 8 + kind.as_str().as_bytes().len();
                let data = vstd::slice::slice_to_vec(
                    vstd::slice::slice_subrange(frame, start, end),
                );
                Some(NetworkPacket { kind, data: Payload::Encoded(data) })
            },
            Err(_) => None,
        }
    }
}

/// A received frame gives back the packet that was sent: every packet with an encoded message
/// survives the wire unchanged.
pub proof fn law_frame_gives_back_packet(packet: PacketView)
    requires
        packet.data is Some,
        encode_utf8(packet.kind).len() <= u64::MAX,
    ensures
        frame_of(packet) matches Some(frame) && packet_in(frame) == Some(packet),
{
    let text = encode_utf8(packet.kind);
    let frame = string_bytes(packet.kind) + packet.data->0;
    lemma_auto_spec_u64_to_from_le_bytes();
    encode_utf8_valid_utf8(packet.kind);
    encode_utf8_decode_utf8(packet.kind);
    assert(frame.take(8) == spec_u64_to_le_bytes(text.len() as u64));
    assert(string_len(frame) == text.len());
    assert(frame.subrange(8, 8 + string_len(frame)) == text);
    assert(frame.skip(8 + string_len(frame)) == packet.data->0);
}

/// Every frame that holds a packet is the frame of that packet: what was received is what would
/// be sent again.
pub proof fn law_packet_gives_back_frame(frame: Seq<u8>)
    requires
        packet_in(frame) is Some,
    ensures
        frame_of(packet_in(frame)->0) == Some(frame),
{
    let text = frame.subrange(8, 8 + string_len(frame));
    lemma_auto_spec_u64_to_from_le_bytes();
    decode_utf8_encode_utf8(text);
    assert(spec_u64_to_le_bytes(spec_u64_from_le_bytes(frame.take(8))) == frame.take(8));
    assert(frame == frame.take(8) + text + frame.skip(8 + string_len(frame)));
}

} // verus!
