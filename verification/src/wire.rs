//! The bytes of packets and messages on the wire.
//!
//! Integers are variable length, little endian. A packet is the index of its
//! variant followed by its fields in order; a byte string is its length
//! followed by its contents.
use vstd::prelude::*;
use vstd::slice::slice_subrange;

use bincode::error::DecodeError;

use crate::netres::{MessageView, PacketView, RawNetMessage, ReplicationPacket};

verus! {

/// Why bytes are not a packet or a message.
#[derive(Debug, Clone, Copy, PartialEq, Eq, Structural)]
pub enum WireError {
    /// An integer or a byte string is malformed or cut off.
    BadField,
    /// The variant index is none of a packet's.
    UnknownVariant(u32),
}

/// The `width` low base-256 digits of `value`, least significant first.
pub open spec fn little_endian(value: nat, width: nat) -> Seq<u8>
    decreases width,
{
    if width == 0 {
        Seq::empty()
    } else {
        seq![(value % 256) as u8] + little_endian(value / 256, (width - 1) as nat)
    }
}

/// The number with the given base-256 digits, least significant first.
pub open spec fn from_little_endian(digits: Seq<u8>) -> nat
    decreases digits.len(),
{
    if digits.len() == 0 {
        0
    } else {
        digits[0] as nat + 256 * from_little_endian(digits.drop_first())
    }
}

/// The variable-length form of an unsigned integer below 2^64.
pub open spec fn varint(value: nat) -> Seq<u8> {
    if value < 251 {
        seq![value as u8]
    } else if value < 0x1_0000 {
        seq![251u8] + little_endian(value, 2)
    } else if value < 0x1_0000_0000 {
        seq![252u8] + little_endian(value, 4)
    } else {
        seq![253u8] + little_endian(value, 8)
    }
}

/// The integer of at most `width` bytes at the front of `bytes`, and the
/// number of bytes that it takes there.
pub open spec fn read_varint(bytes: Seq<u8>, width: nat) -> Option<(nat, nat)> {
    if bytes.len() == 0 {
        None
    } else if bytes[0] < 251 {
        Some((bytes[0] as nat, 1))
    } else if bytes[0] == 251 && bytes.len() >= 3 {
        Some((from_little_endian(bytes.subrange(1, 3)), 3))
    } else if bytes[0] == 252 && bytes.len() >= 5 {
        Some((from_little_endian(bytes.subrange(1, 5)), 5))
    } else if bytes[0] == 253 && bytes.len() >= 9 && width >= 8 {
        Some((from_little_endian(bytes.subrange(1, 9)), 9))
    } else {
        None
    }
}

/// The form of a byte string: its length, then its contents.
pub open spec fn byte_string(contents: Seq<u8>) -> Seq<u8> {
    varint(contents.len()) + contents
}

/// The byte string at the front of `bytes`, and the number of bytes that it
/// takes there with its length.
pub open spec fn read_byte_string(bytes: Seq<u8>) -> Option<(Seq<u8>, nat)> {
    match read_varint(bytes, 8) {
        Some((length, used)) => {
            let end = used + (length as usize) as nat;
            if end <= bytes.len() {
                Some((bytes.subrange(used as int, end as int), end))
            } else {
                None
            }
        },
        None => None,
    }
}

/// The bytes of a packet.
pub open spec fn packet_bytes(packet: PacketView) -> Seq<u8> {
    match packet {
        PacketView::SpawnEntity { network_id, prefab_wire_id } => varint(0) + varint(
            network_id as nat,
        ) + varint(prefab_wire_id as nat),
        PacketView::DespawnEntity { network_id } => varint(1) + varint(network_id as nat),
        PacketView::UpdateComponent {
            network_id,
            component_wire_id,
            sequence,
            bytes,
        } => varint(2) + varint(network_id as nat) + varint(component_wire_id as nat) + varint(
            sequence as nat,
        ) + byte_string(bytes),
        PacketView::UpdateResource { resource_wire_id, bytes } => varint(3) + varint(
            resource_wire_id as nat,
        ) + byte_string(bytes),
    }
}

/// The bytes of a message.
pub open spec fn message_bytes(message: MessageView) -> Seq<u8> {
    varint(message.wire_id as nat) + byte_string(message.bytes)
}

/// The two integers at the front of `bytes` and the number of bytes they take.
pub open spec fn read_two(bytes: Seq<u8>) -> Option<(u64, u64, nat)> {
    match read_varint(bytes, 8) {
        Some((first, used)) => match read_varint(bytes.skip(used as int), 8) {
            Some((second, more)) => Some((first as u64, second as u64, used + more)),
            None => None,
        },
        None => None,
    }
}

/// The fields of a packet with the given variant index, at the front of
/// `bytes`. Whatever follows them is left alone.
pub open spec fn read_fields(variant: nat, bytes: Seq<u8>) -> Option<PacketView> {
    if variant == 0 {
        match read_two(bytes) {
            Some((network_id, prefab_wire_id, _)) => Some(
                PacketView::SpawnEntity { network_id, prefab_wire_id },
            ),
            None => None,
        }
    } else if variant == 1 {
        match read_varint(bytes, 8) {
            Some((network_id, _)) => Some(
                PacketView::DespawnEntity { network_id: network_id as u64 },
            ),
            None => None,
        }
    } else if variant == 2 {
        match read_two(bytes) {
            Some((network_id, component_wire_id, used)) => {
                let rest = bytes.skip(used as int);
                match read_varint(rest, 8) {
                    Some((sequence, more)) => match read_byte_string(rest.skip(more as int)) {
                        Some((contents, _)) => Some(
                            PacketView::UpdateComponent {
                                network_id,
                                component_wire_id,
                                sequence: sequence as u64,
                                bytes: contents,
                            },
                        ),
                        None => None,
                    },
                    None => None,
                }
            },
            None => None,
        }
    } else if variant == 3 {
        match read_varint(bytes, 8) {
            Some((resource_wire_id, used)) => match read_byte_string(bytes.skip(used as int)) {
                Some((contents, _)) => Some(
                    PacketView::UpdateResource {
                        resource_wire_id: resource_wire_id as u64,
                        bytes: contents,
                    },
                ),
                None => None,
            },
            None => None,
        }
    } else {
        None
    }
}

/// What the bytes of a packet are read as.
pub open spec fn read_packet(bytes: Seq<u8>) -> Result<PacketView, WireError> {
    match read_varint(bytes, 4) {
        Some((variant, used)) => if variant >= 4 {
            Err(WireError::UnknownVariant(variant as u32))
        } else {
            match read_fields(variant, bytes.skip(used as int)) {
                Some(packet) => Ok(packet),
                None => Err(WireError::BadField),
            }
        },
        None => Err(WireError::BadField),
    }
}

/// What the bytes of a message are read as.
pub open spec fn read_message(bytes: Seq<u8>) -> Result<MessageView, WireError> {
    match read_varint(bytes, 8) {
        Some((wire_id, used)) => match read_byte_string(bytes.skip(used as int)) {
            Some((contents, _)) => Ok(MessageView { wire_id: wire_id as u64, bytes: contents }),
            None => Err(WireError::BadField),
        },
        None => Err(WireError::BadField),
    }
}

/// The error type of `bincode`'s decoders; nothing is known of its values.
#[verifier::external_type_specification]
#[verifier::external_body]
pub struct ExDecodeError(bincode::error::DecodeError);

/// Calls `bincode::serde::encode_to_vec` on a `u32` in the standard
/// configuration. Claims that it succeeds with the variable-length form of
/// the integer.
#[verifier::external_body]
fn encode_u32(value: u32) -> (bytes: Vec<u8>)
    ensures
        bytes@ == varint(value as nat),
{
    bincode::serde::encode_to_vec(value, bincode::config::standard()).expect("integer encodes")
}

/// Calls `bincode::serde::encode_to_vec` on a `u64` in the standard
/// configuration. Claims that it succeeds with the variable-length form of
/// the integer.
#[verifier::external_body]
fn encode_u64(value: u64) -> (bytes: Vec<u8>)
    ensures
        bytes@ == varint(value as nat),
{
    bincode::serde::encode_to_vec(value, bincode::config::standard()).expect("integer encodes")
}

/// Calls `bincode::serde::encode_to_vec` on a `Vec<u8>` in the standard
/// configuration. Claims that it succeeds with the length in variable-length
/// form followed by the contents as they are.
#[verifier::external_body]
fn encode_byte_string(contents: &Vec<u8>) -> (bytes: Vec<u8>)
    ensures
        bytes@ == byte_string(contents@),
{
    bincode::serde::encode_to_vec(contents, bincode::config::standard()).expect("bytes encode")
}

/// Calls `bincode::serde::decode_from_slice` for a `u32` in the standard
/// configuration. Claims that it reads a variable-length integer of at most
/// four bytes from the front, with the number of bytes taken, and fails
/// exactly where there is none.
#[verifier::external_body]
fn decode_u32(bytes: &[u8]) -> (result: Result<(u32, usize), DecodeError>)
    ensures
        match read_varint(bytes@, 4) {
            Some((value, used)) => result == Ok::<(u32, usize), DecodeError>(
                (value as u32, used as usize),
            ),
            None => result is Err,
        },
{
    bincode::serde::decode_from_slice(bytes, bincode::config::standard())
}

/// Calls `bincode::serde::decode_from_slice` for a `u64` in the standard
/// configuration. Claims that it reads a variable-length integer of at most
/// eight bytes from the front, with the number of bytes taken, and fails
/// exactly where there is none.
#[verifier::external_body]
fn decode_u64(bytes: &[u8]) -> (result: Result<(u64, usize), DecodeError>)
    ensures
        match read_varint(bytes@, 8) {
            Some((value, used)) => result == Ok::<(u64, usize), DecodeError>(
                (value as u64, used as usize),
            ),
            None => result is Err,
        },
{
    bincode::serde::decode_from_slice(bytes, bincode::config::standard())
}

/// Calls `bincode::serde::decode_from_slice` for a `Vec<u8>` in the standard
/// configuration. Claims that it reads a byte string from the front, with the
/// number of bytes taken, and fails exactly where there is none.
#[verifier::external_body]
fn decode_byte_string(bytes: &[u8]) -> (result: Result<(Vec<u8>, usize), DecodeError>)
    ensures
        match (read_byte_string(bytes@), result) {
            (Some((contents, used)), Ok((vec, taken))) => vec@ == contents && taken == used,
            (None, Err(_)) => true,
            _ => false,
        },
{
    bincode::serde::decode_from_slice(bytes, bincode::config::standard())
}

/// Serialises a packet.
pub fn encode_packet(packet: &ReplicationPacket) -> (bytes: Vec<u8>)
    ensures
        bytes@ == packet_bytes(packet@),
{
    match packet {
        ReplicationPacket::SpawnEntity { network_id, prefab_wire_id } => {
            let mut out = encode_u32(0);
            out.append(&mut encode_u64(*network_id));
            out.append(&mut encode_u64(*prefab_wire_id));
            out
        },
        ReplicationPacket::DespawnEntity { network_id } => {
            let mut out = encode_u32(1);
            out.append(&mut encode_u64(*network_id));
            out
        },
        ReplicationPacket::UpdateComponent { network_id, component_wire_id, sequence, bytes } => {
            let mut out = encode_u32(2);
            out.append(&mut encode_u64(*network_id));
            out.append(&mut encode_u64(*component_wire_id));
            out.append(&mut encode_u64(*sequence));
            out.append(&mut encode_byte_string(bytes));
            out
        },
        ReplicationPacket::UpdateResource { resource_wire_id, bytes } => {
            let mut out = encode_u32(3);
            out.append(&mut encode_u64(*resource_wire_id));
            out.append(&mut encode_byte_string(bytes));
            out
        },
    }
}

/// Serialises a message.
pub fn encode_message(message: &RawNetMessage) -> (bytes: Vec<u8>)
    ensures
        bytes@ == message_bytes(message@),
{
    let mut out = encode_u64(message.wire_id);
    out.append(&mut encode_byte_string(&message.bytes));
    out
}

/// Splits an integer off the front.
fn take_u64(bytes: &[u8]) -> (result: Option<(u64, &[u8])>)
    ensures
        match (read_varint(bytes@, 8), result) {
            (Some((value, used)), Some((number, rest))) => {
                &&& number == value
                &&& used <= bytes@.len()
                &&& rest@ == bytes@.skip(used as int)
            },
            (None, None) => true,
            _ => false,
        },
{
    match decode_u64(bytes) {
        Ok((value, used)) => {
            proof {
                lemma_read_varint_bounds(bytes@, 8);
            }
            Some((value, slice_subrange(bytes, used, bytes.len())))
        },
        Err(_) => None,
    }
}

/// Reads a byte string off the front.
fn take_byte_string(bytes: &[u8]) -> (result: Option<Vec<u8>>)
    ensures
        match (read_byte_string(bytes@), result) {
            (Some((contents, _)), Some(vec)) => vec@ == contents,
            (None, None) => true,
            _ => false,
        },
{
    match decode_byte_string(bytes) {
        Ok((contents, _)) => Some(contents),
        Err(_) => None,
    }
}

/// Reads a packet from the front of `bytes`.
pub fn decode_packet(bytes: &[u8]) -> (result: Result<ReplicationPacket, WireError>)
    ensures
        match (read_packet(bytes@), result) {
            (Ok(packet), Ok(read)) => read@ == packet,
            (Err(error), Err(reported)) => reported == error,
            _ => false,
        },
{
    let (variant, used): (u32, usize) = match decode_u32(bytes) {
        Ok(read) => read,
        Err(_) => return Err(WireError::BadField),
    };
    proof {
        lemma_read_varint_bounds(bytes@, 4);
    }
    if variant >= 4 {
        return Err(WireError::UnknownVariant(variant));
    }
    match decode_fields(variant, slice_subrange(bytes, used, bytes.len())) {
        Some(packet) => Ok(packet),
        None => Err(WireError::BadField),
    }
}

/// Reads the fields of a packet with the given variant index.
fn decode_fields(variant: u32, bytes: &[u8]) -> (result: Option<ReplicationPacket>)
    ensures
        match (read_fields(variant as nat, bytes@), result) {
            (Some(packet), Some(read)) => read@ == packet,
            (None, None) => true,
            _ => false,
        },
{
    if variant >= 4 {
        return None;
    }
    let (first, rest): (u64, &[u8]) = match take_u64(bytes) {
        Some(taken) => taken,
        None => return None,
    };
    if variant == 1 {
        return Some(ReplicationPacket::DespawnEntity { network_id: first });
    }
    if variant == 3 {
        return match take_byte_string(rest) {
            Some(contents) => Some(
                ReplicationPacket::UpdateResource { resource_wire_id: first, bytes: contents },
            ),
            None => None,
        };
    }
    let ghost after_first = rest@;
    let (second, rest): (u64, &[u8]) = match take_u64(rest) {
        Some(taken) => taken,
        None => return None,
    };
    if variant == 0 {
        return Some(ReplicationPacket::SpawnEntity { network_id: first, prefab_wire_id: second });
    }
    proof {
        let used = (read_two(bytes@)->0).2;
        assert(rest@ =~= bytes@.skip(used as int));
    }
    let (sequence, rest): (u64, &[u8]) = match take_u64(rest) {
        Some(taken) => taken,
        None => return None,
    };
    match take_byte_string(rest) {
        Some(contents) => Some(
            ReplicationPacket::UpdateComponent {
                network_id: first,
                component_wire_id: second,
                sequence,
                bytes: contents,
            },
        ),
        None => None,
    }
}

/// Reads a message from the front of `bytes`.
pub fn decode_message(bytes: &[u8]) -> (result: Result<RawNetMessage, WireError>)
    ensures
        match (read_message(bytes@), result) {
            (Ok(message), Ok(read)) => read@ == message,
            (Err(error), Err(reported)) => reported == error,
            _ => false,
        },
{
    match take_u64(bytes) {
        Some((wire_id, rest)) => match take_byte_string(rest) {
            Some(contents) => Ok(RawNetMessage { wire_id, bytes: contents }),
            None => Err(WireError::BadField),
        },
        None => Err(WireError::BadField),
    }
}

proof fn lemma_from_little_endian_bound(digits: Seq<u8>)
    ensures
        digits.len() == 2 ==> from_little_endian(digits) < 0x1_0000,
        digits.len() == 4 ==> from_little_endian(digits) < 0x1_0000_0000,
        digits.len() == 8 ==> from_little_endian(digits) < 0x1_0000_0000_0000_0000,
{
    reveal_with_fuel(from_little_endian, 9);
}

proof fn lemma_read_varint_bounds(bytes: Seq<u8>, width: nat)
    requires
        width == 4 || width == 8,
    ensures
        match read_varint(bytes, width) {
            Some((value, used)) => {
                &&& 1 <= used <= bytes.len()
                &&& value < 0x1_0000_0000_0000_0000
                &&& width == 4 ==> value < 0x1_0000_0000
            },
            None => true,
        },
{
    if bytes.len() >= 3 {
        lemma_from_little_endian_bound(bytes.subrange(1, 3));
    }
    if bytes.len() >= 5 {
        lemma_from_little_endian_bound(bytes.subrange(1, 5));
    }
    if bytes.len() >= 9 {
        lemma_from_little_endian_bound(bytes.subrange(1, 9));
    }
}

/// The number of values that `width` base-256 digits can tell apart.
spec fn capacity(width: nat) -> nat
    decreases width,
{
    if width == 0 {
        1
    } else {
        256 * capacity((width - 1) as nat)
    }
}

proof fn lemma_little_endian(value: nat, width: nat)
    requires
        value < capacity(width),
    ensures
        little_endian(value, width).len() == width,
        from_little_endian(little_endian(value, width)) == value,
    decreases width,
{
    if width > 0 {
        lemma_little_endian(value / 256, (width - 1) as nat);
        let digits = little_endian(value, width);
        assert(digits.drop_first() =~= little_endian(value / 256, (width - 1) as nat));
        assert(digits[0] == value % 256);
    }
}

proof fn lemma_read_varint_of_varint(value: nat, width: nat, tail: Seq<u8>)
    requires
        value < 0x1_0000_0000 && width == 4 || value < 0x1_0000_0000_0000_0000 && width == 8,
    ensures
        read_varint(varint(value) + tail, width) == Some((value, varint(value).len())),
        (varint(value) + tail).skip(varint(value).len() as int) == tail,
{
    reveal_with_fuel(capacity, 9);
    let bytes = varint(value) + tail;
    assert(bytes.skip(varint(value).len() as int) =~= tail);
    if value < 251 {
    } else if value < 0x1_0000 {
        lemma_little_endian(value, 2);
        assert(bytes.subrange(1, 3) =~= little_endian(value, 2));
    } else if value < 0x1_0000_0000 {
        lemma_little_endian(value, 4);
        assert(bytes.subrange(1, 5) =~= little_endian(value, 4));
    } else {
        lemma_little_endian(value, 8);
        assert(bytes.subrange(1, 9) =~= little_endian(value, 8));
    }
}

proof fn lemma_read_byte_string_of_byte_string(contents: Seq<u8>, tail: Seq<u8>)
    requires
        contents.len() <= usize::MAX,
    ensures
        read_byte_string(byte_string(contents) + tail) == Some(
            (contents, byte_string(contents).len()),
        ),
{
    let bytes = byte_string(contents) + tail;
    assert(bytes =~= varint(contents.len()) + (contents + tail));
    lemma_read_varint_of_varint(contents.len(), 8, contents + tail);
    let used = varint(contents.len()).len();
    assert(bytes.subrange(used as int, (used + contents.len()) as int) =~= contents);
}

/// The payload of a packet, empty for the kinds that carry none.
pub open spec fn packet_payload(packet: PacketView) -> Seq<u8> {
    match packet {
        PacketView::UpdateComponent { bytes, .. } => bytes,
        PacketView::UpdateResource { bytes, .. } => bytes,
        _ => Seq::empty(),
    }
}

proof fn lemma_spawn_round_trip(network_id: u64, prefab_wire_id: u64, tail: Seq<u8>)
    ensures
        ({
            let packet = PacketView::SpawnEntity { network_id, prefab_wire_id };
            read_packet(packet_bytes(packet) + tail) == Ok::<PacketView, WireError>(packet)
        }),
{
    let after_first = varint(prefab_wire_id as nat) + tail;
    let fields = varint(network_id as nat) + after_first;
    let packet = PacketView::SpawnEntity { network_id, prefab_wire_id };
    assert(packet_bytes(packet) + tail =~= varint(0) + fields);
    lemma_read_varint_of_varint(0, 4, fields);
    lemma_read_varint_of_varint(network_id as nat, 8, after_first);
    lemma_read_varint_of_varint(prefab_wire_id as nat, 8, tail);
}

proof fn lemma_despawn_round_trip(network_id: u64, tail: Seq<u8>)
    ensures
        ({
            let packet = PacketView::DespawnEntity { network_id };
            read_packet(packet_bytes(packet) + tail) == Ok::<PacketView, WireError>(packet)
        }),
{
    let fields = varint(network_id as nat) + tail;
    assert(packet_bytes(PacketView::DespawnEntity { network_id }) + tail =~= varint(1) + fields);
    lemma_read_varint_of_varint(1, 4, fields);
    lemma_read_varint_of_varint(network_id as nat, 8, tail);
}

proof fn lemma_component_fields_round_trip(
    network_id: u64,
    component_wire_id: u64,
    sequence: u64,
    contents: Seq<u8>,
    tail: Seq<u8>,
)
    requires
        contents.len() <= usize::MAX,
    ensures
        read_fields(
            2,
            varint(network_id as nat) + (varint(component_wire_id as nat) + (varint(
                sequence as nat,
            ) + (byte_string(contents) + tail))),
        ) == Some(
            PacketView::UpdateComponent {
                network_id,
                component_wire_id,
                sequence,
                bytes: contents,
            },
        ),
{
    let after_third = byte_string(contents) + tail;
    let after_second = varint(sequence as nat) + after_third;
    let after_first = varint(component_wire_id as nat) + after_second;
    let fields = varint(network_id as nat) + after_first;
    lemma_read_varint_of_varint(network_id as nat, 8, after_first);
    lemma_read_varint_of_varint(component_wire_id as nat, 8, after_second);
    let used = varint(network_id as nat).len() + varint(component_wire_id as nat).len();
    assert(read_two(fields) == Some((network_id, component_wire_id, used)));
    assert(fields.skip(used as int) =~= after_second);
    lemma_read_varint_of_varint(sequence as nat, 8, after_third);
    lemma_read_byte_string_of_byte_string(contents, tail);
}

proof fn lemma_regroup(
    a: Seq<u8>,
    b: Seq<u8>,
    c: Seq<u8>,
    d: Seq<u8>,
    e: Seq<u8>,
    tail: Seq<u8>,
)
    ensures
        a + b + c + d + e + tail == a + (b + (c + (d + (e + tail)))),
{
    assert(a + b + c + d + e + tail =~= a + (b + (c + (d + (e + tail)))));
}

proof fn lemma_component_round_trip(
    network_id: u64,
    component_wire_id: u64,
    sequence: u64,
    contents: Seq<u8>,
    tail: Seq<u8>,
)
    requires
        contents.len() <= usize::MAX,
    ensures
        ({
            let packet = PacketView::UpdateComponent {
                network_id,
                component_wire_id,
                sequence,
                bytes: contents,
            };
            read_packet(packet_bytes(packet) + tail) == Ok::<PacketView, WireError>(packet)
        }),
{
    let fields = varint(network_id as nat) + (varint(component_wire_id as nat) + (varint(
        sequence as nat,
    ) + (byte_string(contents) + tail)));
    let packet = PacketView::UpdateComponent {
        network_id,
        component_wire_id,
        sequence,
        bytes: contents,
    };
    lemma_regroup(
        varint(2),
        varint(network_id as nat),
        varint(component_wire_id as nat),
        varint(sequence as nat),
        byte_string(contents),
        tail,
    );
    lemma_read_varint_of_varint(2, 4, fields);
    lemma_component_fields_round_trip(network_id, component_wire_id, sequence, contents, tail);
}

proof fn lemma_resource_round_trip(resource_wire_id: u64, contents: Seq<u8>, tail: Seq<u8>)
    requires
        contents.len() <= usize::MAX,
    ensures
        ({
            let packet = PacketView::UpdateResource { resource_wire_id, bytes: contents };
            read_packet(packet_bytes(packet) + tail) == Ok::<PacketView, WireError>(packet)
        }),
{
    let after_first = byte_string(contents) + tail;
    let fields = varint(resource_wire_id as nat) + after_first;
    let packet = PacketView::UpdateResource { resource_wire_id, bytes: contents };
    assert(packet_bytes(packet) + tail =~= varint(3) + fields);
    lemma_read_varint_of_varint(3, 4, fields);
    lemma_read_varint_of_varint(resource_wire_id as nat, 8, after_first);
    lemma_read_byte_string_of_byte_string(contents, tail);
}

/// Reading a packet gives back the packet that was written, whatever follows
/// it in the buffer.
pub proof fn law_packet_round_trip(packet: PacketView, tail: Seq<u8>)
    requires
        packet_payload(packet).len() <= usize::MAX,
    ensures
        read_packet(packet_bytes(packet) + tail) == Ok::<PacketView, WireError>(packet),
{
    match packet {
        PacketView::SpawnEntity { network_id, prefab_wire_id } => {
            lemma_spawn_round_trip(network_id, prefab_wire_id, tail);
        },
        PacketView::DespawnEntity { network_id } => {
            lemma_despawn_round_trip(network_id, tail);
        },
        PacketView::UpdateComponent { network_id, component_wire_id, sequence, bytes } => {
            lemma_component_round_trip(network_id, component_wire_id, sequence, bytes, tail);
        },
        PacketView::UpdateResource { resource_wire_id, bytes } => {
            lemma_resource_round_trip(resource_wire_id, bytes, tail);
        },
    }
}

/// Reading a message gives back the message that was written, whatever
/// follows it in the buffer.
pub proof fn law_message_round_trip(message: MessageView, tail: Seq<u8>)
    requires
        message.bytes.len() <= usize::MAX,
    ensures
        read_message(message_bytes(message) + tail) == Ok::<MessageView, WireError>(message),
{
    let after_first = byte_string(message.bytes) + tail;
    assert(message_bytes(message) + tail =~= varint(message.wire_id as nat) + after_first);
    lemma_read_varint_of_varint(message.wire_id as nat, 8, after_first);
    lemma_read_byte_string_of_byte_string(message.bytes, tail);
}

/// Different packets have different bytes, and neither form is the beginning
/// of the other.
pub proof fn law_packet_bytes_prefix_free(left: PacketView, right: PacketView, tail: Seq<u8>)
    requires
        packet_payload(left).len() <= usize::MAX,
        packet_payload(right).len() <= usize::MAX,
        packet_bytes(left) + tail == packet_bytes(right),
    ensures
        left == right,
{
    law_packet_round_trip(left, tail);
    law_packet_round_trip(right, Seq::empty());
    assert(packet_bytes(right) + Seq::<u8>::empty() =~= packet_bytes(right));
}

/// Integers take one, three, five or nine bytes: small ones stand for
/// themselves, larger ones follow a marker, least significant byte first.
pub proof fn law_integers_are_as_short_as_they_can_be(value: u64)
    ensures
        value < 251 ==> varint(value as nat) == seq![value as u8],
        251 <= value < 0x1_0000 ==> varint(value as nat) == seq![
            251u8,
            (value % 256) as u8,
            (value / 256) as u8,
        ],
        0x1_0000 <= value < 0x1_0000_0000 ==> varint(value as nat) == seq![
            252u8,
            (value % 256) as u8,
            (value / 256 % 256) as u8,
            (value / 256 / 256 % 256) as u8,
            (value / 256 / 256 / 256) as u8,
        ],
        0x1_0000_0000 <= value ==> varint(value as nat) == seq![
            253u8,
            (value % 256) as u8,
            (value / 256 % 256) as u8,
            (value / 256 / 256 % 256) as u8,
            (value / 256 / 256 / 256 % 256) as u8,
            (value / 256 / 256 / 256 / 256 % 256) as u8,
            (value / 256 / 256 / 256 / 256 / 256 % 256) as u8,
            (value / 256 / 256 / 256 / 256 / 256 / 256 % 256) as u8,
            (value / 256 / 256 / 256 / 256 / 256 / 256 / 256) as u8,
        ],
{
    reveal_with_fuel(little_endian, 9);
    if value < 251 {
    } else if value < 0x1_0000 {
        assert(varint(value as nat) =~= seq![
            251u8,
            (value % 256) as u8,
            (value / 256) as u8,
        ]);
    } else if value < 0x1_0000_0000 {
        assert(varint(value as nat) =~= seq![
            252u8,
            (value % 256) as u8,
            (value / 256 % 256) as u8,
            (value / 256 / 256 % 256) as u8,
            (value / 256 / 256 / 256) as u8,
        ]);
    } else {
        assert(varint(value as nat) =~= seq![
            253u8,
            (value % 256) as u8,
            (value / 256 % 256) as u8,
            (value / 256 / 256 % 256) as u8,
            (value / 256 / 256 / 256 % 256) as u8,
            (value / 256 / 256 / 256 / 256 % 256) as u8,
            (value / 256 / 256 / 256 / 256 / 256 % 256) as u8,
            (value / 256 / 256 / 256 / 256 / 256 / 256 % 256) as u8,
            (value / 256 / 256 / 256 / 256 / 256 / 256 / 256) as u8,
        ]);
    }
}

/// A packet is its variant's index and its fields in the order of their
/// declaration; a byte string is its length and its contents.
pub proof fn law_packets_are_laid_out_in_order(
    first: u64,
    second: u64,
    third: u64,
    contents: Seq<u8>,
)
    ensures
        packet_bytes(
            PacketView::SpawnEntity { network_id: first, prefab_wire_id: second },
        ) == varint(0) + varint(first as nat) + varint(second as nat),
        packet_bytes(PacketView::DespawnEntity { network_id: first }) == varint(1) + varint(
            first as nat,
        ),
        packet_bytes(
            PacketView::UpdateComponent {
                network_id: first,
                component_wire_id: second,
                sequence: third,
                bytes: contents,
            },
        ) == varint(2) + varint(first as nat) + varint(second as nat) + varint(third as nat) + (
        varint(contents.len()) + contents),
        packet_bytes(
            PacketView::UpdateResource { resource_wire_id: first, bytes: contents },
        ) == varint(3) + varint(first as nat) + (varint(contents.len()) + contents),
        message_bytes(MessageView { wire_id: first, bytes: contents }) == varint(first as nat) + (
        varint(contents.len()) + contents),
{
}

/// Bytes that start with an unknown variant index are refused for it, and bytes
/// that start with no index at all are malformed.
pub proof fn law_unknown_variants_are_refused(bytes: Seq<u8>)
    ensures
        match read_varint(bytes, 4) {
            Some((variant, _)) => variant >= 4 ==> read_packet(bytes) == Err::<
                PacketView,
                WireError,
            >(WireError::UnknownVariant(variant as u32)),
            None => read_packet(bytes) == Err::<PacketView, WireError>(WireError::BadField),
        },
{
}

/// A spawn packet is two integers after its variant's index, and malformed
/// exactly where one of them is.
pub proof fn law_spawn_packets_are_read_field_by_field(bytes: Seq<u8>, index: nat)
    requires
        read_varint(bytes, 4) == Some((0nat, index)),
    ensures
        ({
            let fields = bytes.skip(index as int);
            match read_varint(fields, 8) {
                Some((id, used)) => match read_varint(fields.skip(used as int), 8) {
                    Some((prefab, _)) => read_packet(bytes) == Ok::<PacketView, WireError>(
                        PacketView::SpawnEntity {
                            network_id: id as u64,
                            prefab_wire_id: prefab as u64,
                        },
                    ),
                    None => read_packet(bytes) == Err::<PacketView, WireError>(
                        WireError::BadField,
                    ),
                },
                None => read_packet(bytes) == Err::<PacketView, WireError>(WireError::BadField),
            }
        }),
{
}

/// A despawn packet is one integer after its variant's index, and malformed
/// exactly where that is.
pub proof fn law_despawn_packets_are_read_field_by_field(bytes: Seq<u8>, index: nat)
    requires
        read_varint(bytes, 4) == Some((1nat, index)),
    ensures
        match read_varint(bytes.skip(index as int), 8) {
            Some((id, _)) => read_packet(bytes) == Ok::<PacketView, WireError>(
                PacketView::DespawnEntity { network_id: id as u64 },
            ),
            None => read_packet(bytes) == Err::<PacketView, WireError>(WireError::BadField),
        },
{
}

/// A component packet is three integers and a byte string after its variant's
/// index, and malformed exactly where one of them is.
pub proof fn law_component_packets_are_read_field_by_field(bytes: Seq<u8>, index: nat)
    requires
        read_varint(bytes, 4) == Some((2nat, index)),
    ensures
        ({
            let bad = Err::<PacketView, WireError>(WireError::BadField);
            let fields = bytes.skip(index as int);
            match read_varint(fields, 8) {
                Some((id, used)) => match read_varint(fields.skip(used as int), 8) {
                    Some((component, more)) => {
                        let rest = fields.skip((used + more) as int);
                        match read_varint(rest, 8) {
                            Some((number, most)) => match read_byte_string(rest.skip(most as int)) {
                                Some((contents, _)) => read_packet(bytes) == Ok::<
                                    PacketView,
                                    WireError,
                                >(
                                    PacketView::UpdateComponent {
                                        network_id: id as u64,
                                        component_wire_id: component as u64,
                                        sequence: number as u64,
                                        bytes: contents,
                                    },
                                ),
                                None => read_packet(bytes) == bad,
                            },
                            None => read_packet(bytes) == bad,
                        }
                    },
                    None => read_packet(bytes) == bad,
                },
                None => read_packet(bytes) == bad,
            }
        }),
{
}

/// A resource packet is an integer and a byte string after its variant's index,
/// and malformed exactly where one of them is.
pub proof fn law_resource_packets_are_read_field_by_field(bytes: Seq<u8>, index: nat)
    requires
        read_varint(bytes, 4) == Some((3nat, index)),
    ensures
        ({
            let bad = Err::<PacketView, WireError>(WireError::BadField);
            let fields = bytes.skip(index as int);
            match read_varint(fields, 8) {
                Some((id, used)) => match read_byte_string(fields.skip(used as int)) {
                    Some((contents, _)) => read_packet(bytes) == Ok::<PacketView, WireError>(
                        PacketView::UpdateResource { resource_wire_id: id as u64, bytes: contents },
                    ),
                    None => read_packet(bytes) == bad,
                },
                None => read_packet(bytes) == bad,
            }
        }),
{
}

/// A message is an integer and a byte string, and malformed exactly where one
/// of them is.
pub proof fn law_messages_are_read_field_by_field(bytes: Seq<u8>)
    ensures
        ({
            let bad = Err::<MessageView, WireError>(WireError::BadField);
            match read_varint(bytes, 8) {
                Some((id, used)) => match read_byte_string(bytes.skip(used as int)) {
                    Some((contents, _)) => read_message(bytes) == Ok::<MessageView, WireError>(
                        MessageView { wire_id: id as u64, bytes: contents },
                    ),
                    None => read_message(bytes) == bad,
                },
                None => read_message(bytes) == bad,
            }
        }),
{
}

/// An integer is read from its first byte, or from the two, four or eight bytes
/// behind a marker; anything else is malformed.
pub proof fn law_integers_are_read_by_their_first_byte(first: u8, rest: Seq<u8>, width: nat)
    ensures
        ({
            let bytes = seq![first] + rest;
            let read = read_varint(bytes, width);
            &&& read_varint(Seq::<u8>::empty(), width) is None
            &&& first < 251 ==> read == Some((first as nat, 1nat))
            &&& first == 251 ==> read == if rest.len() < 2 {
                None
            } else {
                Some(((rest[0] + 256 * rest[1]) as nat, 3nat))
            }
            &&& first == 252 ==> read == if rest.len() < 4 {
                None
            } else {
                Some((
                    (rest[0] + 256 * (rest[1] + 256 * (rest[2] + 256 * rest[3]))) as nat,
                    5nat,
                ))
            }
            &&& first == 253 ==> read == if rest.len() < 8 || width < 8 {
                None
            } else {
                Some((
                    (rest[0] + 256 * (rest[1] + 256 * (rest[2] + 256 * (rest[3] + 256 * (rest[4]
                        + 256 * (rest[5] + 256 * (rest[6] + 256 * rest[7]))))))) as nat,
                    9nat,
                ))
            }
            &&& first > 253 ==> read is None
        }),
{
    reveal_with_fuel(from_little_endian, 9);
    let bytes = seq![first] + rest;
    if first == 251 && rest.len() >= 2 {
        let digits = bytes.subrange(1, 3);
        assert(digits =~= seq![rest[0], rest[1]]);
        assert(digits.drop_first() =~= seq![rest[1]]);
        assert(digits.drop_first().drop_first() =~= Seq::<u8>::empty());
    } else if first == 252 && rest.len() >= 4 {
        let digits = bytes.subrange(1, 5);
        assert(digits =~= seq![rest[0], rest[1], rest[2], rest[3]]);
        assert(digits.drop_first() =~= seq![rest[1], rest[2], rest[3]]);
        assert(digits.drop_first().drop_first() =~= seq![rest[2], rest[3]]);
        assert(digits.drop_first().drop_first().drop_first() =~= seq![rest[3]]);
    } else if first == 253 && rest.len() >= 8 {
        lemma_eight_digits(bytes.subrange(1, 9));
        assert(forall|i: int| 0 <= i < 8 ==> bytes.subrange(1, 9)[i] == rest[i]);
    }
}

/// The number with eight digits.
proof fn lemma_eight_digits(digits: Seq<u8>)
    requires
        digits.len() == 8,
    ensures
        from_little_endian(digits) == digits[0] + 256 * (digits[1] + 256 * (digits[2] + 256 * (
        digits[3] + 256 * (digits[4] + 256 * (digits[5] + 256 * (digits[6] + 256 * digits[7])))))),
{
    reveal_with_fuel(from_little_endian, 2);
    let a = digits.drop_first();
    let b = a.drop_first();
    let c = b.drop_first();
    let d = c.drop_first();
    let e = d.drop_first();
    let f = e.drop_first();
    let g = f.drop_first();
    assert(from_little_endian(g) == digits[7]);
    assert(from_little_endian(f) == digits[6] + 256 * from_little_endian(g));
    assert(from_little_endian(e) == digits[5] + 256 * from_little_endian(f));
    assert(from_little_endian(d) == digits[4] + 256 * from_little_endian(e));
    assert(from_little_endian(c) == digits[3] + 256 * from_little_endian(d));
    assert(from_little_endian(b) == digits[2] + 256 * from_little_endian(c));
    assert(from_little_endian(a) == digits[1] + 256 * from_little_endian(b));
}

/// A byte string is read as its length says, and malformed exactly where the
/// length is or not all of its contents are there.
pub proof fn law_byte_strings_are_read_by_their_length(bytes: Seq<u8>)
    ensures
        match read_varint(bytes, 8) {
            Some((length, used)) => length <= usize::MAX ==> read_byte_string(bytes) == if used
                + length <= bytes.len() {
                Some((bytes.subrange(used as int, (used + length) as int), used + length))
            } else {
                None
            },
            None => read_byte_string(bytes) is None,
        },
{
}

} // verus!
