use bevy_networker_multiplayer::bytes::{bytes_equal, text_equal};
use bevy_networker_multiplayer::netmsg::hash_type_path;
use bevy_networker_multiplayer::netres::{RawNetMessage, ReplicationPacket};
use bevy_networker_multiplayer::wire::{
    decode_message, decode_packet, encode_message, encode_packet, WireError,
};

fn same_packet(left: &ReplicationPacket, right: &ReplicationPacket) -> bool {
    format!("{left:?}") == format!("{right:?}")
}

fn samples() -> Vec<ReplicationPacket> {
    vec![
        ReplicationPacket::SpawnEntity { network_id: 5, prefab_wire_id: 300 },
        ReplicationPacket::DespawnEntity { network_id: 250 },
        ReplicationPacket::DespawnEntity { network_id: 251 },
        ReplicationPacket::DespawnEntity { network_id: u64::MAX },
        ReplicationPacket::UpdateComponent {
            network_id: 1,
            component_wire_id: 70_000,
            sequence: 0x1_0000_0000,
            bytes: vec![9, 8, 7],
        },
        ReplicationPacket::UpdateResource { resource_wire_id: 2, bytes: Vec::new() },
        ReplicationPacket::UpdateResource { resource_wire_id: 2, bytes: vec![1; 300] },
    ]
}

#[test]
fn packets_have_the_documented_bytes() {
    let packets = samples();
    assert_eq!(encode_packet(&packets[0]), vec![0, 5, 251, 44, 1]);
    assert_eq!(encode_packet(&packets[1]), vec![1, 250]);
    assert_eq!(encode_packet(&packets[2]), vec![1, 251, 251, 0]);
    assert_eq!(
        encode_packet(&packets[3]),
        vec![1, 253, 255, 255, 255, 255, 255, 255, 255, 255]
    );
    assert_eq!(
        encode_packet(&packets[4]),
        vec![2, 1, 252, 112, 17, 1, 0, 253, 0, 0, 0, 0, 1, 0, 0, 0, 3, 9, 8, 7]
    );
    assert_eq!(encode_packet(&packets[5]), vec![3, 2, 0]);
    assert_eq!(&encode_packet(&packets[6])[..5], &[3, 2, 251, 44, 1]);
}

#[test]
fn packets_have_the_bytes_of_the_serde_form() {
    let config = bincode::config::standard();
    let spawn = bincode::serde::encode_to_vec((0u32, 5u64, 300u64), config).unwrap();
    let update = bincode::serde::encode_to_vec(
        (2u32, 1u64, 70_000u64, 0x1_0000_0000u64, vec![9u8, 8, 7]),
        config,
    )
    .unwrap();
    let packets = samples();
    assert_eq!(encode_packet(&packets[0]), spawn);
    assert_eq!(encode_packet(&packets[4]), update);
    let message = RawNetMessage { wire_id: 77, bytes: vec![4, 5] };
    let expected = bincode::serde::encode_to_vec((77u64, vec![4u8, 5]), config).unwrap();
    assert_eq!(encode_message(&message), expected);
}

#[test]
fn packets_survive_the_wire() {
    for packet in samples() {
        let mut bytes = encode_packet(&packet);
        let read = decode_packet(&bytes).expect("a whole packet should be read");
        assert!(same_packet(&read, &packet));
        bytes.extend([1, 2, 3]);
        let read = decode_packet(&bytes).expect("what follows a packet should not matter");
        assert!(same_packet(&read, &packet));
    }
}

#[test]
fn messages_survive_the_wire() {
    let message = RawNetMessage { wire_id: u64::MAX, bytes: vec![0, 255, 251] };
    let bytes = encode_message(&message);
    let read = decode_message(&bytes).expect("a whole message should be read");
    assert_eq!(read.wire_id, u64::MAX);
    assert_eq!(read.bytes, vec![0, 255, 251]);
}

#[test]
fn no_packet_is_the_beginning_of_another() {
    let packets = samples();
    for (i, left) in packets.iter().enumerate() {
        for (j, right) in packets.iter().enumerate() {
            if i != j {
                assert!(!encode_packet(right).starts_with(&encode_packet(left)));
            }
        }
    }
}

#[test]
fn truncated_packets_are_refused() {
    for packet in samples() {
        let bytes = encode_packet(&packet);
        for end in 0..bytes.len() {
            assert!(matches!(decode_packet(&bytes[..end]), Err(WireError::BadField)));
        }
    }
    assert!(matches!(decode_message(&[]), Err(WireError::BadField)));
    assert!(matches!(decode_message(&[1, 2, 3]), Err(WireError::BadField)));
}

#[test]
fn unknown_variants_are_refused() {
    assert!(matches!(decode_packet(&[4, 1]), Err(WireError::UnknownVariant(4))));
    assert!(matches!(
        decode_packet(&[252, 255, 255, 255, 255]),
        Err(WireError::UnknownVariant(u32::MAX))
    ));
}

#[test]
fn oversized_and_reserved_integers_are_refused() {
    assert!(matches!(
        decode_packet(&[253, 1, 0, 0, 0, 0, 0, 0, 0]),
        Err(WireError::BadField)
    ));
    assert!(matches!(decode_packet(&[255]), Err(WireError::BadField)));
    assert!(matches!(decode_packet(&[1, 254]), Err(WireError::BadField)));
}

#[test]
fn type_paths_hash_to_known_values() {
    assert_eq!(hash_type_path(""), 0xcbf29ce484222325);
    assert_eq!(hash_type_path("a"), 0xaf63dc4c8601ec8c);
    assert_eq!(hash_type_path("foobar"), 0x85944171f73967e8);
    assert_eq!(bevy_networker_multiplayer::sync::hash_type_path("a"), hash_type_path("a"));
}

#[test]
fn byte_strings_and_text_compare_by_content() {
    assert!(bytes_equal(&[1, 2], &[1, 2]));
    assert!(!bytes_equal(&[1, 2], &[1, 2, 3]));
    assert!(!bytes_equal(&[1, 2], &[1, 3]));
    assert!(text_equal("prefab", "prefab"));
    assert!(!text_equal("prefab", "prefabs"));
    assert!(!text_equal("é", "e"));
}

#[test]
fn one_changed_byte_changes_the_hash() {
    let path = "replication::Health";
    for place in 0..path.len() {
        let mut bytes = path.as_bytes().to_vec();
        bytes[place] = b'#';
        let changed = String::from_utf8(bytes).unwrap();
        assert_ne!(hash_type_path(&changed), hash_type_path(path));
    }
}
