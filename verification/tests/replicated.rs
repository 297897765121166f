use bevy_networker_multiplayer::replicated::{Entity, EntityIndex, NetworkId, NextNetworkId};

#[test]
fn index_finds_both_ways() {
    let mut index = EntityIndex::default();
    assert!(index.entity(NetworkId(1)).is_none());
    index.insert(NetworkId(1), Entity(10));
    assert_eq!(index.entity(NetworkId(1)), Some(Entity(10)));
    assert_eq!(index.network_id(Entity(10)), Some(NetworkId(1)));
    assert!(index.network_id(Entity(11)).is_none());
}

#[test]
fn index_removal_undoes_insertion() {
    let mut index = EntityIndex::default();
    index.insert(NetworkId(1), Entity(10));
    index.insert(NetworkId(2), Entity(20));
    assert_eq!(index.remove_entity(Entity(20)), Some(NetworkId(2)));
    assert!(index.entity(NetworkId(2)).is_none());
    assert!(index.network_id(Entity(20)).is_none());
    assert_eq!(index.entity(NetworkId(1)), Some(Entity(10)));
    assert_eq!(index.remove_entity(Entity(20)), None);
}

#[test]
fn index_keeps_the_last_mapping() {
    let mut index = EntityIndex::default();
    index.insert(NetworkId(1), Entity(10));
    index.insert(NetworkId(1), Entity(11));
    assert_eq!(index.entity(NetworkId(1)), Some(Entity(11)));
    assert_eq!(index.network_id(Entity(10)), Some(NetworkId(1)));
}

#[test]
fn ids_count_up_and_stop_at_the_top() {
    let mut next = NextNetworkId::default();
    assert_eq!(next.take(), NetworkId(0));
    assert_eq!(next.take(), NetworkId(1));
    let mut last = NextNetworkId(u64::MAX - 1);
    assert_eq!(last.take(), NetworkId(u64::MAX - 1));
    assert_eq!(last.take(), NetworkId(u64::MAX));
    assert_eq!(last.take(), NetworkId(u64::MAX));
}
