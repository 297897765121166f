use bevy_networker_multiplayer::crate_name;

#[test]
fn returns_crate_name() {
    assert_eq!(crate_name(), "bevy-networker-multiplayer");
}
