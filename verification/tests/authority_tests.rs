use statesync::agent::{random_player_action, RANDOM_ANGLE_MAX, RANDOM_DISTANCE_MAX};
use statesync::authority::{apply_and_encode, handle_incoming, should_sync, snapshot_message};
use statesync::codec::{decode, encode};
use statesync::world::{Game, GameMessage, Player};

#[test]
fn incoming_datagram_is_decoded_and_applied() {
    let mut world = Game::default();
    let join = encode(&GameMessage::PlayerAdded { player_id: "A".to_string() });
    assert!(handle_incoming(&mut world, &join));
    assert_eq!(
        world.lookup(&"A".to_string()).unwrap(),
        Player { position: (0, 0), rotation: 0 }
    );
}

#[test]
fn malformed_datagram_is_dropped_silently() {
    let mut world = Game::default();
    world.action(GameMessage::PlayerAdded { player_id: "A".to_string() });
    let before = world.duplicate();
    assert!(!handle_incoming(&mut world, &[9, 9, 9]));
    assert_eq!(world, before);
}

#[test]
fn snapshot_cadence_has_a_fifty_millisecond_floor() {
    assert!(!should_sync(1000, 1000));
    assert!(!should_sync(1000, 1049));
    assert!(should_sync(1000, 1050));
    assert!(should_sync(1000, 2000));
}

#[test]
fn snapshot_message_carries_the_full_world() {
    let mut world = Game::default();
    world.action(GameMessage::PlayerAdded { player_id: "A".to_string() });
    world.action(GameMessage::MoveForward { player_id: "A".to_string(), distance: 2_000 });
    let bytes = snapshot_message(&world);
    match decode(&bytes) {
        Some(GameMessage::Synchronize { world: carried }) => assert_eq!(carried, world),
        other => panic!("unexpected decode result: {other:?}"),
    }
}

#[test]
fn participant_applies_optimistically_and_sends_the_same_action() {
    let mut world = Game::default();
    world.action(GameMessage::PlayerAdded { player_id: "A".to_string() });
    let act = GameMessage::MoveForward { player_id: "A".to_string(), distance: 4_000 };
    let bytes = apply_and_encode(&mut world, act.clone());
    assert_eq!(decode(&bytes).unwrap(), act);
    assert_eq!(
        world.lookup(&"A".to_string()).unwrap(),
        Player { position: (4_000, 0), rotation: 0 }
    );
}

#[test]
fn random_actions_name_the_player_and_stay_in_range() {
    for _ in 0..200 {
        let m = random_player_action("A".to_string()).expect("an action is always drawn");
        match m {
            GameMessage::Rotate { player_id, angle } => {
                assert_eq!(player_id, "A");
                assert!(-RANDOM_ANGLE_MAX <= angle && angle <= RANDOM_ANGLE_MAX);
            }
            GameMessage::MoveForward { player_id, distance }
            | GameMessage::MoveBackward { player_id, distance } => {
                assert_eq!(player_id, "A");
                assert!(0 <= distance && distance <= RANDOM_DISTANCE_MAX);
            }
            other => panic!("unexpected action kind: {other:?}"),
        }
    }
}

#[test]
fn random_actions_apply_cleanly_to_a_local_world() {
    let mut world = Game::default();
    world.action(GameMessage::PlayerAdded { player_id: "A".to_string() });
    for _ in 0..100 {
        let m = random_player_action("A".to_string()).unwrap();
        let _bytes = apply_and_encode(&mut world, m);
        let p = world.lookup(&"A".to_string()).unwrap();
        assert!(0 <= p.position.0 && p.position.0 <= statesync::POS_MAX);
        assert!(0 <= p.position.1 && p.position.1 <= statesync::POS_MAX);
    }
}
