use statesync::world::{Game, GameMessage, Player, ROT_LIMIT};
use statesync::POS_MAX;

fn add_player(g: &mut Game, id: &str) {
    g.action(GameMessage::PlayerAdded { player_id: id.to_string() });
}

#[test]
fn added_player_starts_at_origin() {
    let mut g = Game::default();
    add_player(&mut g, "A");
    let p = g.lookup(&"A".to_string()).unwrap();
    assert_eq!(p, Player { position: (0, 0), rotation: 0 });
}

#[test]
fn quarter_turn_then_forward_moves_up() {
    // Starting from (0, 0) heading 0, a quarter turn (1571 mrad) then a
    // 10-unit step lands exactly on (0, 10) in milli-units.
    let mut g = Game::default();
    add_player(&mut g, "A");
    g.action(GameMessage::Rotate { player_id: "A".to_string(), angle: 1571 });
    g.action(GameMessage::MoveForward { player_id: "A".to_string(), distance: 10_000 });
    let p = g.lookup(&"A".to_string()).unwrap();
    assert_eq!(p.position, (0, 10_000));
    assert_eq!(p.rotation, 1571);
}

#[test]
fn backward_step_clamps_at_lower_bound() {
    let mut g = Game::default();
    add_player(&mut g, "A");
    g.action(GameMessage::Rotate { player_id: "A".to_string(), angle: 1571 });
    g.action(GameMessage::MoveForward { player_id: "A".to_string(), distance: 10_000 });
    g.action(GameMessage::MoveBackward { player_id: "A".to_string(), distance: 20_000 });
    let p = g.lookup(&"A".to_string()).unwrap();
    assert_eq!(p.position, (0, 0));
}

#[test]
fn forward_step_clamps_at_upper_bound() {
    let mut g = Game::default();
    add_player(&mut g, "A");
    g.action(GameMessage::MoveForward { player_id: "A".to_string(), distance: 600_000 });
    let p = g.lookup(&"A".to_string()).unwrap();
    assert_eq!(p.position.0, POS_MAX);
    assert_eq!(p.position.1, 0);
}

#[test]
fn positions_stay_in_bounds_under_action_sequences() {
    let mut g = Game::default();
    add_player(&mut g, "A");
    let id = "A".to_string();
    let steps: Vec<GameMessage> = vec![
        GameMessage::Rotate { player_id: id.clone(), angle: -3000 },
        GameMessage::MoveForward { player_id: id.clone(), distance: 400_000 },
        GameMessage::Rotate { player_id: id.clone(), angle: 4500 },
        GameMessage::MoveBackward { player_id: id.clone(), distance: 900_000 },
        GameMessage::MoveForward { player_id: id.clone(), distance: 123_456 },
        GameMessage::Rotate { player_id: id.clone(), angle: 1571 },
        GameMessage::MoveBackward { player_id: id.clone(), distance: 77_777 },
    ];
    for m in steps {
        g.action(m);
        let p = g.lookup(&id).unwrap();
        assert!(0 <= p.position.0 && p.position.0 <= POS_MAX);
        assert!(0 <= p.position.1 && p.position.1 <= POS_MAX);
    }
}

#[test]
fn add_then_remove_leaves_player_absent() {
    let mut g = Game::default();
    let before = g.duplicate();
    add_player(&mut g, "A");
    g.action(GameMessage::PlayerRemoved { player_id: "A".to_string() });
    assert!(g.lookup(&"A".to_string()).is_none());
    assert_eq!(g, before);
}

#[test]
fn re_adding_resets_state() {
    let mut g = Game::default();
    add_player(&mut g, "A");
    g.action(GameMessage::MoveForward { player_id: "A".to_string(), distance: 5_000 });
    add_player(&mut g, "A");
    let p = g.lookup(&"A".to_string()).unwrap();
    assert_eq!(p, Player { position: (0, 0), rotation: 0 });
}

#[test]
fn synchronize_replaces_any_prior_state() {
    let mut g = Game::default();
    add_player(&mut g, "A");
    add_player(&mut g, "B");
    let snapshot = Game {
        players: vec![("C".to_string(), Player { position: (7_000, 8_000), rotation: 42 })],
    };
    g.action(GameMessage::Synchronize { world: snapshot.duplicate() });
    assert_eq!(g, snapshot);
    assert!(g.lookup(&"A".to_string()).is_none());
    assert_eq!(
        g.lookup(&"C".to_string()).unwrap(),
        Player { position: (7_000, 8_000), rotation: 42 }
    );
}

#[test]
fn ghost_actions_leave_state_unchanged() {
    let mut g = Game::default();
    add_player(&mut g, "A");
    g.action(GameMessage::MoveForward { player_id: "A".to_string(), distance: 5_000 });
    let before = g.duplicate();
    let ghost = "ghost".to_string();
    g.action(GameMessage::Rotate { player_id: ghost.clone(), angle: 100 });
    assert_eq!(g, before);
    g.action(GameMessage::MoveForward { player_id: ghost.clone(), distance: 100 });
    assert_eq!(g, before);
    g.action(GameMessage::MoveBackward { player_id: ghost.clone(), distance: 100 });
    assert_eq!(g, before);
    g.action(GameMessage::RandomMove { player_id: ghost.clone() });
    assert_eq!(g, before);
    g.action(GameMessage::PlayerRemoved { player_id: ghost.clone() });
    assert_eq!(g, before);
}

#[test]
fn random_move_is_a_no_op_on_known_players() {
    let mut g = Game::default();
    add_player(&mut g, "A");
    g.action(GameMessage::MoveForward { player_id: "A".to_string(), distance: 5_000 });
    let before = g.duplicate();
    g.action(GameMessage::RandomMove { player_id: "A".to_string() });
    assert_eq!(g, before);
}

#[test]
fn rotation_accumulates_and_saturates() {
    let mut g = Game::default();
    add_player(&mut g, "A");
    g.action(GameMessage::Rotate { player_id: "A".to_string(), angle: 200 });
    g.action(GameMessage::Rotate { player_id: "A".to_string(), angle: -50 });
    assert_eq!(g.lookup(&"A".to_string()).unwrap().rotation, 150);
    g.action(GameMessage::Rotate { player_id: "A".to_string(), angle: i64::MAX });
    assert_eq!(g.lookup(&"A".to_string()).unwrap().rotation, ROT_LIMIT);
}
