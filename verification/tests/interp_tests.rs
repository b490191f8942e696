use statesync::interp::{ratio_at, Snapshots};
use statesync::world::{Game, Player};

fn prev_world() -> Game {
    Game {
        players: vec![
            ("A".to_string(), Player { position: (0, 0), rotation: 0 }),
            ("only-prev".to_string(), Player { position: (111, 222), rotation: 333 }),
        ],
    }
}

fn cur_world() -> Game {
    Game {
        players: vec![
            ("A".to_string(), Player { position: (10_000, 20_000), rotation: 500 }),
            ("only-cur".to_string(), Player { position: (9, 9), rotation: 9 }),
        ],
    }
}

#[test]
fn ratio_zero_returns_previous_values() {
    let blended = prev_world().interpolated(&cur_world(), 0);
    assert_eq!(
        blended.lookup(&"A".to_string()).unwrap(),
        Player { position: (0, 0), rotation: 0 }
    );
}

#[test]
fn ratio_one_returns_current_values_for_shared_keys() {
    let blended = prev_world().interpolated(&cur_world(), 1000);
    assert_eq!(
        blended.lookup(&"A".to_string()).unwrap(),
        Player { position: (10_000, 20_000), rotation: 500 }
    );
}

#[test]
fn midpoint_blend_is_exact() {
    let blended = prev_world().interpolated(&cur_world(), 500);
    assert_eq!(
        blended.lookup(&"A".to_string()).unwrap(),
        Player { position: (5_000, 10_000), rotation: 250 }
    );
}

#[test]
fn key_only_in_previous_lingers_at_every_ratio() {
    let lingering = Player { position: (111, 222), rotation: 333 };
    for ratio in [0, 1, 250, 500, 999, 1000] {
        let blended = prev_world().interpolated(&cur_world(), ratio);
        assert_eq!(blended.lookup(&"only-prev".to_string()).unwrap(), lingering);
    }
}

#[test]
fn key_only_in_current_is_absent_from_the_blend() {
    let blended = prev_world().interpolated(&cur_world(), 500);
    assert!(blended.lookup(&"only-cur".to_string()).is_none());
}

#[test]
fn ratio_is_linear_and_clamped() {
    assert_eq!(ratio_at(100, 10, 90), 0);
    assert_eq!(ratio_at(100, 10, 100), 0);
    assert_eq!(ratio_at(100, 10, 105), 500);
    assert_eq!(ratio_at(100, 10, 110), 1000);
    assert_eq!(ratio_at(100, 10, 200), 1000);
}

#[test]
fn receive_shifts_current_into_previous() {
    let mut s = Snapshots::new(0);
    let g1 = prev_world();
    let g2 = cur_world();
    s.receive(g1.duplicate(), 5);
    assert_eq!(s.previous, Game::default());
    assert_eq!(s.current, g1);
    assert_eq!(s.transition_start_ms, 5);
    s.receive(g2.duplicate(), 12);
    assert_eq!(s.previous, g1);
    assert_eq!(s.current, g2);
    assert_eq!(s.transition_start_ms, 12);
}

#[test]
fn blended_at_runs_from_previous_to_current() {
    let mut s = Snapshots::new(0);
    s.receive(prev_world(), 0);
    s.receive(cur_world(), 100);
    let at_start = s.blended_at(100, 10);
    assert_eq!(
        at_start.lookup(&"A".to_string()).unwrap(),
        Player { position: (0, 0), rotation: 0 }
    );
    let at_end = s.blended_at(110, 10);
    assert_eq!(
        at_end.lookup(&"A".to_string()).unwrap(),
        Player { position: (10_000, 20_000), rotation: 500 }
    );
}
