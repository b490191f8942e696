use statesync::codec::{decode, encode};
use statesync::world::{Game, GameMessage, Player};

fn round_trip(m: GameMessage) {
    let bytes = encode(&m);
    let back = decode(&bytes).expect("a fresh encoding must decode");
    assert_eq!(back, m);
}

#[test]
fn round_trip_synchronize() {
    let world = Game {
        players: vec![
            ("A".to_string(), Player { position: (0, 10_000), rotation: 1571 }),
            ("B".to_string(), Player { position: (499_999, 3), rotation: -42 }),
        ],
    };
    round_trip(GameMessage::Synchronize { world });
}

#[test]
fn round_trip_synchronize_empty_world() {
    round_trip(GameMessage::Synchronize { world: Game::default() });
}

#[test]
fn round_trip_rotate() {
    round_trip(GameMessage::Rotate { player_id: "player one".to_string(), angle: -300 });
}

#[test]
fn round_trip_move_forward() {
    round_trip(GameMessage::MoveForward { player_id: "p".to_string(), distance: 30_000 });
}

#[test]
fn round_trip_move_backward() {
    round_trip(GameMessage::MoveBackward { player_id: "p".to_string(), distance: 0 });
}

#[test]
fn round_trip_random_move() {
    round_trip(GameMessage::RandomMove { player_id: "r".to_string() });
}

#[test]
fn round_trip_player_added() {
    round_trip(GameMessage::PlayerAdded { player_id: String::new() });
}

#[test]
fn round_trip_player_removed() {
    round_trip(GameMessage::PlayerRemoved { player_id: "gone".to_string() });
}

#[test]
fn round_trip_non_ascii_identifier() {
    round_trip(GameMessage::PlayerAdded { player_id: "spieler-ü-Δ".to_string() });
}

#[test]
fn decode_rejects_empty_input() {
    assert!(decode(&[]).is_none());
}

#[test]
fn decode_rejects_unknown_tag() {
    let mut bytes = encode(&GameMessage::PlayerAdded { player_id: "A".to_string() });
    bytes[0] = 7;
    assert!(decode(&bytes).is_none());
}

#[test]
fn decode_rejects_truncated_input() {
    let bytes = encode(&GameMessage::Rotate { player_id: "A".to_string(), angle: 5 });
    assert!(decode(&bytes[..bytes.len() - 1]).is_none());
}

#[test]
fn decode_rejects_trailing_bytes() {
    let mut bytes = encode(&GameMessage::PlayerRemoved { player_id: "A".to_string() });
    bytes.push(0);
    assert!(decode(&bytes).is_none());
}

#[test]
fn decode_rejects_invalid_utf8_identifier() {
    // Tag 5 (player added), a one-byte identifier that is not valid UTF-8.
    let mut bytes: Vec<u8> = vec![5];
    bytes.extend_from_slice(&1u64.to_le_bytes());
    bytes.push(0xff);
    assert!(decode(&bytes).is_none());
}

#[test]
fn decode_rejects_out_of_range_position() {
    // A snapshot of one player standing beyond the playfield.
    let mut bytes: Vec<u8> = vec![0];
    bytes.extend_from_slice(&1u64.to_le_bytes());
    bytes.extend_from_slice(&1u64.to_le_bytes());
    bytes.push(b'A');
    bytes.extend_from_slice(&(600_000i64).to_le_bytes());
    bytes.extend_from_slice(&0i64.to_le_bytes());
    bytes.extend_from_slice(&0i64.to_le_bytes());
    assert!(decode(&bytes).is_none());
}

#[test]
fn decode_rejects_duplicate_identifiers() {
    // A snapshot naming the same player twice.
    let mut bytes: Vec<u8> = vec![0];
    bytes.extend_from_slice(&2u64.to_le_bytes());
    for _ in 0..2 {
        bytes.extend_from_slice(&1u64.to_le_bytes());
        bytes.push(b'A');
        bytes.extend_from_slice(&1i64.to_le_bytes());
        bytes.extend_from_slice(&2i64.to_le_bytes());
        bytes.extend_from_slice(&3i64.to_le_bytes());
    }
    assert!(decode(&bytes).is_none());
}

#[test]
fn decoded_identifier_is_rebuilt_from_bytes() {
    let bytes = encode(&GameMessage::PlayerAdded { player_id: "héllo".to_string() });
    match decode(&bytes) {
        Some(GameMessage::PlayerAdded { player_id }) => assert_eq!(player_id, "héllo"),
        other => panic!("unexpected decode result: {other:?}"),
    }
}
