//! The participant agent's action generator.
//!
//! A participant is a synthetic load generator: on a fixed cadence it draws
//! one random action for its own player — a small turn, or a bounded step
//! forwards or backwards — applies it to its local world optimistically and
//! transmits it to the authority. Nothing can be promised of which action
//! comes out, so the contract states what holds of every outcome: the action
//! names the given player and its magnitude lies in the documented range.

use vstd::prelude::*;
use crate::world::GameMessage;

verus! {

/// Largest magnitude of a random turn, in milliradians (0.3 radians).
pub const RANDOM_ANGLE_MAX: i64 = 300;

/// Largest random step, in milli-units (30 world units).
pub const RANDOM_DISTANCE_MAX: i64 = 30_000;

/// Relies on `rand::random`: a fresh value from the thread-local generator;
/// nothing can be promised of it.
pub assume_specification<T>[ rand::random::<T> ]() -> (r: T)
    where rand::distributions::Standard: rand::distributions::Distribution<T>,
;

/// A random value below `n`.
fn random_below(n: u64) -> (r: u64)
    requires
        n > 0,
    ensures
        r < n,
{
    let x: u64 = rand::random();
    x % n
}

/// One random action for the player `id`: a turn with an angle uniform in
/// `[-RANDOM_ANGLE_MAX, RANDOM_ANGLE_MAX]` milliradians, or a step forwards
/// or backwards with a distance uniform in `[0, RANDOM_DISTANCE_MAX]`
/// milli-units, the three kinds equally likely.
pub fn random_player_action(id: String) -> (r: Option<GameMessage>)
    ensures
        r is Some,
        match r {
            Some(m) => {
                &&& m.wf()
                &&& match m {
                    GameMessage::Rotate { player_id, angle } => player_id@ == id@
                        && -RANDOM_ANGLE_MAX <= angle <= RANDOM_ANGLE_MAX,
                    GameMessage::MoveForward { player_id, distance } => player_id@ == id@ && 0
                        <= distance <= RANDOM_DISTANCE_MAX,
                    GameMessage::MoveBackward { player_id, distance } => player_id@ == id@ && 0
                        <= distance <= RANDOM_DISTANCE_MAX,
                    _ => false,
                }
            },
            None => false,
        },
{
    let choice = random_below(3);
    if choice == 0 {
        let raw = random_below(601);
        Some(GameMessage::Rotate { player_id: id, angle: (raw as i64) - RANDOM_ANGLE_MAX })
    } else if choice == 1 {
        let raw = random_below(30_001);
        Some(GameMessage::MoveForward { player_id: id, distance: raw as i64 })
    } else {
        let raw = random_below(30_001);
        Some(GameMessage::MoveBackward { player_id: id, distance: raw as i64 })
    }
}

} // verus!
