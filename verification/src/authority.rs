//! The decisions of the authority loop and of the clients' ticks, separated
//! from the transport that carries the bytes.
//!
//! Every tick the authority drains the pending inbound datagrams, decodes
//! each and applies the decoded actions in receipt order — a datagram that
//! does not decode is dropped silently, with no state change. Once at least
//! `SYNC_INTERVAL_MS` have elapsed since the last broadcast, it serializes
//! the full world into a snapshot message for the designated observer.

use vstd::prelude::*;
use crate::codec::{decode, encode, spec_decode, spec_encode};
use crate::world::{spec_apply, Game, GameMessage, MessageView};

verus! {

/// The floor on the time between two snapshot broadcasts.
pub const SYNC_INTERVAL_MS: u64 = 50;

/// The designated observer: the one fixed endpoint snapshots are sent to.
pub const OBSERVER_ID: u64 = 333;

/// Applies one received datagram to the world: a payload that decodes is
/// applied and counted, anything malformed is dropped silently with the
/// world unchanged.
pub fn handle_incoming(world: &mut Game, bytes: &[u8]) -> (applied: bool)
    requires
        old(world).wf(),
    ensures
        final(world).wf(),
        match spec_decode(bytes@) {
            Some(v) => applied && final(world)@ == spec_apply(old(world)@, v),
            None => !applied && *final(world) == *old(world),
        },
{
    match decode(bytes) {
        Some(m) => {
            world.action(m);
            true
        },
        None => false,
    }
}

/// Whether a snapshot is due: at least `SYNC_INTERVAL_MS` must have passed
/// since the last broadcast.
pub fn should_sync(last_sync_ms: u64, now_ms: u64) -> (r: bool)
    requires
        last_sync_ms <= now_ms,
    ensures
        r == (now_ms - last_sync_ms >= SYNC_INTERVAL_MS),
{
    now_ms - last_sync_ms >= SYNC_INTERVAL_MS
}

/// The snapshot datagram for the observer: the full world as one
/// `Synchronize` message.
pub fn snapshot_message(world: &Game) -> (r: Vec<u8>)
    requires
        world.wf(),
    ensures
        r@ == spec_encode(MessageView::Synchronize { world: world.entries() }),
{
    let copy = world.duplicate();
    let m = GameMessage::Synchronize { world: copy };
    encode(&m)
}

/// One participant step: applies the action to the local world
/// optimistically and returns the datagram that carries it to the authority.
pub fn apply_and_encode(world: &mut Game, message: GameMessage) -> (out: Vec<u8>)
    requires
        old(world).wf(),
        message.wf(),
    ensures
        final(world).wf(),
        final(world)@ == spec_apply(old(world)@, message@),
        out@ == spec_encode(message@),
{
    let out = encode(&message);
    world.action(message);
    out
}

} // verus!
