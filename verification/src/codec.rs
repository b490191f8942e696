//! The wire codec for action messages.
//!
//! A message is a tag byte followed by its fields, all integers little-endian:
//! a string is an eight-byte byte-count followed by its UTF-8 bytes; a signed
//! quantity is its two's-complement image in eight bytes; a snapshot is an
//! eight-byte entry count followed by the entries, each an identifier string
//! and three signed quantities (both position axes and the rotation).
//!
//! Decoding accepts exactly the images of well-formed messages: anything
//! malformed — short input, an unknown tag, invalid UTF-8, an out-of-range
//! player state, a duplicated identifier, trailing bytes — decodes to nothing,
//! and the transport layer drops it silently.

use vstd::prelude::*;
use vstd::bytes::{
    lemma_auto_spec_u64_to_from_le_bytes, spec_u64_from_le_bytes, spec_u64_to_le_bytes,
    u64_from_le_bytes, u64_to_le_bytes,
};
use vstd::slice::{slice_subrange, slice_to_vec};
use vstd::utf8::{decode_utf8, encode_utf8, encode_utf8_decode_utf8, encode_utf8_valid_utf8, valid_utf8};
use crate::world::{keys_unique, player_wf, Game, GameMessage, MessageView, Player};

verus! {

pub const TAG_SYNCHRONIZE: u8 = 0;

pub const TAG_ROTATE: u8 = 1;

pub const TAG_MOVE_FORWARD: u8 = 2;

pub const TAG_MOVE_BACKWARD: u8 = 3;

pub const TAG_RANDOM_MOVE: u8 = 4;

pub const TAG_PLAYER_ADDED: u8 = 5;

pub const TAG_PLAYER_REMOVED: u8 = 6;

/// A message view the codec round-trips: snapshot entries carry distinct keys
/// and well-formed player states. (Every value built from exec data satisfies
/// the length bounds; they matter only for abstract sequences.)
pub open spec fn view_wf(v: MessageView) -> bool {
    match v {
        MessageView::Synchronize { world } => {
            &&& keys_unique(world)
            &&& world.len() < 0x1_0000_0000_0000_0000
            &&& forall|i: int|
                0 <= i < world.len() ==> player_wf((#[trigger] world[i]).1) && encode_utf8(
                    world[i].0,
                ).len() < 0x1_0000_0000_0000_0000
        },
        MessageView::Rotate { player_id, .. } => encode_utf8(player_id).len()
            < 0x1_0000_0000_0000_0000,
        MessageView::MoveForward { player_id, .. } => encode_utf8(player_id).len()
            < 0x1_0000_0000_0000_0000,
        MessageView::MoveBackward { player_id, .. } => encode_utf8(player_id).len()
            < 0x1_0000_0000_0000_0000,
        MessageView::RandomMove { player_id } => encode_utf8(player_id).len()
            < 0x1_0000_0000_0000_0000,
        MessageView::PlayerAdded { player_id } => encode_utf8(player_id).len()
            < 0x1_0000_0000_0000_0000,
        MessageView::PlayerRemoved { player_id } => encode_utf8(player_id).len()
            < 0x1_0000_0000_0000_0000,
    }
}

/// Eight little-endian bytes.
pub open spec fn enc_u64(v: u64) -> Seq<u8> {
    spec_u64_to_le_bytes(v)
}

/// A signed quantity as the little-endian bytes of its two's-complement
/// image.
pub open spec fn enc_i64(v: i64) -> Seq<u8> {
    enc_u64(v as u64)
}

/// A byte count followed by the UTF-8 bytes.
pub open spec fn enc_str(s: Seq<char>) -> Seq<u8> {
    enc_u64(encode_utf8(s).len() as u64) + encode_utf8(s)
}

/// One snapshot entry: the identifier, then both position axes, then the
/// rotation.
pub open spec fn enc_player(e: (Seq<char>, Player)) -> Seq<u8> {
    enc_str(e.0) + enc_i64(e.1.position.0) + enc_i64(e.1.position.1) + enc_i64(e.1.rotation)
}

/// Snapshot entries in wire order.
pub open spec fn enc_players(s: Seq<(Seq<char>, Player)>) -> Seq<u8>
    decreases s.len(),
{
    if s.len() == 0 {
        Seq::empty()
    } else {
        enc_player(s.first()) + enc_players(s.drop_first())
    }
}

/// The full image of a message: its tag byte, then its fields.
pub open spec fn spec_encode(v: MessageView) -> Seq<u8> {
    match v {
        MessageView::Synchronize { world } => seq![TAG_SYNCHRONIZE] + enc_u64(world.len() as u64)
            + enc_players(world),
        MessageView::Rotate { player_id, angle } => seq![TAG_ROTATE] + enc_str(player_id)
            + enc_i64(angle),
        MessageView::MoveForward { player_id, distance } => seq![TAG_MOVE_FORWARD] + enc_str(
            player_id,
        ) + enc_i64(distance),
        MessageView::MoveBackward { player_id, distance } => seq![TAG_MOVE_BACKWARD] + enc_str(
            player_id,
        ) + enc_i64(distance),
        MessageView::RandomMove { player_id } => seq![TAG_RANDOM_MOVE] + enc_str(player_id),
        MessageView::PlayerAdded { player_id } => seq![TAG_PLAYER_ADDED] + enc_str(player_id),
        MessageView::PlayerRemoved { player_id } => seq![TAG_PLAYER_REMOVED] + enc_str(player_id),
    }
}

/// Eight bytes read at `i`, if present.
pub open spec fn dec_u64(b: Seq<u8>, i: int) -> Option<(u64, int)> {
    if 0 <= i && i + 8 <= b.len() {
        Some((spec_u64_from_le_bytes(b.subrange(i, i + 8)), i + 8))
    } else {
        None
    }
}

/// A signed quantity read at `i`, if present.
pub open spec fn dec_i64(b: Seq<u8>, i: int) -> Option<(i64, int)> {
    match dec_u64(b, i) {
        Some((u, j)) => Some((u as i64, j)),
        None => None,
    }
}

/// A counted UTF-8 string read at `i`: nothing unless the count and its bytes
/// are present and the bytes are valid UTF-8.
pub open spec fn dec_str(b: Seq<u8>, i: int) -> Option<(Seq<char>, int)> {
    match dec_u64(b, i) {
        Some((n, j)) => if j + n <= b.len() && valid_utf8(b.subrange(j, j + n)) {
            Some((decode_utf8(b.subrange(j, j + n)), j + n))
        } else {
            None
        },
        None => None,
    }
}

/// One snapshot entry read at `i`: nothing unless its fields are present and
/// the player state is well formed.
pub open spec fn dec_player(b: Seq<u8>, i: int) -> Option<((Seq<char>, Player), int)> {
    match dec_str(b, i) {
        Some((id, j)) => match dec_i64(b, j) {
            Some((x, j2)) => match dec_i64(b, j2) {
                Some((y, j3)) => match dec_i64(b, j3) {
                    Some((rot, j4)) => {
                        let p = Player { position: (x, y), rotation: rot };
                        if player_wf(p) {
                            Some(((id, p), j4))
                        } else {
                            None
                        }
                    },
                    None => None,
                },
                None => None,
            },
            None => None,
        },
        None => None,
    }
}

/// `count` snapshot entries read at `i`.
pub open spec fn dec_players(b: Seq<u8>, i: int, count: nat) -> Option<
    (Seq<(Seq<char>, Player)>, int),
>
    decreases count,
{
    if count == 0 {
        Some((Seq::empty(), i))
    } else {
        match dec_player(b, i) {
            Some((e, j)) => match dec_players(b, j, (count - 1) as nat) {
                Some((s, k)) => Some((seq![e] + s, k)),
                None => None,
            },
            None => None,
        }
    }
}

/// The message a byte string decodes to, if any: the tag selects the variant,
/// every field must be present and in range, a snapshot's keys must be
/// distinct, and the input must be consumed exactly.
pub open spec fn spec_decode(b: Seq<u8>) -> Option<MessageView> {
    if b.len() < 1 {
        None
    } else {
        let tag = b[0];
        if tag == TAG_SYNCHRONIZE {
            match dec_u64(b, 1) {
                Some((n, j)) => match dec_players(b, j, n as nat) {
                    Some((s, k)) => if k == b.len() && keys_unique(s) {
                        Some(MessageView::Synchronize { world: s })
                    } else {
                        None
                    },
                    None => None,
                },
                None => None,
            }
        } else if tag == TAG_ROTATE || tag == TAG_MOVE_FORWARD || tag == TAG_MOVE_BACKWARD {
            match dec_str(b, 1) {
                Some((id, j)) => match dec_i64(b, j) {
                    Some((q, k)) => if k == b.len() {
                        if tag == TAG_ROTATE {
                            Some(MessageView::Rotate { player_id: id, angle: q })
                        } else if tag == TAG_MOVE_FORWARD {
                            Some(MessageView::MoveForward { player_id: id, distance: q })
                        } else {
                            Some(MessageView::MoveBackward { player_id: id, distance: q })
                        }
                    } else {
                        None
                    },
                    None => None,
                },
                None => None,
            }
        } else if tag == TAG_RANDOM_MOVE || tag == TAG_PLAYER_ADDED || tag == TAG_PLAYER_REMOVED {
            match dec_str(b, 1) {
                Some((id, j)) => if j == b.len() {
                    if tag == TAG_RANDOM_MOVE {
                        Some(MessageView::RandomMove { player_id: id })
                    } else if tag == TAG_PLAYER_ADDED {
                        Some(MessageView::PlayerAdded { player_id: id })
                    } else {
                        Some(MessageView::PlayerRemoved { player_id: id })
                    }
                } else {
                    None
                },
                None => None,
            }
        } else {
            None
        }
    }
}

/// Appending one entry to a snapshot appends its image to the wire bytes.
proof fn lemma_enc_players_push(s: Seq<(Seq<char>, Player)>, e: (Seq<char>, Player))
    ensures
        enc_players(s.push(e)) == enc_players(s) + enc_player(e),
    decreases s.len(),
{
    if s.len() == 0 {
        assert(s.push(e).drop_first() =~= Seq::<(Seq<char>, Player)>::empty());
        assert(s.push(e).first() == e);
        assert(enc_players(s.push(e).drop_first()) =~= Seq::<u8>::empty());
        assert(enc_players(s) =~= Seq::<u8>::empty());
        assert(enc_players(s.push(e)) =~= enc_players(s) + enc_player(e));
    } else {
        lemma_enc_players_push(s.drop_first(), e);
        assert(s.push(e).drop_first() =~= s.drop_first().push(e));
        assert(s.push(e).first() == s.first());
        assert(enc_players(s.push(e)) == enc_player(s.first()) + enc_players(
            s.drop_first().push(e),
        ));
        assert(enc_players(s) == enc_player(s.first()) + enc_players(s.drop_first()));
        assert(enc_players(s.push(e)) =~= enc_players(s) + enc_player(e));
    }
}

fn put_u64(out: &mut Vec<u8>, v: u64)
    ensures
        final(out)@ == old(out)@ + enc_u64(v),
{
    let mut b = u64_to_le_bytes(v);
    out.append(&mut b);
}

fn put_i64(out: &mut Vec<u8>, v: i64)
    ensures
        final(out)@ == old(out)@ + enc_i64(v),
{
    put_u64(out, v as u64);
}

fn put_str(out: &mut Vec<u8>, s: &String)
    ensures
        final(out)@ == old(out)@ + enc_str(s@),
{
    let ghost pre = out@;
    let bytes: &[u8] = s.as_str().as_bytes();
    put_u64(out, bytes.len() as u64);
    out.extend_from_slice(bytes);
    proof {
        assert(out@ =~= pre + enc_str(s@));
    }
}

/// Encodes a message into its wire image.
pub fn encode(message: &GameMessage) -> (r: Vec<u8>)
    ensures
        r@ == spec_encode(message@),
{
    let mut out: Vec<u8> = Vec::new();
    match message {
        GameMessage::Synchronize { world } => {
            out.push(TAG_SYNCHRONIZE);
            let n = world.players.len();
            put_u64(&mut out, n as u64);
            proof {
                assert(out@ =~= seq![TAG_SYNCHRONIZE] + enc_u64(n as u64) + enc_players(
                    world.entries().take(0),
                ));
            }
            let mut i: usize = 0;
            while i < n
                invariant
                    n == world.players@.len(),
                    i <= n,
                    out@ == seq![TAG_SYNCHRONIZE] + enc_u64(n as u64) + enc_players(
                        world.entries().take(i as int),
                    ),
                decreases n - i,
            {
                let ghost pre = out@;
                let e = &world.players[i];
                put_str(&mut out, &e.0);
                put_i64(&mut out, e.1.position.0);
                put_i64(&mut out, e.1.position.1);
                put_i64(&mut out, e.1.rotation);
                proof {
                    let ent = world.entries();
                    assert(ent[i as int] == (e.0@, e.1));
                    lemma_enc_players_push(ent.take(i as int), ent[i as int]);
                    assert(ent.take(i as int).push(ent[i as int]) =~= ent.take(i as int + 1));
                    assert(out@ =~= pre + enc_player(ent[i as int]));
                    assert(out@ =~= seq![TAG_SYNCHRONIZE] + enc_u64(n as u64) + enc_players(
                        ent.take(i as int + 1),
                    ));
                }
                i += 1;
            }
            proof {
                assert(world.entries().take(n as int) =~= world.entries());
            }
        },
        GameMessage::Rotate { player_id, angle } => {
            out.push(TAG_ROTATE);
            put_str(&mut out, player_id);
            put_i64(&mut out, *angle);
            proof {
                assert(out@ =~= seq![TAG_ROTATE] + enc_str(player_id@) + enc_i64(*angle));
            }
        },
        GameMessage::MoveForward { player_id, distance } => {
            out.push(TAG_MOVE_FORWARD);
            put_str(&mut out, player_id);
            put_i64(&mut out, *distance);
            proof {
                assert(out@ =~= seq![TAG_MOVE_FORWARD] + enc_str(player_id@) + enc_i64(*distance));
            }
        },
        GameMessage::MoveBackward { player_id, distance } => {
            out.push(TAG_MOVE_BACKWARD);
            put_str(&mut out, player_id);
            put_i64(&mut out, *distance);
            proof {
                assert(out@ =~= seq![TAG_MOVE_BACKWARD] + enc_str(player_id@) + enc_i64(
                    *distance,
                ));
            }
        },
        GameMessage::RandomMove { player_id } => {
            out.push(TAG_RANDOM_MOVE);
            put_str(&mut out, player_id);
            proof {
                assert(out@ =~= seq![TAG_RANDOM_MOVE] + enc_str(player_id@));
            }
        },
        GameMessage::PlayerAdded { player_id } => {
            out.push(TAG_PLAYER_ADDED);
            put_str(&mut out, player_id);
            proof {
                assert(out@ =~= seq![TAG_PLAYER_ADDED] + enc_str(player_id@));
            }
        },
        GameMessage::PlayerRemoved { player_id } => {
            out.push(TAG_PLAYER_REMOVED);
            put_str(&mut out, player_id);
            proof {
                assert(out@ =~= seq![TAG_PLAYER_REMOVED] + enc_str(player_id@));
            }
        },
    }
    out
}

/// Relies on `String::from_utf8`: it succeeds exactly on valid UTF-8 input
/// and yields the string those bytes spell.
#[verifier::external_body]
fn vec_into_string(v: Vec<u8>) -> (r: Option<String>)
    ensures
        valid_utf8(v@) ==> r is Some && r.unwrap()@ == decode_utf8(v@),
        !valid_utf8(v@) ==> r is None,
{
    String::from_utf8(v).ok()
}

fn take_u64(b: &[u8], i: usize) -> (r: Option<(u64, usize)>)
    ensures
        match r {
            Some((v, j)) => dec_u64(b@, i as int) == Some((v, j as int)) && i < j <= b@.len(),
            None => dec_u64(b@, i as int) is None,
        },
{
    if b.len() >= 8 && i <= b.len() - 8 {
        let s = slice_subrange(b, i, i + 8);
        let v = u64_from_le_bytes(s);
        Some((v, i + 8))
    } else {
        None
    }
}

fn take_i64(b: &[u8], i: usize) -> (r: Option<(i64, usize)>)
    ensures
        match r {
            Some((v, j)) => dec_i64(b@, i as int) == Some((v, j as int)) && i < j <= b@.len(),
            None => dec_i64(b@, i as int) is None,
        },
{
    match take_u64(b, i) {
        Some((v, j)) => Some((v as i64, j)),
        None => None,
    }
}

fn take_str(b: &[u8], i: usize) -> (r: Option<(String, usize)>)
    ensures
        match r {
            Some((s, j)) => dec_str(b@, i as int) == Some((s@, j as int)) && i < j <= b@.len(),
            None => dec_str(b@, i as int) is None,
        },
{
    match take_u64(b, i) {
        None => None,
        Some((n, j)) => {
            if n <= (b.len() - j) as u64 {
                let m = n as usize;
                let sub = slice_subrange(b, j, j + m);
                let v = slice_to_vec(sub);
                match vec_into_string(v) {
                    Some(s) => Some((s, j + m)),
                    None => None,
                }
            } else {
                None
            }
        },
    }
}

fn take_player(b: &[u8], i: usize) -> (r: Option<((String, Player), usize)>)
    ensures
        match r {
            Some(((s, p), j)) => dec_player(b@, i as int) == Some(((s@, p), j as int)) && i < j
                <= b@.len() && player_wf(p),
            None => dec_player(b@, i as int) is None,
        },
{
    match take_str(b, i) {
        None => None,
        Some((id, j)) => match take_i64(b, j) {
            None => None,
            Some((x, j2)) => match take_i64(b, j2) {
                None => None,
                Some((y, j3)) => match take_i64(b, j3) {
                    None => None,
                    Some((rot, j4)) => {
                        let p = Player { position: (x, y), rotation: rot };
                        if 0 <= x && x <= crate::POS_MAX && 0 <= y && y <= crate::POS_MAX
                            && -crate::world::ROT_LIMIT <= rot && rot <= crate::world::ROT_LIMIT {
                            Some(((id, p), j4))
                        } else {
                            None
                        }
                    },
                },
            },
        },
    }
}

fn vec_contains_key(v: &Vec<(String, Player)>, id: &String) -> (r: bool)
    ensures
        r <==> exists|j: int| 0 <= j < v@.len() && (#[trigger] v@[j]).0@ == id@,
{
    let n = v.len();
    let mut i: usize = 0;
    while i < n
        invariant
            n == v@.len(),
            i <= n,
            forall|j: int| 0 <= j < i ==> (#[trigger] v@[j]).0@ != id@,
        decreases n - i,
    {
        if v[i].0 == *id {
            return true;
        }
        i += 1;
    }
    false
}

/// Decodes a wire image back into a message; anything malformed decodes to
/// nothing.
pub fn decode(bytes: &[u8]) -> (r: Option<GameMessage>)
    ensures
        match r {
            Some(m) => spec_decode(bytes@) == Some(m@) && m.wf(),
            None => spec_decode(bytes@) is None,
        },
{
    if bytes.len() < 1 {
        return None;
    }
    let tag = bytes[0];
    if tag == TAG_SYNCHRONIZE {
        match take_u64(bytes, 1) {
            None => None,
            Some((n, start)) => {
                let mut out: Vec<(String, Player)> = Vec::new();
                let mut cur = start;
                let mut k: u64 = 0;
                proof {
                    assert(crate::world::entries_of(out@) =~= Seq::<(Seq<char>, Player)>::empty());
                }
                while k < n
                    invariant
                        k <= n,
                        cur <= bytes@.len(),
                        bytes@.len() >= 1,
                        bytes@[0] == TAG_SYNCHRONIZE,
                        dec_u64(bytes@, 1) == Some((n, start as int)),
                        out@.len() == k,
                        keys_unique(crate::world::entries_of(out@)),
                        forall|j: int|
                            0 <= j < out@.len() ==> player_wf(
                                (#[trigger] crate::world::entries_of(out@)[j]).1,
                            ),
                        match dec_players(bytes@, cur as int, (n - k) as nat) {
                            Some((s2, e)) => dec_players(bytes@, start as int, n as nat) == Some(
                                (crate::world::entries_of(out@) + s2, e),
                            ),
                            None => dec_players(bytes@, start as int, n as nat) is None,
                        },
                    decreases n - k,
                {
                    match take_player(bytes, cur) {
                        None => {
                            return None;
                        },
                        Some((e, j2)) => {
                            let ghost pre = crate::world::entries_of(out@);
                            let ghost ev = (e.0@, e.1);
                            let ghost cur0 = cur as int;
                            if vec_contains_key(&out, &e.0) {
                                proof {
                                    let w = choose|j: int|
                                        0 <= j < out@.len() && (#[trigger] out@[j]).0@ == e.0@;
                                    assert(pre[w].0 == ev.0);
                                    assert(exists|idx: int|
                                        0 <= idx < pre.len() && (#[trigger] pre[idx]).0 == ev.0);
                                    lemma_duplicate_key_rejected(
                                        bytes@,
                                        start as int,
                                        cur0,
                                        n,
                                        k,
                                        pre,
                                        ev,
                                        j2 as int,
                                    );
                                }
                                return None;
                            }
                            out.push(e);
                            cur = j2;
                            k = k + 1;
                            proof {
                                assert(crate::world::entries_of(out@) =~= pre.push(ev));
                                assert forall|i2: int, j3: int|
                                    0 <= i2 < j3 < crate::world::entries_of(out@).len() implies (
                                #[trigger] crate::world::entries_of(out@)[i2]).0 != (
                                #[trigger] crate::world::entries_of(out@)[j3]).0 by {
                                    if j3 < pre.len() {
                                        assert(pre[i2].0 != pre[j3].0);
                                    }
                                }
                                lemma_dec_players_prefix_step(
                                    bytes@,
                                    start as int,
                                    n as nat,
                                    (n - k + 1) as nat,
                                    pre,
                                    ev,
                                    cur0,
                                    cur as int,
                                );
                            }
                        },
                    }
                }
                if cur != bytes.len() {
                    return None;
                }
                let g = Game { players: out };
                proof {
                    assert(dec_players(bytes@, cur as int, 0) == Some(
                        (Seq::<(Seq<char>, Player)>::empty(), cur as int),
                    ));
                    assert(g.entries() + Seq::<(Seq<char>, Player)>::empty() =~= g.entries());
                }
                Some(GameMessage::Synchronize { world: g })
            },
        }
    } else if tag == TAG_ROTATE || tag == TAG_MOVE_FORWARD || tag == TAG_MOVE_BACKWARD {
        match take_str(bytes, 1) {
            None => None,
            Some((id, j)) => match take_i64(bytes, j) {
                None => None,
                Some((q, k)) => {
                    if k != bytes.len() {
                        return None;
                    }
                    if tag == TAG_ROTATE {
                        Some(GameMessage::Rotate { player_id: id, angle: q })
                    } else if tag == TAG_MOVE_FORWARD {
                        Some(GameMessage::MoveForward { player_id: id, distance: q })
                    } else {
                        Some(GameMessage::MoveBackward { player_id: id, distance: q })
                    }
                },
            },
        }
    } else if tag == TAG_RANDOM_MOVE || tag == TAG_PLAYER_ADDED || tag == TAG_PLAYER_REMOVED {
        match take_str(bytes, 1) {
            None => None,
            Some((id, j)) => {
                if j != bytes.len() {
                    return None;
                }
                if tag == TAG_RANDOM_MOVE {
                    Some(GameMessage::RandomMove { player_id: id })
                } else if tag == TAG_PLAYER_ADDED {
                    Some(GameMessage::PlayerAdded { player_id: id })
                } else {
                    Some(GameMessage::PlayerRemoved { player_id: id })
                }
            },
        }
    } else {
        None
    }
}

/// A subrange equality read pointwise: each byte of `b` under the window is
/// the corresponding byte of `w`.
proof fn lemma_subrange_points(b: Seq<u8>, i: int, w: Seq<u8>)
    requires
        0 <= i,
        i + w.len() <= b.len(),
        b.subrange(i, i + w.len() as int) == w,
    ensures
        forall|t: int| i <= t < i + w.len() ==> b[t] == w[t - i],
{
    assert forall|t: int| i <= t < i + w.len() implies b[t] == w[t - i] by {
        assert(b.subrange(i, i + w.len() as int)[t - i] == w[t - i]);
    }
}

proof fn lemma_dec_u64_at(b: Seq<u8>, i: int, v: u64)
    requires
        0 <= i,
        i + 8 <= b.len(),
        b.subrange(i, i + 8) == enc_u64(v),
    ensures
        dec_u64(b, i) == Some((v, i + 8)),
{
    lemma_auto_spec_u64_to_from_le_bytes();
}

proof fn lemma_dec_i64_at(b: Seq<u8>, i: int, v: i64)
    requires
        0 <= i,
        i + 8 <= b.len(),
        b.subrange(i, i + 8) == enc_i64(v),
    ensures
        dec_i64(b, i) == Some((v, i + 8)),
{
    lemma_dec_u64_at(b, i, v as u64);
    assert(((v as u64) as i64) == v) by (bit_vector);
}

proof fn lemma_dec_str_at(b: Seq<u8>, i: int, s: Seq<char>)
    requires
        0 <= i,
        encode_utf8(s).len() < 0x1_0000_0000_0000_0000,
        i + 8 + encode_utf8(s).len() <= b.len(),
        b.subrange(i, i + 8 + encode_utf8(s).len()) == enc_str(s),
    ensures
        dec_str(b, i) == Some((s, i + 8 + encode_utf8(s).len())),
{
    lemma_auto_spec_u64_to_from_le_bytes();
    let u = encode_utf8(s);
    let n = u.len() as int;
    lemma_subrange_points(b, i, enc_str(s));
    assert(b.subrange(i, i + 8) =~= enc_u64(u.len() as u64));
    lemma_dec_u64_at(b, i, u.len() as u64);
    assert(b.subrange(i + 8, i + 8 + n) =~= u);
    encode_utf8_valid_utf8(s);
    encode_utf8_decode_utf8(s);
}

proof fn lemma_dec_player_at(b: Seq<u8>, i: int, e: (Seq<char>, Player))
    requires
        0 <= i,
        encode_utf8(e.0).len() < 0x1_0000_0000_0000_0000,
        player_wf(e.1),
        i + enc_player(e).len() <= b.len(),
        b.subrange(i, i + enc_player(e).len()) == enc_player(e),
    ensures
        enc_player(e).len() == 32 + encode_utf8(e.0).len(),
        dec_player(b, i) == Some((e, i + enc_player(e).len())),
{
    lemma_auto_spec_u64_to_from_le_bytes();
    let ls = 8 + encode_utf8(e.0).len() as int;
    assert(enc_str(e.0).len() == ls);
    assert(enc_player(e).len() == ls + 24);
    lemma_subrange_points(b, i, enc_player(e));
    assert(b.subrange(i, i + ls) =~= enc_str(e.0));
    lemma_dec_str_at(b, i, e.0);
    assert(b.subrange(i + ls, i + ls + 8) =~= enc_i64(e.1.position.0));
    lemma_dec_i64_at(b, i + ls, e.1.position.0);
    assert(b.subrange(i + ls + 8, i + ls + 16) =~= enc_i64(e.1.position.1));
    lemma_dec_i64_at(b, i + ls + 8, e.1.position.1);
    assert(b.subrange(i + ls + 16, i + ls + 24) =~= enc_i64(e.1.rotation));
    lemma_dec_i64_at(b, i + ls + 16, e.1.rotation);
}

proof fn lemma_dec_players_at(b: Seq<u8>, i: int, s: Seq<(Seq<char>, Player)>)
    requires
        0 <= i,
        forall|j: int|
            0 <= j < s.len() ==> player_wf((#[trigger] s[j]).1) && encode_utf8(s[j].0).len()
                < 0x1_0000_0000_0000_0000,
        i + enc_players(s).len() <= b.len(),
        b.subrange(i, i + enc_players(s).len()) == enc_players(s),
    ensures
        dec_players(b, i, s.len()) == Some((s, i + enc_players(s).len())),
    decreases s.len(),
{
    if s.len() == 0 {
        assert(dec_players(b, i, 0) == Some((Seq::<(Seq<char>, Player)>::empty(), i)));
        assert(s =~= Seq::<(Seq<char>, Player)>::empty());
    } else {
        let e = s.first();
        let rest = s.drop_first();
        let l1 = enc_player(e).len() as int;
        let l2 = enc_players(rest).len() as int;
        assert(enc_players(s) == enc_player(e) + enc_players(rest));
        lemma_subrange_points(b, i, enc_players(s));
        assert(b.subrange(i, i + l1) =~= enc_player(e));
        lemma_dec_player_at(b, i, e);
        assert(b.subrange(i + l1, i + l1 + l2) =~= enc_players(rest));
        lemma_dec_players_at(b, i + l1, rest);
        assert(seq![e] + rest =~= s);
    }
}

/// Law: encoding any well-formed message and decoding the image yields
/// exactly the original message.
pub proof fn lemma_encode_decode(v: MessageView)
    requires
        view_wf(v),
    ensures
        spec_decode(spec_encode(v)) == Some(v),
{
    lemma_auto_spec_u64_to_from_le_bytes();
    let b = spec_encode(v);
    match v {
        MessageView::Synchronize { world } => {
            assert(b[0] == TAG_SYNCHRONIZE);
            let lp = enc_players(world).len() as int;
            assert(b.subrange(1, 9) =~= enc_u64(world.len() as u64));
            lemma_dec_u64_at(b, 1, world.len() as u64);
            assert(b.subrange(9, 9 + lp) =~= enc_players(world));
            lemma_dec_players_at(b, 9, world);
            assert((world.len() as u64) as nat == world.len());
        },
        MessageView::Rotate { player_id, angle } => {
            assert(b[0] == TAG_ROTATE);
            let ls = 8 + encode_utf8(player_id).len() as int;
            assert(b.subrange(1, 1 + ls) =~= enc_str(player_id));
            lemma_dec_str_at(b, 1, player_id);
            assert(b.subrange(1 + ls, 1 + ls + 8) =~= enc_i64(angle));
            lemma_dec_i64_at(b, 1 + ls, angle);
        },
        MessageView::MoveForward { player_id, distance } => {
            assert(b[0] == TAG_MOVE_FORWARD);
            let ls = 8 + encode_utf8(player_id).len() as int;
            assert(b.subrange(1, 1 + ls) =~= enc_str(player_id));
            lemma_dec_str_at(b, 1, player_id);
            assert(b.subrange(1 + ls, 1 + ls + 8) =~= enc_i64(distance));
            lemma_dec_i64_at(b, 1 + ls, distance);
        },
        MessageView::MoveBackward { player_id, distance } => {
            assert(b[0] == TAG_MOVE_BACKWARD);
            let ls = 8 + encode_utf8(player_id).len() as int;
            assert(b.subrange(1, 1 + ls) =~= enc_str(player_id));
            lemma_dec_str_at(b, 1, player_id);
            assert(b.subrange(1 + ls, 1 + ls + 8) =~= enc_i64(distance));
            lemma_dec_i64_at(b, 1 + ls, distance);
        },
        MessageView::RandomMove { player_id } => {
            assert(b[0] == TAG_RANDOM_MOVE);
            let ls = 8 + encode_utf8(player_id).len() as int;
            assert(b.subrange(1, 1 + ls) =~= enc_str(player_id));
            lemma_dec_str_at(b, 1, player_id);
        },
        MessageView::PlayerAdded { player_id } => {
            assert(b[0] == TAG_PLAYER_ADDED);
            let ls = 8 + encode_utf8(player_id).len() as int;
            assert(b.subrange(1, 1 + ls) =~= enc_str(player_id));
            lemma_dec_str_at(b, 1, player_id);
        },
        MessageView::PlayerRemoved { player_id } => {
            assert(b[0] == TAG_PLAYER_REMOVED);
            let ls = 8 + encode_utf8(player_id).len() as int;
            assert(b.subrange(1, 1 + ls) =~= enc_str(player_id));
            lemma_dec_str_at(b, 1, player_id);
        },
    }
}

/// A snapshot image whose remaining entries begin with an identifier already
/// parsed decodes to nothing: either the rest fails to parse, or the full
/// entry list carries a duplicated key and is rejected.
proof fn lemma_duplicate_key_rejected(
    b: Seq<u8>,
    start: int,
    cur: int,
    n: u64,
    k: u64,
    pre: Seq<(Seq<char>, Player)>,
    ev: (Seq<char>, Player),
    j2: int,
)
    requires
        b.len() >= 1,
        b[0] == TAG_SYNCHRONIZE,
        dec_u64(b, 1) == Some((n, start)),
        k < n,
        pre.len() == k,
        dec_player(b, cur) == Some((ev, j2)),
        match dec_players(b, cur, (n - k) as nat) {
            Some((s2, e)) => dec_players(b, start, n as nat) == Some((pre + s2, e)),
            None => dec_players(b, start, n as nat) is None,
        },
        exists|idx: int| 0 <= idx < pre.len() && (#[trigger] pre[idx]).0 == ev.0,
    ensures
        spec_decode(b) is None,
{
    let rem = (n - k) as nat;
    match dec_players(b, cur, rem) {
        None => {
        },
        Some((s2, e)) => {
            match dec_players(b, j2, (rem - 1) as nat) {
                None => {
                    assert(dec_players(b, cur, rem) is None);
                },
                Some((s3, e3)) => {
                    assert(dec_players(b, cur, rem) == Some((seq![ev] + s3, e3)));
                    let full = pre + (seq![ev] + s3);
                    let idx = choose|idx: int|
                        0 <= idx < pre.len() && (#[trigger] pre[idx]).0 == ev.0;
                    assert(full[idx].0 == ev.0);
                    assert(full[pre.len() as int].0 == ev.0);
                    assert(!keys_unique(full));
                },
            }
        },
    }
}

/// One successful entry parse extends the accumulated prefix of a snapshot
/// parse.
proof fn lemma_dec_players_prefix_step(
    b: Seq<u8>,
    start: int,
    n: nat,
    remaining: nat,
    pre: Seq<(Seq<char>, Player)>,
    ev: (Seq<char>, Player),
    cur: int,
    cur_after: int,
)
    requires
        remaining >= 1,
        dec_player(b, cur) == Some((ev, cur_after)),
        match dec_players(b, cur, remaining) {
            Some((s2, e)) => dec_players(b, start, n) == Some((pre + s2, e)),
            None => dec_players(b, start, n) is None,
        },
    ensures
        match dec_players(b, cur_after, (remaining - 1) as nat) {
            Some((s2, e)) => dec_players(b, start, n) == Some((pre.push(ev) + s2, e)),
            None => dec_players(b, start, n) is None,
        },
{
    match dec_players(b, cur_after, (remaining - 1) as nat) {
        Some((s2, e)) => {
            assert(dec_players(b, cur, remaining) == Some((seq![ev] + s2, e)));
            assert(pre + (seq![ev] + s2) =~= pre.push(ev) + s2);
        },
        None => {
            assert(dec_players(b, cur, remaining) is None);
        },
    }
}

} // verus!
