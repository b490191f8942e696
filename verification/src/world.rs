//! The authoritative world model: a mapping from player identifiers to player
//! states, mutated by discrete action messages.
//!
//! The map is stored as a vector of key/state pairs with pairwise distinct
//! keys; its abstract value is the finite map [`map_of`] over the entries.
//! All positions are in milli-units within `[0, POS_MAX]`; rotations are in
//! milliradians and accumulate up to `ROT_LIMIT` in magnitude, where they
//! saturate (only the heading, a periodic function of the rotation, is ever
//! read back).

use vstd::prelude::*;
use vstd::arithmetic::div_mod::{
    lemma_div_is_ordered, lemma_div_multiples_vanish, lemma_div_pos_is_pos,
};
use crate::trig::{cos_mr, sin_mr, spec_cos_mr, spec_sin_mr};
use crate::POS_MAX;
use crate::SCALE;

verus! {

/// Largest magnitude of accumulated rotation, in milliradians; rotations
/// saturate here so that every angle stays well inside the range the
/// trigonometric functions accept.
pub const ROT_LIMIT: i64 = 1_000_000_000_000;

/// The state of one player: a position on the bounded playfield and an
/// accumulated rotation (the heading).
#[derive(Clone, Copy, Debug)]
pub struct Player {
    /// Both axes in milli-units, each within `[0, POS_MAX]`.
    pub position: (i64, i64),
    /// Accumulated rotation in milliradians, within `[-ROT_LIMIT, ROT_LIMIT]`.
    pub rotation: i64,
}

impl PartialEq for Player {
    fn eq(&self, o: &Player) -> (r: bool) {
        self.position.0 == o.position.0 && self.position.1 == o.position.1 && self.rotation
            == o.rotation
    }
}

impl vstd::std_specs::cmp::PartialEqSpecImpl for Player {
    open spec fn obeys_eq_spec() -> bool {
        true
    }

    open spec fn eq_spec(&self, o: &Player) -> bool {
        *self == *o
    }
}

/// Position components on the playfield and rotation within its saturation
/// bound.
pub open spec fn player_wf(p: Player) -> bool {
    &&& 0 <= p.position.0 <= POS_MAX
    &&& 0 <= p.position.1 <= POS_MAX
    &&& -ROT_LIMIT <= p.rotation <= ROT_LIMIT
}

/// The state a freshly added player starts in: the origin, heading zero.
pub open spec fn spec_initial_player() -> Player {
    Player { position: (0, 0), rotation: 0 }
}

/// The abstract value of an entry list: a finite map, later entries
/// overwriting earlier ones.
pub open spec fn map_of(s: Seq<(Seq<char>, Player)>) -> Map<Seq<char>, Player>
    decreases s.len(),
{
    if s.len() == 0 {
        Map::empty()
    } else {
        map_of(s.drop_last()).insert(s.last().0, s.last().1)
    }
}

/// No two entries share a key.
pub open spec fn keys_unique(s: Seq<(Seq<char>, Player)>) -> bool {
    forall|i: int, j: int| 0 <= i < j < s.len() ==> (#[trigger] s[i]).0 != (#[trigger] s[j]).0
}

/// The authoritative world: every known player's state, keyed by the
/// caller-supplied player identifier.
#[derive(Debug, Clone)]
pub struct Game {
    pub players: Vec<(String, Player)>,
}

/// An entry list with identifiers abstracted to character sequences.
pub open spec fn entries_of(s: Seq<(String, Player)>) -> Seq<(Seq<char>, Player)> {
    s.map_values(|e: (String, Player)| (e.0@, e.1))
}

impl Game {
    /// The entry list with identifiers abstracted to character sequences.
    pub open spec fn entries(self) -> Seq<(Seq<char>, Player)> {
        entries_of(self.players@)
    }

    /// Distinct keys, and every stored player state well formed.
    pub open spec fn wf(self) -> bool {
        &&& keys_unique(self.entries())
        &&& forall|i: int|
            0 <= i < self.entries().len() ==> player_wf((#[trigger] self.entries()[i]).1)
    }
}

impl View for Game {
    type V = Map<Seq<char>, Player>;

    open spec fn view(&self) -> Map<Seq<char>, Player> {
        map_of(self.entries())
    }
}

/// A key is in the map exactly when some entry carries it.
pub proof fn lemma_map_of_contains(s: Seq<(Seq<char>, Player)>, k: Seq<char>)
    ensures
        map_of(s).contains_key(k) <==> exists|i: int| 0 <= i < s.len() && (#[trigger] s[i]).0 == k,
    decreases s.len(),
{
    if s.len() > 0 {
        lemma_map_of_contains(s.drop_last(), k);
        if s.last().0 == k {
            assert(s[s.len() - 1].0 == k);
        } else {
            if exists|i: int| 0 <= i < s.len() && (#[trigger] s[i]).0 == k {
                let i = choose|i: int| 0 <= i < s.len() && (#[trigger] s[i]).0 == k;
                assert(s.drop_last()[i].0 == k);
            }
            if map_of(s).contains_key(k) {
                let i = choose|i: int|
                    0 <= i < s.drop_last().len() && (#[trigger] s.drop_last()[i]).0 == k;
                assert(s[i].0 == k);
            }
        }
    }
}

/// Dropping the last entry keeps the keys distinct.
proof fn lemma_keys_unique_drop_last(s: Seq<(Seq<char>, Player)>)
    requires
        keys_unique(s),
        s.len() > 0,
    ensures
        keys_unique(s.drop_last()),
{
    assert forall|i: int, j: int| 0 <= i < j < s.drop_last().len() implies (#[trigger] s.drop_last()[i]).0
        != (#[trigger] s.drop_last()[j]).0 by {
        assert(s[i].0 != s[j].0);
    }
}

/// With distinct keys, the map sends each entry's key to that entry's state.
pub proof fn lemma_map_of_index(s: Seq<(Seq<char>, Player)>, i: int)
    requires
        keys_unique(s),
        0 <= i < s.len(),
    ensures
        map_of(s).contains_key(s[i].0),
        map_of(s)[s[i].0] == s[i].1,
    decreases s.len(),
{
    if i == s.len() - 1 {
    } else {
        lemma_keys_unique_drop_last(s);
        lemma_map_of_index(s.drop_last(), i);
        assert(s.last().0 != s[i].0);
    }
}

/// Replacing the state in entry `i` updates the map at that entry's key.
pub proof fn lemma_map_of_update(s: Seq<(Seq<char>, Player)>, i: int, v: Player)
    requires
        keys_unique(s),
        0 <= i < s.len(),
    ensures
        map_of(s.update(i, (s[i].0, v))) =~= map_of(s).insert(s[i].0, v),
    decreases s.len(),
{
    let t = s.update(i, (s[i].0, v));
    if i == s.len() - 1 {
        assert(t.drop_last() =~= s.drop_last());
    } else {
        lemma_keys_unique_drop_last(s);
        lemma_map_of_update(s.drop_last(), i, v);
        assert(t.drop_last() =~= s.drop_last().update(i, (s[i].0, v)));
        assert(t.last() == s.last());
        assert(s.last().0 != s[i].0);
    }
}

/// Appending an entry inserts its key into the map.
pub proof fn lemma_map_of_push(s: Seq<(Seq<char>, Player)>, k: Seq<char>, v: Player)
    ensures
        map_of(s.push((k, v))) == map_of(s).insert(k, v),
{
    assert(s.push((k, v)).drop_last() =~= s);
}

/// Removing entry `i` removes that entry's key from the map.
pub proof fn lemma_map_of_remove(s: Seq<(Seq<char>, Player)>, i: int)
    requires
        keys_unique(s),
        0 <= i < s.len(),
    ensures
        map_of(s.remove(i)) =~= map_of(s).remove(s[i].0),
    decreases s.len(),
{
    let t = s.remove(i);
    if i == s.len() - 1 {
        assert(t =~= s.drop_last());
        lemma_keys_unique_drop_last(s);
        lemma_map_of_contains(s.drop_last(), s[i].0);
        assert forall|j: int| 0 <= j < s.drop_last().len() implies (#[trigger] s.drop_last()[j]).0
            != s[i].0 by {
            assert(s[j].0 != s[i].0);
        }
        assert(!map_of(s.drop_last()).contains_key(s[i].0));
        assert(map_of(s.drop_last()).insert(s[i].0, s[i].1).remove(s[i].0) =~= map_of(
            s.drop_last(),
        ));
    } else {
        lemma_keys_unique_drop_last(s);
        lemma_map_of_remove(s.drop_last(), i);
        assert(t.drop_last() =~= s.drop_last().remove(i));
        assert(t.last() == s.last());
        assert(s.last().0 != s[i].0);
    }
}

/// `x` pulled into `[lo, hi]`.
pub open spec fn clamp_i(x: int, lo: int, hi: int) -> int {
    if x < lo {
        lo
    } else if x > hi {
        hi
    } else {
        x
    }
}

/// `c * d / SCALE` rounded towards zero: the displacement along one axis for
/// a step of length `d` whose heading has scaled cosine (or sine) `c`.
pub open spec fn scaled_delta(c: int, d: int) -> int {
    let p = c * d;
    if p >= 0 {
        p / (SCALE as int)
    } else {
        -((-p) / (SCALE as int))
    }
}

/// The player turned by `angle` milliradians, the rotation saturating at
/// `ROT_LIMIT` in magnitude.
pub open spec fn spec_rotate(p: Player, angle: int) -> Player {
    Player {
        position: p.position,
        rotation: clamp_i(p.rotation + angle, -ROT_LIMIT as int, ROT_LIMIT as int) as i64,
    }
}

/// The player moved `d` milli-units along its heading (`forward`) or against
/// it, each axis clamped to the playfield.
pub open spec fn spec_move(p: Player, d: int, forward: bool) -> Player {
    let dx = scaled_delta(spec_cos_mr(p.rotation as int), d);
    let dy = scaled_delta(spec_sin_mr(p.rotation as int), d);
    let nx = if forward {
        p.position.0 + dx
    } else {
        p.position.0 - dx
    };
    let ny = if forward {
        p.position.1 + dy
    } else {
        p.position.1 - dy
    };
    Player {
        position: (
            clamp_i(nx, 0, POS_MAX as int) as i64,
            clamp_i(ny, 0, POS_MAX as int) as i64,
        ),
        rotation: p.rotation,
    }
}

fn clamp_pos(v: i128) -> (r: i64)
    ensures
        r as int == clamp_i(v as int, 0, POS_MAX as int),
{
    if v < 0 {
        0
    } else if v > POS_MAX as i128 {
        POS_MAX
    } else {
        v as i64
    }
}

proof fn lemma_scaled_product_bound(c: int, d: int)
    by (nonlinear_arith)
    requires
        -1000 <= c <= 1000,
        -0x8000_0000_0000_0000 <= d < 0x8000_0000_0000_0000,
    ensures
        -1000 * 0x8000_0000_0000_0000 <= c * d <= 1000 * 0x8000_0000_0000_0000,
{
}

/// A scaled displacement never exceeds the largest step length.
proof fn lemma_scaled_delta_bound(c: int, d: int)
    requires
        -1000 <= c <= 1000,
        -0x8000_0000_0000_0000 <= d < 0x8000_0000_0000_0000,
    ensures
        -0x8000_0000_0000_0000 <= scaled_delta(c, d) <= 0x8000_0000_0000_0000,
{
    lemma_scaled_product_bound(c, d);
    let p = c * d;
    lemma_div_multiples_vanish(0x8000_0000_0000_0000, 1000);
    if p >= 0 {
        lemma_div_is_ordered(p, 1000int * 0x8000_0000_0000_0000, 1000);
        lemma_div_pos_is_pos(p, 1000);
    } else {
        lemma_div_is_ordered(-p, 1000int * 0x8000_0000_0000_0000, 1000);
        lemma_div_pos_is_pos(-p, 1000);
    }
}

/// Exact fixed-point product `c * d / SCALE`, rounded towards zero.
fn mul_scale(c: i64, d: i64) -> (r: i128)
    requires
        -(SCALE as int) <= c <= SCALE as int,
    ensures
        r as int == scaled_delta(c as int, d as int),
        -0x8000_0000_0000_0000 <= r <= 0x8000_0000_0000_0000,
{
    proof {
        lemma_scaled_product_bound(c as int, d as int);
        lemma_scaled_delta_bound(c as int, d as int);
    }
    let p: i128 = (c as i128) * (d as i128);
    if p >= 0 {
        p / 1000
    } else {
        -((-p) / 1000)
    }
}

/// The player turned by `angle` milliradians.
pub fn rotated(p: Player, angle: i64) -> (q: Player)
    requires
        player_wf(p),
    ensures
        q == spec_rotate(p, angle as int),
        player_wf(q),
{
    let nr: i128 = (p.rotation as i128) + (angle as i128);
    let r: i64 = if nr < -(ROT_LIMIT as i128) {
        -ROT_LIMIT
    } else if nr > ROT_LIMIT as i128 {
        ROT_LIMIT
    } else {
        nr as i64
    };
    Player { position: p.position, rotation: r }
}

/// The player moved `distance` milli-units along (or against) its heading,
/// clamped to the playfield.
pub fn moved(p: Player, distance: i64, forward: bool) -> (q: Player)
    requires
        player_wf(p),
    ensures
        q == spec_move(p, distance as int, forward),
        player_wf(q),
{
    let c = cos_mr(p.rotation);
    let s = sin_mr(p.rotation);
    let dx = mul_scale(c, distance);
    let dy = mul_scale(s, distance);
    let nx: i128 = if forward {
        (p.position.0 as i128) + dx
    } else {
        (p.position.0 as i128) - dx
    };
    let ny: i128 = if forward {
        (p.position.1 as i128) + dy
    } else {
        (p.position.1 as i128) - dy
    };
    Player { position: (clamp_pos(nx), clamp_pos(ny)), rotation: p.rotation }
}

/// One wire message: either a full snapshot replace or a single mutation of
/// one player's state.
#[derive(Debug, Clone)]
pub enum GameMessage {
    Synchronize { world: Game },
    Rotate { player_id: String, angle: i64 },
    MoveForward { player_id: String, distance: i64 },
    MoveBackward { player_id: String, distance: i64 },
    RandomMove { player_id: String },
    PlayerAdded { player_id: String },
    PlayerRemoved { player_id: String },
}

impl GameMessage {
    /// A snapshot must carry a well-formed world; every other message is
    /// unconditionally acceptable.
    pub open spec fn wf(self) -> bool {
        match self {
            GameMessage::Synchronize { world } => world.wf(),
            _ => true,
        }
    }
}

/// The abstract value of a message: identifiers as character sequences and a
/// snapshot as its entry list (the order entries travel on the wire).
pub enum MessageView {
    Synchronize { world: Seq<(Seq<char>, Player)> },
    Rotate { player_id: Seq<char>, angle: i64 },
    MoveForward { player_id: Seq<char>, distance: i64 },
    MoveBackward { player_id: Seq<char>, distance: i64 },
    RandomMove { player_id: Seq<char> },
    PlayerAdded { player_id: Seq<char> },
    PlayerRemoved { player_id: Seq<char> },
}

impl View for GameMessage {
    type V = MessageView;

    open spec fn view(&self) -> MessageView {
        match *self {
            GameMessage::Synchronize { world } => MessageView::Synchronize {
                world: world.entries(),
            },
            GameMessage::Rotate { player_id, angle } => MessageView::Rotate {
                player_id: player_id@,
                angle,
            },
            GameMessage::MoveForward { player_id, distance } => MessageView::MoveForward {
                player_id: player_id@,
                distance,
            },
            GameMessage::MoveBackward { player_id, distance } => MessageView::MoveBackward {
                player_id: player_id@,
                distance,
            },
            GameMessage::RandomMove { player_id } => MessageView::RandomMove {
                player_id: player_id@,
            },
            GameMessage::PlayerAdded { player_id } => MessageView::PlayerAdded {
                player_id: player_id@,
            },
            GameMessage::PlayerRemoved { player_id } => MessageView::PlayerRemoved {
                player_id: player_id@,
            },
        }
    }
}

/// A snapshot view must carry distinct keys and well-formed player states;
/// every other message view is unconditionally acceptable.
pub open spec fn msg_view_wf(v: MessageView) -> bool {
    match v {
        MessageView::Synchronize { world } => keys_unique(world) && forall|i: int|
            0 <= i < world.len() ==> player_wf((#[trigger] world[i]).1),
        _ => true,
    }
}

/// An entry list with distinct keys and well-formed states yields a map of
/// well-formed states.
pub proof fn lemma_entries_wf_all_players(s: Seq<(Seq<char>, Player)>)
    requires
        keys_unique(s),
        forall|i: int| 0 <= i < s.len() ==> player_wf((#[trigger] s[i]).1),
    ensures
        all_players_wf(map_of(s)),
{
    assert forall|k: Seq<char>| map_of(s).contains_key(k) implies player_wf(
        #[trigger] map_of(s)[k],
    ) by {
        lemma_map_of_contains(s, k);
        let i = choose|i: int| 0 <= i < s.len() && (#[trigger] s[i]).0 == k;
        lemma_map_of_index(s, i);
    }
}

/// Every player state in the map lies on the playfield with a saturated
/// rotation.
pub open spec fn all_players_wf(m: Map<Seq<char>, Player>) -> bool {
    forall|k: Seq<char>| m.contains_key(k) ==> player_wf(#[trigger] m[k])
}

/// What one message does to the abstract world: a snapshot replaces it
/// wholesale; mutations touch exactly the named player and are dropped
/// silently when that player is unknown; `RandomMove` is a deliberate no-op.
pub open spec fn spec_apply(m: Map<Seq<char>, Player>, msg: MessageView) -> Map<
    Seq<char>,
    Player,
> {
    match msg {
        MessageView::Synchronize { world } => map_of(world),
        MessageView::Rotate { player_id, angle } => if m.contains_key(player_id) {
            m.insert(player_id, spec_rotate(m[player_id], angle as int))
        } else {
            m
        },
        MessageView::MoveForward { player_id, distance } => if m.contains_key(player_id) {
            m.insert(player_id, spec_move(m[player_id], distance as int, true))
        } else {
            m
        },
        MessageView::MoveBackward { player_id, distance } => if m.contains_key(player_id) {
            m.insert(player_id, spec_move(m[player_id], distance as int, false))
        } else {
            m
        },
        MessageView::RandomMove { player_id: _ } => m,
        MessageView::PlayerAdded { player_id } => m.insert(player_id, spec_initial_player()),
        MessageView::PlayerRemoved { player_id } => m.remove(player_id),
    }
}

fn set_entry(players: &mut Vec<(String, Player)>, i: usize, v: (String, Player))
    requires
        i < old(players)@.len(),
    ensures
        final(players)@ == old(players)@.update(i as int, v),
{
    let s = players.as_mut_slice();
    s[i] = v;
}

impl Game {
    /// An empty world with no players.
    pub fn empty() -> (g: Game)
        ensures
            g@ =~= Map::<Seq<char>, Player>::empty(),
            g.wf(),
            g.players@.len() == 0,
            g.entries() == Seq::<(Seq<char>, Player)>::empty(),
    {
        let g = Game { players: Vec::new() };
        proof {
            assert(g.entries() =~= Seq::<(Seq<char>, Player)>::empty());
        }
        g
    }

    /// The index of the entry carrying `id`, if the player is known.
    fn find_index(&self, id: &String) -> (r: Option<usize>)
        requires
            self.wf(),
        ensures
            match r {
                Some(i) => {
                    &&& (i as int) < self.entries().len()
                    &&& self.entries()[i as int].0 == id@
                    &&& self@.contains_key(id@)
                    &&& self@[id@] == self.entries()[i as int].1
                },
                None => !self@.contains_key(id@),
            },
    {
        let n = self.players.len();
        let mut i: usize = 0;
        while i < n
            invariant
                self.wf(),
                n == self.players@.len(),
                i <= n,
                forall|j: int| 0 <= j < i ==> (#[trigger] self.entries()[j]).0 != id@,
            decreases n - i,
        {
            if self.players[i].0 == *id {
                proof {
                    lemma_map_of_index(self.entries(), i as int);
                }
                return Some(i);
            }
            i += 1;
        }
        proof {
            lemma_map_of_contains(self.entries(), id@);
        }
        None
    }

    /// Applies one action message to the world.
    ///
    /// A `Synchronize` replaces the world with the carried snapshot; the
    /// player mutations touch exactly the named player and are silently
    /// ignored when that player is unknown; `RandomMove` is a deliberate
    /// no-op, a reserved variant of the protocol.
    pub fn action(&mut self, message: GameMessage)
        requires
            old(self).wf(),
            message.wf(),
        ensures
            final(self).wf(),
            final(self)@ == spec_apply(old(self)@, message@),
    {
        match message {
            GameMessage::Synchronize { world } => {
                *self = world;
            },
            GameMessage::Rotate { player_id, angle } => {
                if let Some(i) = self.find_index(&player_id) {
                    let p = self.players[i].1;
                    let q = rotated(p, angle);
                    self.replace_at(i, q);
                }
            },
            GameMessage::MoveForward { player_id, distance } => {
                if let Some(i) = self.find_index(&player_id) {
                    let p = self.players[i].1;
                    let q = moved(p, distance, true);
                    self.replace_at(i, q);
                }
            },
            GameMessage::MoveBackward { player_id, distance } => {
                if let Some(i) = self.find_index(&player_id) {
                    let p = self.players[i].1;
                    let q = moved(p, distance, false);
                    self.replace_at(i, q);
                }
            },
            GameMessage::RandomMove { player_id } => {
                // Reserved variant: decodes and encodes like the others but
                // deliberately performs no state change.
                if let Some(_i) = self.find_index(&player_id) {
                }
            },
            GameMessage::PlayerAdded { player_id } => {
                match self.find_index(&player_id) {
                    Some(i) => {
                        self.replace_at(i, Player { position: (0, 0), rotation: 0 });
                    },
                    None => {
                        let ghost pre = self.entries();
                        self.players.push((player_id, Player { position: (0, 0), rotation: 0 }));
                        proof {
                            let k = self.entries().last().0;
                            assert(self.entries() =~= pre.push(
                                (k, spec_initial_player()),
                            ));
                            lemma_map_of_push(pre, k, spec_initial_player());
                            lemma_map_of_contains(pre, k);
                            assert forall|i2: int, j2: int|
                                0 <= i2 < j2 < self.entries().len() implies (
                            #[trigger] self.entries()[i2]).0 != (#[trigger] self.entries()[j2]).0 by {
                                if j2 < self.entries().len() - 1 {
                                    assert(pre[i2].0 != pre[j2].0);
                                } else {
                                    assert(pre[i2].0 != k);
                                }
                            }
                        }
                    },
                }
            },
            GameMessage::PlayerRemoved { player_id } => {
                match self.find_index(&player_id) {
                    Some(i) => {
                        let ghost pre = self.entries();
                        let _ = self.players.remove(i);
                        proof {
                            assert(self.entries() =~= pre.remove(i as int));
                            lemma_map_of_remove(pre, i as int);
                            assert forall|i2: int, j2: int|
                                0 <= i2 < j2 < self.entries().len() implies (
                            #[trigger] self.entries()[i2]).0 != (#[trigger] self.entries()[j2]).0 by {
                                let pi = if i2 < i as int {
                                    i2
                                } else {
                                    i2 + 1
                                };
                                let pj = if j2 < i as int {
                                    j2
                                } else {
                                    j2 + 1
                                };
                                assert(pre[pi].0 != pre[pj].0);
                            }
                        }
                    },
                    None => {
                        proof {
                            assert(old(self)@.remove(player_id@) =~= old(self)@);
                        }
                    },
                }
            },
        }
    }

    /// Overwrites the player state in entry `i`, keeping its key.
    fn replace_at(&mut self, i: usize, q: Player)
        requires
            old(self).wf(),
            (i as int) < old(self).entries().len(),
            player_wf(q),
        ensures
            final(self).wf(),
            final(self)@ == old(self)@.insert(old(self).entries()[i as int].0, q),
    {
        let ghost pre = self.entries();
        let k = self.players[i].0.clone();
        set_entry(&mut self.players, i, (k, q));
        proof {
            assert(self.entries() =~= pre.update(i as int, (pre[i as int].0, q)));
            lemma_map_of_update(pre, i as int, q);
            assert forall|i2: int, j2: int|
                0 <= i2 < j2 < self.entries().len() implies (#[trigger] self.entries()[i2]).0 != (
            #[trigger] self.entries()[j2]).0 by {
                assert(pre[i2].0 != pre[j2].0);
            }
        }
    }
}

impl Game {
    /// The state of the player carrying `id`, if it is known.
    pub fn lookup(&self, id: &String) -> (r: Option<Player>)
        requires
            self.wf(),
        ensures
            match r {
                Some(p) => self@.contains_key(id@) && self@[id@] == p,
                None => !self@.contains_key(id@),
            },
    {
        match self.find_index(id) {
            Some(i) => Some(self.players[i].1),
            None => None,
        }
    }

    /// A structurally equal copy of the world.
    pub fn duplicate(&self) -> (g: Game)
        ensures
            g.entries() == self.entries(),
            g@ == self@,
            self.wf() ==> g.wf(),
    {
        let n = self.players.len();
        let mut out: Vec<(String, Player)> = Vec::new();
        let mut i: usize = 0;
        while i < n
            invariant
                n == self.players@.len(),
                i <= n,
                out@.len() == i,
                forall|j: int| 0 <= j < i ==> out@[j] == self.players@[j],
            decreases n - i,
        {
            let e = &self.players[i];
            out.push((e.0.clone(), e.1));
            i += 1;
        }
        let g = Game { players: out };
        proof {
            assert(g.players@ =~= self.players@);
            assert(g.entries() =~= self.entries());
        }
        g
    }
}

impl Default for Game {
    /// The empty world: no players.
    fn default() -> (g: Game)
        ensures
            g@ =~= Map::<Seq<char>, Player>::empty(),
            g.wf(),
            g.entries() == Seq::<(Seq<char>, Player)>::empty(),
    {
        Game::empty()
    }
}

impl PartialEq for Game {
    fn eq(&self, o: &Game) -> (r: bool) {
        let n = self.players.len();
        if n != o.players.len() {
            proof {
                assert(self.entries().len() != o.entries().len());
            }
            return false;
        }
        let mut i: usize = 0;
        while i < n
            invariant
                n == self.players@.len(),
                n == o.players@.len(),
                i <= n,
                forall|j: int| 0 <= j < i ==> self.entries()[j] == o.entries()[j],
            decreases n - i,
        {
            if self.players[i].0 == o.players[i].0 && self.players[i].1 == o.players[i].1 {
                i += 1;
            } else {
                proof {
                    assert(self.entries()[i as int] != o.entries()[i as int]);
                }
                return false;
            }
        }
        proof {
            assert(self.entries() =~= o.entries());
        }
        true
    }
}

impl vstd::std_specs::cmp::PartialEqSpecImpl for Game {
    open spec fn obeys_eq_spec() -> bool {
        true
    }

    open spec fn eq_spec(&self, o: &Game) -> bool {
        self.entries() == o.entries()
    }
}

impl PartialEq for GameMessage {
    fn eq(&self, o: &GameMessage) -> (r: bool) {
        match (self, o) {
            (
                GameMessage::Synchronize { world: a },
                GameMessage::Synchronize { world: b },
            ) => *a == *b,
            (
                GameMessage::Rotate { player_id: a, angle: x },
                GameMessage::Rotate { player_id: b, angle: y },
            ) => *a == *b && *x == *y,
            (
                GameMessage::MoveForward { player_id: a, distance: x },
                GameMessage::MoveForward { player_id: b, distance: y },
            ) => *a == *b && *x == *y,
            (
                GameMessage::MoveBackward { player_id: a, distance: x },
                GameMessage::MoveBackward { player_id: b, distance: y },
            ) => *a == *b && *x == *y,
            (
                GameMessage::RandomMove { player_id: a },
                GameMessage::RandomMove { player_id: b },
            ) => *a == *b,
            (
                GameMessage::PlayerAdded { player_id: a },
                GameMessage::PlayerAdded { player_id: b },
            ) => *a == *b,
            (
                GameMessage::PlayerRemoved { player_id: a },
                GameMessage::PlayerRemoved { player_id: b },
            ) => *a == *b,
            _ => false,
        }
    }
}

impl vstd::std_specs::cmp::PartialEqSpecImpl for GameMessage {
    open spec fn obeys_eq_spec() -> bool {
        true
    }

    open spec fn eq_spec(&self, o: &GameMessage) -> bool {
        self@ == o@
    }
}

/// A well-formed world has only well-formed players in its abstract map.
pub proof fn lemma_game_wf_all_players(g: Game)
    requires
        g.wf(),
    ensures
        all_players_wf(g@),
{
    assert forall|k: Seq<char>| g@.contains_key(k) implies player_wf(#[trigger] g@[k]) by {
        lemma_map_of_contains(g.entries(), k);
        let i = choose|i: int| 0 <= i < g.entries().len() && (#[trigger] g.entries()[i]).0 == k;
        lemma_map_of_index(g.entries(), i);
    }
}

/// Law: every message preserves well-formedness of all player states; in
/// particular, for any sequence of `Rotate`/`MoveForward`/`MoveBackward`
/// applied to any player, both position components remain within
/// `[0, POS_MAX]` after every step.
pub proof fn lemma_apply_preserves_player_bounds(m: Map<Seq<char>, Player>, msg: MessageView)
    requires
        all_players_wf(m),
        msg_view_wf(msg),
    ensures
        all_players_wf(spec_apply(m, msg)),
{
    match msg {
        MessageView::Synchronize { world } => {
            lemma_entries_wf_all_players(world);
        },
        _ => {
        },
    }
}

/// Law: adding a player and immediately removing it yields a world where that
/// player is absent; if it was absent before, the world is exactly what it
/// was.
pub proof fn lemma_add_then_remove(m: Map<Seq<char>, Player>, id: Seq<char>)
    ensures
        spec_apply(
            spec_apply(m, MessageView::PlayerAdded { player_id: id }),
            MessageView::PlayerRemoved { player_id: id },
        ) =~= m.remove(id),
        !m.contains_key(id) ==> spec_apply(
            spec_apply(m, MessageView::PlayerAdded { player_id: id }),
            MessageView::PlayerRemoved { player_id: id },
        ) =~= m,
{
}

/// Law: a snapshot replaces any prior state with exactly the carried world,
/// regardless of prior contents.
pub proof fn lemma_synchronize_replaces(m: Map<Seq<char>, Player>, world: Seq<(Seq<char>, Player)>)
    ensures
        spec_apply(m, MessageView::Synchronize { world }) == map_of(world),
{
}

/// Law: a mutation that references a player absent from the world leaves the
/// world unchanged.
pub proof fn lemma_unknown_player_ignored(m: Map<Seq<char>, Player>, msg: MessageView)
    requires
        match msg {
            MessageView::Rotate { player_id, .. } => !m.contains_key(player_id),
            MessageView::MoveForward { player_id, .. } => !m.contains_key(player_id),
            MessageView::MoveBackward { player_id, .. } => !m.contains_key(player_id),
            MessageView::RandomMove { player_id } => !m.contains_key(player_id),
            MessageView::PlayerRemoved { player_id } => !m.contains_key(player_id),
            _ => false,
        },
    ensures
        spec_apply(m, msg) =~= m,
{
}

} // verus!
