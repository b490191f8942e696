//! The observer's reconciler and interpolation engine.
//!
//! The observer keeps the previous and the current snapshot and blends
//! between them with a ratio that runs linearly from `0` to `SCALE` over a
//! fixed transition window: `blended = previous + (current - previous) *
//! ratio / SCALE`, component-wise on position and rotation. A player present
//! only in the previous snapshot keeps its previous state at every ratio — a
//! removed player visually lingers until it leaves both snapshots.

use vstd::prelude::*;
use vstd::arithmetic::div_mod::{
    lemma_div_is_ordered, lemma_div_multiples_vanish, lemma_div_pos_is_pos,
};
use crate::world::{
    clamp_i, entries_of, lemma_game_wf_all_players, lemma_map_of_contains, lemma_map_of_index,
    player_wf, scaled_delta, Game, Player, ROT_LIMIT,
};
use crate::SCALE;

verus! {

/// How long one blend from the previous to the current snapshot takes.
pub const TRANSITION_DURATION_MS: u64 = 10;

/// One blended component: `a + (b - a) * ratio / SCALE`, the displacement
/// rounded towards zero.
pub open spec fn spec_blend_val(a: int, b: int, ratio: int) -> int {
    a + scaled_delta(b - a, ratio)
}

/// A blended component stays between the two values it blends.
proof fn lemma_mul_ratio_bounds(c: int, r: int)
    by (nonlinear_arith)
    requires
        0 <= c,
        0 <= r <= 1000,
    ensures
        0 <= c * r <= c * 1000,
{
}

/// For any ratio in `[0, SCALE]` the blend lies between its endpoints.
pub proof fn lemma_blend_in_range(a: int, b: int, ratio: int)
    requires
        0 <= ratio <= 1000,
    ensures
        a <= b ==> a <= spec_blend_val(a, b, ratio) <= b,
        b <= a ==> b <= spec_blend_val(a, b, ratio) <= a,
{
    let c = b - a;
    if c >= 0 {
        lemma_mul_ratio_bounds(c, ratio);
        lemma_div_is_ordered(c * ratio, c * 1000, 1000);
        lemma_div_multiples_vanish(c, 1000);
        lemma_div_pos_is_pos(c * ratio, 1000);
    } else {
        lemma_mul_ratio_bounds(-c, ratio);
        assert((-c) * ratio == -(c * ratio)) by (nonlinear_arith);
        lemma_div_is_ordered((-c) * ratio, (-c) * 1000, 1000);
        lemma_div_multiples_vanish(-c, 1000);
        lemma_div_pos_is_pos((-c) * ratio, 1000);
    }
}

/// At ratio zero the blend is exactly the first value.
pub proof fn lemma_blend_zero(a: int, b: int)
    ensures
        spec_blend_val(a, b, 0) == a,
{
    assert((b - a) * 0 == 0);
    assert(0int / 1000 == 0);
}

/// At full ratio the blend is exactly the second value.
pub proof fn lemma_blend_full(a: int, b: int)
    ensures
        spec_blend_val(a, b, 1000) == b,
{
    let c = b - a;
    if c >= 0 {
        lemma_div_multiples_vanish(c, 1000);
    } else {
        assert(-(c * 1000) == (-c) * 1000);
        lemma_div_multiples_vanish(-c, 1000);
    }
}

fn blend_val(a: i64, b: i64, ratio: i64) -> (r: i64)
    requires
        0 <= ratio <= SCALE,
        -ROT_LIMIT <= a <= ROT_LIMIT,
        -ROT_LIMIT <= b <= ROT_LIMIT,
    ensures
        r as int == spec_blend_val(a as int, b as int, ratio as int),
{
    proof {
        lemma_blend_in_range(a as int, b as int, ratio as int);
        lemma_blend_product_bound((b as int) - (a as int), ratio as int);
    }
    let c: i128 = (b as i128) - (a as i128);
    let p: i128 = c * (ratio as i128);
    let delta: i128 = if p >= 0 {
        p / 1000
    } else {
        -((-p) / 1000)
    };
    ((a as i128) + delta) as i64
}

proof fn lemma_blend_product_bound(c: int, r: int)
    by (nonlinear_arith)
    requires
        -2_000_000_000_001 <= c <= 2_000_000_000_001,
        0 <= r <= 1000,
    ensures
        -2_000_000_000_001_000 <= c * r <= 2_000_000_000_001_000,
{
}

/// The player blended component-wise between two states.
pub open spec fn spec_blend_player(p: Player, q: Player, ratio: int) -> Player {
    Player {
        position: (
            spec_blend_val(p.position.0 as int, q.position.0 as int, ratio) as i64,
            spec_blend_val(p.position.1 as int, q.position.1 as int, ratio) as i64,
        ),
        rotation: spec_blend_val(p.rotation as int, q.rotation as int, ratio) as i64,
    }
}

fn blend_player(p: Player, q: Player, ratio: i64) -> (r: Player)
    requires
        player_wf(p),
        player_wf(q),
        0 <= ratio <= SCALE,
    ensures
        r == spec_blend_player(p, q, ratio as int),
        player_wf(r),
{
    proof {
        lemma_blend_in_range(p.position.0 as int, q.position.0 as int, ratio as int);
        lemma_blend_in_range(p.position.1 as int, q.position.1 as int, ratio as int);
        lemma_blend_in_range(p.rotation as int, q.rotation as int, ratio as int);
    }
    Player {
        position: (
            blend_val(p.position.0, q.position.0, ratio),
            blend_val(p.position.1, q.position.1, ratio),
        ),
        rotation: blend_val(p.rotation, q.rotation, ratio),
    }
}

/// The blended world: every player of `prev`, blended towards its state in
/// `cur` when it has one there, left at its previous state when not.
pub open spec fn spec_interp_map(
    prev: Map<Seq<char>, Player>,
    cur: Map<Seq<char>, Player>,
    ratio: int,
) -> Map<Seq<char>, Player> {
    Map::new(
        |k: Seq<char>| prev.contains_key(k),
        |k: Seq<char>|
            if cur.contains_key(k) {
                spec_blend_player(prev[k], cur[k], ratio)
            } else {
                prev[k]
            },
    )
}

/// Law: at ratio zero the blended world is exactly the previous snapshot.
pub proof fn lemma_interpolation_start(prev: Map<Seq<char>, Player>, cur: Map<Seq<char>, Player>)
    ensures
        spec_interp_map(prev, cur, 0) =~= prev,
{
    assert forall|k: Seq<char>| prev.contains_key(k) implies #[trigger] spec_interp_map(
        prev,
        cur,
        0,
    )[k] == prev[k] by {
        if cur.contains_key(k) {
            lemma_blend_zero(prev[k].position.0 as int, cur[k].position.0 as int);
            lemma_blend_zero(prev[k].position.1 as int, cur[k].position.1 as int);
            lemma_blend_zero(prev[k].rotation as int, cur[k].rotation as int);
        }
    }
}

/// Law: at full ratio the blended world agrees with the current snapshot on
/// every player the two snapshots share.
pub proof fn lemma_interpolation_end(
    prev: Map<Seq<char>, Player>,
    cur: Map<Seq<char>, Player>,
    k: Seq<char>,
)
    requires
        prev.contains_key(k),
        cur.contains_key(k),
    ensures
        spec_interp_map(prev, cur, 1000)[k] == cur[k],
{
    lemma_blend_full(prev[k].position.0 as int, cur[k].position.0 as int);
    lemma_blend_full(prev[k].position.1 as int, cur[k].position.1 as int);
    lemma_blend_full(prev[k].rotation as int, cur[k].rotation as int);
}

/// Law: a player present only in the previous snapshot keeps its previous
/// state at every ratio.
pub proof fn lemma_interpolation_lingering(
    prev: Map<Seq<char>, Player>,
    cur: Map<Seq<char>, Player>,
    k: Seq<char>,
    ratio: int,
)
    requires
        prev.contains_key(k),
        !cur.contains_key(k),
    ensures
        spec_interp_map(prev, cur, ratio)[k] == prev[k],
{
}

impl Game {
    /// The world blended towards `other`: each player of `self` moves the
    /// given fraction of the way towards its state in `other`, or stays put
    /// when `other` does not know it.
    pub fn interpolated(&self, other: &Game, ratio: i64) -> (r: Game)
        requires
            self.wf(),
            other.wf(),
            0 <= ratio <= SCALE,
        ensures
            r.wf(),
            r@ == spec_interp_map(self@, other@, ratio as int),
    {
        let n = self.players.len();
        let mut out: Vec<(String, Player)> = Vec::new();
        let mut i: usize = 0;
        while i < n
            invariant
                self.wf(),
                other.wf(),
                0 <= ratio <= SCALE,
                n == self.players@.len(),
                i <= n,
                out@.len() == i,
                forall|j: int|
                    0 <= j < i ==> (#[trigger] entries_of(out@)[j]) == (
                        self.entries()[j].0,
                        if other@.contains_key(self.entries()[j].0) {
                            spec_blend_player(
                                self.entries()[j].1,
                                other@[self.entries()[j].0],
                                ratio as int,
                            )
                        } else {
                            self.entries()[j].1
                        },
                    ),
                forall|j: int| 0 <= j < i ==> player_wf((#[trigger] entries_of(out@)[j]).1),
            decreases n - i,
        {
            let e = &self.players[i];
            proof {
                lemma_game_wf_all_players(*other);
                assert(self.entries()[i as int] == (e.0@, e.1));
                assert(player_wf(e.1));
            }
            let q = match other.lookup(&e.0) {
                Some(op) => blend_player(e.1, op, ratio),
                None => e.1,
            };
            let ghost pre_out = out@;
            out.push((e.0.clone(), q));
            proof {
                assert(entries_of(out@) =~= entries_of(pre_out).push((e.0@, q)));
                assert(entries_of(out@)[i as int] == (e.0@, q));
            }
            i += 1;
        }
        let g = Game { players: out };
        proof {
            let ent = g.entries();
            let sent = self.entries();
            assert(ent.len() == sent.len());
            assert forall|j: int, j2: int| 0 <= j < j2 < ent.len() implies (#[trigger] ent[j]).0
                != (#[trigger] ent[j2]).0 by {
                assert(ent[j].0 == sent[j].0);
                assert(ent[j2].0 == sent[j2].0);
                assert(sent[j].0 != sent[j2].0);
            }
            let sv = spec_interp_map(self@, other@, ratio as int);
            assert forall|k: Seq<char>| g@.contains_key(k) == sv.contains_key(k) by {
                lemma_map_of_contains(ent, k);
                lemma_map_of_contains(sent, k);
                if exists|j: int| 0 <= j < ent.len() && (#[trigger] ent[j]).0 == k {
                    let j = choose|j: int| 0 <= j < ent.len() && (#[trigger] ent[j]).0 == k;
                    assert(sent[j].0 == k);
                }
                if exists|j: int| 0 <= j < sent.len() && (#[trigger] sent[j]).0 == k {
                    let j = choose|j: int| 0 <= j < sent.len() && (#[trigger] sent[j]).0 == k;
                    assert(ent[j].0 == k);
                }
            }
            assert forall|k: Seq<char>| g@.contains_key(k) implies #[trigger] g@[k] == sv[k] by {
                lemma_map_of_contains(ent, k);
                let j = choose|j: int| 0 <= j < ent.len() && (#[trigger] ent[j]).0 == k;
                lemma_map_of_index(ent, j);
                lemma_map_of_index(sent, j);
                assert(sent[j].0 == k);
                assert(self@[k] == sent[j].1);
                assert(g@[k] == ent[j].1);
            }
            assert(g@ =~= sv);
        }
        g
    }
}

/// The interpolation ratio at time `now`: zero before the transition starts,
/// then rising linearly to `SCALE` over `duration` and clamped there.
pub open spec fn spec_ratio(start: int, duration: int, now: int) -> int
    recommends
        duration > 0,
{
    if now <= start {
        0
    } else {
        clamp_i((now - start) * 1000 / duration, 0, 1000)
    }
}

/// The linear easing: `clamp((now - start) / duration, 0, 1)` in fixed
/// point.
pub fn ratio_at(start_ms: u64, duration_ms: u64, now_ms: u64) -> (r: i64)
    requires
        duration_ms > 0,
    ensures
        r as int == spec_ratio(start_ms as int, duration_ms as int, now_ms as int),
        0 <= r <= SCALE,
{
    if now_ms <= start_ms {
        return 0;
    }
    let elapsed: u128 = (now_ms - start_ms) as u128;
    let scaled: u128 = elapsed * 1000;
    let q: u128 = scaled / (duration_ms as u128);
    proof {
        lemma_div_pos_is_pos(scaled as int, duration_ms as int);
    }
    if q >= 1000 {
        1000
    } else {
        q as i64
    }
}

/// The observer's snapshot pair: what it last rendered towards and what it
/// is now blending towards, with the time the blend started.
pub struct Snapshots {
    pub previous: Game,
    pub current: Game,
    pub transition_start_ms: u64,
}

impl Snapshots {
    /// Both snapshots well formed.
    pub open spec fn wf(self) -> bool {
        self.previous.wf() && self.current.wf()
    }

    /// A reconciler that has seen nothing: two empty snapshots.
    pub fn new(now_ms: u64) -> (s: Snapshots)
        ensures
            s.wf(),
            s.previous@ =~= Map::<Seq<char>, Player>::empty(),
            s.current@ =~= Map::<Seq<char>, Player>::empty(),
            s.transition_start_ms == now_ms,
    {
        Snapshots {
            previous: Game::empty(),
            current: Game::empty(),
            transition_start_ms: now_ms,
        }
    }

    /// Takes one received snapshot: the held snapshot becomes the previous
    /// one, the new snapshot becomes current, and a fresh transition starts.
    pub fn receive(&mut self, snapshot: Game, now_ms: u64)
        requires
            old(self).wf(),
            snapshot.wf(),
        ensures
            final(self).wf(),
            final(self).previous == old(self).current,
            final(self).current == snapshot,
            final(self).transition_start_ms == now_ms,
    {
        core::mem::swap(&mut self.previous, &mut self.current);
        self.current = snapshot;
        self.transition_start_ms = now_ms;
    }

    /// The world to render at time `now_ms`: the previous snapshot blended
    /// towards the current one by the linear easing over `duration_ms`.
    pub fn blended_at(&self, now_ms: u64, duration_ms: u64) -> (g: Game)
        requires
            self.wf(),
            duration_ms > 0,
        ensures
            g.wf(),
            g@ == spec_interp_map(
                self.previous@,
                self.current@,
                spec_ratio(self.transition_start_ms as int, duration_ms as int, now_ms as int),
            ),
    {
        let ratio = ratio_at(self.transition_start_ms, duration_ms, now_ms);
        self.previous.interpolated(&self.current, ratio)
    }
}

} // verus!
