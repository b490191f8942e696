//! An events-per-second counter with discrete one-second reporting windows.
//!
//! Each call to [`FpsCounter::update`] counts one event. Once at least a full
//! second has elapsed since the window started, the counter reports
//! `count / elapsed` (in milli-events per second), resets the count and
//! starts a new window; within a window the previously reported rate is
//! returned unchanged, and a fresh counter reports zero until its first full
//! window has elapsed.

use vstd::prelude::*;

verus! {

/// One full reporting window, in milliseconds.
pub const WINDOW_MS: u64 = 1000;

/// An events-per-second counter. Rates are in milli-events per second
/// (`1000` stands for one event per second).
pub struct FpsCounter {
    /// Events counted in the current window.
    pub frame_count: u32,
    /// When the current window started, in milliseconds.
    pub last_update: u64,
    /// The rate reported for the last completed window, in milli-events per
    /// second; zero until a first window completes.
    pub fps: u64,
}

/// The count after one more event; it saturates rather than wraps.
pub open spec fn spec_bump(count: u32) -> u32 {
    if count < 0xffff_ffffu32 {
        (count + 1) as u32
    } else {
        count
    }
}

/// The counter and report after one event at time `now`: within a window
/// only the count moves; at or past the window boundary the rate becomes
/// `count * 1_000_000 / elapsed_ms` (milli-events per second), the count
/// resets and a new window starts.
pub open spec fn spec_update(c: FpsCounter, now: u64) -> FpsCounter
    recommends
        c.last_update <= now,
{
    let cnt = spec_bump(c.frame_count);
    let elapsed = now - c.last_update;
    if elapsed >= WINDOW_MS {
        FpsCounter {
            frame_count: 0,
            last_update: now,
            fps: ((cnt as int) * 1_000_000 / (elapsed as int)) as u64,
        }
    } else {
        FpsCounter { frame_count: cnt, last_update: c.last_update, fps: c.fps }
    }
}

impl FpsCounter {
    /// A fresh counter: no events, rate zero, window starting now.
    pub fn new(now_ms: u64) -> (c: FpsCounter)
        ensures
            c.frame_count == 0,
            c.last_update == now_ms,
            c.fps == 0,
    {
        FpsCounter { frame_count: 0, last_update: now_ms, fps: 0 }
    }

    /// Counts one event at time `now_ms` and returns the latest reported
    /// rate, which changes only at window boundaries.
    pub fn update(&mut self, now_ms: u64) -> (rate: u64)
        requires
            old(self).last_update <= now_ms,
        ensures
            *final(self) == spec_update(*old(self), now_ms),
            rate == final(self).fps,
    {
        let cnt: u32 = if self.frame_count < 0xffff_ffffu32 {
            self.frame_count + 1
        } else {
            self.frame_count
        };
        let elapsed: u64 = now_ms - self.last_update;
        if elapsed >= WINDOW_MS {
            proof {
                assert((cnt as int) * 1_000_000 <= (0xffff_ffffu32 as int) * 1_000_000);
                assert((cnt as int) * 1_000_000 / (elapsed as int) <= (cnt as int) * 1_000_000) by {
                    vstd::arithmetic::div_mod::lemma_div_nonincreasing(
                        (cnt as int) * 1_000_000,
                        elapsed as int,
                    );
                }
                vstd::arithmetic::div_mod::lemma_div_pos_is_pos(
                    (cnt as int) * 1_000_000,
                    elapsed as int,
                );
            }
            self.fps = ((cnt as u64) * 1_000_000) / elapsed;
            self.frame_count = 0;
            self.last_update = now_ms;
        } else {
            self.frame_count = cnt;
        }
        self.fps
    }
}

/// Law: before the first full window has elapsed, a counter that has not yet
/// reported keeps reporting zero.
pub proof fn lemma_rate_zero_before_first_window(c: FpsCounter, now: u64)
    requires
        c.fps == 0,
        c.last_update <= now,
        now - c.last_update < WINDOW_MS,
    ensures
        spec_update(c, now).fps == 0,
        spec_update(c, now).last_update == c.last_update,
{
}

/// Law: at a window boundary the counter reports `count / elapsed`
/// (scaled to milli-events per second) and resets its count to zero.
pub proof fn lemma_rate_at_window_boundary(c: FpsCounter, now: u64)
    requires
        c.last_update <= now,
        now - c.last_update >= WINDOW_MS,
    ensures
        spec_update(c, now).fps == (spec_bump(c.frame_count) as int) * 1_000_000 / ((now
            - c.last_update) as int),
        spec_update(c, now).frame_count == 0,
        spec_update(c, now).last_update == now,
{
    let cnt = spec_bump(c.frame_count);
    let elapsed = now - c.last_update;
    vstd::arithmetic::div_mod::lemma_div_pos_is_pos((cnt as int) * 1_000_000, elapsed as int);
    vstd::arithmetic::div_mod::lemma_div_nonincreasing((cnt as int) * 1_000_000, elapsed as int);
    assert((cnt as int) * 1_000_000 <= (0xffff_ffffu32 as int) * 1_000_000);
}

} // verus!
