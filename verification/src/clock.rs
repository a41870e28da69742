use vstd::prelude::*;

use vstd::arithmetic::div_mod::lemma_div_is_ordered;

use crate::MS_PER_TICK;

verus! {

/// The session clock.  It never reads the machine time itself: every
/// operation takes the current monotonic time in milliseconds, so that the
/// whole time-accounting logic is plain arithmetic.
///
/// `song_time = (now - start_ms - paused_ms) / 10`, clamped at zero.  Pausing
/// records the pause instant and zeroes the scroll speed; resuming adds the
/// pause's length into `paused_ms` and restores the speed, so the song time
/// continues exactly where it froze.
pub struct ClockState {
    pub start_ms: u128,
    pub paused_ms: u128,
    /// The instant the running pause began, while paused.
    pub pause_start: Option<u128>,
    /// Scroll factor in pixels per second; zero while paused.
    pub key_speed: u32,
    pub saved_key_speed: u32,
}

/// The song time in ticks at monotonic instant `now_ms`.
pub open spec fn song_time(c: ClockState, now_ms: u128) -> int {
    if now_ms >= c.start_ms + c.paused_ms {
        (now_ms - c.start_ms - c.paused_ms) / (MS_PER_TICK as int)
    } else {
        0
    }
}

impl ClockState {
    /// A clock started at `now_ms`, with no time yet paused.
    pub fn start(now_ms: u128, key_speed: u32) -> (c: ClockState)
        ensures
            c.start_ms == now_ms,
            c.paused_ms == 0,
            c.pause_start is None,
            c.key_speed == key_speed,
            c.saved_key_speed == key_speed,
            song_time(c, now_ms) == 0,
    {
        ClockState {
            start_ms: now_ms,
            paused_ms: 0,
            pause_start: None,
            key_speed,
            saved_key_speed: key_speed,
        }
    }

    /// The authoritative song time, in whole ticks, clamped at zero.
    pub fn elapsed_ticks(&self, now_ms: u128) -> (t: u128)
        ensures
            t == song_time(*self, now_ms),
    {
        if now_ms >= self.start_ms && now_ms - self.start_ms >= self.paused_ms {
            (now_ms - self.start_ms - self.paused_ms) / 10
        } else {
            0
        }
    }

    /// Freezes the session: the pause instant is recorded and the scroll
    /// speed zeroed, so positions stop advancing.
    pub fn pause(&mut self, now_ms: u128)
        requires
            old(self).pause_start is None,
        ensures
            final(self).pause_start == Some(now_ms),
            final(self).key_speed == 0,
            final(self).start_ms == old(self).start_ms,
            final(self).paused_ms == old(self).paused_ms,
            final(self).saved_key_speed == old(self).saved_key_speed,
    {
        self.pause_start = Some(now_ms);
        self.key_speed = 0;
    }

    /// Ends the running pause: its length joins `paused_ms` and the scroll
    /// speed is restored.
    pub fn resume(&mut self, now_ms: u128)
        requires
            old(self).pause_start matches Some(p) && p <= now_ms,
            old(self).paused_ms + now_ms <= u128::MAX,
        ensures
            final(self).pause_start is None,
            final(self).key_speed == old(self).saved_key_speed,
            final(self).start_ms == old(self).start_ms,
            final(self).saved_key_speed == old(self).saved_key_speed,
            old(self).pause_start matches Some(p) ==> final(self).paused_ms == old(self).paused_ms
                + (now_ms - p),
    {
        let p = match self.pause_start {
            Some(p) => p,
            None => 0,
        };
        self.paused_ms = self.paused_ms + (now_ms - p);
        self.pause_start = None;
        self.key_speed = self.saved_key_speed;
    }
}

/// Song time never decreases while the clock stands still: later instants
/// give later (or equal) ticks.
pub proof fn lemma_song_time_monotonic(c: ClockState, n1: u128, n2: u128)
    requires
        n1 <= n2,
    ensures
        song_time(c, n1) <= song_time(c, n2),
{
    let base = c.start_ms + c.paused_ms;
    if n1 >= base {
        lemma_div_is_ordered((n1 - base) as int, (n2 - base) as int, MS_PER_TICK as int);
    } else if n2 >= base {
        lemma_div_is_ordered(0, (n2 - base) as int, MS_PER_TICK as int);
    }
}

/// A pause/resume cycle freezes the song time: at the instant of resuming,
/// the song time equals what it was when the pause began, and it never
/// runs backwards past any instant seen before the pause.
pub proof fn lemma_pause_resume_freezes(c: ClockState, c2: ClockState, p: u128, r: u128)
    requires
        p <= r,
        c2.start_ms == c.start_ms,
        c2.paused_ms == c.paused_ms + (r - p),
    ensures
        song_time(c2, r) == song_time(c, p),
        forall|n1: u128, n2: u128|
            n1 <= p && r <= n2 ==> #[trigger] song_time(c, n1) <= #[trigger] song_time(c2, n2),
{
    assert(song_time(c2, r) == song_time(c, p));
    assert forall|n1: u128, n2: u128| n1 <= p && r <= n2 implies #[trigger] song_time(c, n1)
        <= #[trigger] song_time(c2, n2) by {
        lemma_song_time_monotonic(c, n1, p);
        lemma_song_time_monotonic(c2, r, n2);
    }
}

impl ClockState {
    /// The song time while test-playing from the editor: the clock's ticks
    /// shifted by the chosen start point, plus the fixed lead-in before the
    /// audio starts.  The same value is handed to the audio seek so sound
    /// and judgment stay aligned when resuming a mid-song edit test.
    pub fn elapsed_ticks_testing(&self, now_ms: u128, start_point: u128) -> (t: u128)
        requires
            song_time(*self, now_ms) + start_point + 300 <= u128::MAX,
        ensures
            t == song_time(*self, now_ms) + start_point + 300,
    {
        let base = self.elapsed_ticks(now_ms);
        base + start_point + 300
    }
}

} // verus!
