use vstd::prelude::*;

use crate::key::GameKey;
use crate::play::{MAX_TICK, WINDOW_TICKS};

verus! {

/// The calibration output consumed by scroll projection and judgment:
/// `base_time` is the tick at which a freshly spawned note reaches the
/// judgment line, `end_time` the tick at which it leaves the window.
#[derive(Clone, Copy, Debug, PartialEq, Eq, Structural)]
pub struct CoordinationData {
    pub base_time: u128,
    pub end_time: u128,
}

impl CoordinationData {
    /// Manual calibration: one step earlier.  Decrementing below zero clamps
    /// to zero instead of wrapping.
    pub fn nudge_base_down(&mut self)
        ensures
            final(self).base_time == if old(self).base_time > 10 {
                old(self).base_time - 10
            } else {
                0
            },
            final(self).end_time == old(self).end_time,
    {
        if self.base_time > 10 {
            self.base_time = self.base_time - 10;
        } else {
            self.base_time = 0;
        }
    }

    /// Manual calibration: one step later.
    pub fn nudge_base_up(&mut self)
        requires
            old(self).base_time + 10 <= MAX_TICK as u128,
        ensures
            final(self).base_time == old(self).base_time + 10,
            final(self).end_time == old(self).end_time,
    {
        self.base_time = self.base_time + 10;
    }
}

/// Nudges a song's sync offset one step earlier (used while a real song
/// plays, then persisted into the song's `sync` field).
pub fn nudge_sync_down(sync: i128) -> (r: i128)
    requires
        -MAX_TICK + 5 <= sync,
    ensures
        r == sync - 5,
{
    sync - 5
}

/// Nudges a song's sync offset one step later.
pub fn nudge_sync_up(sync: i128) -> (r: i128)
    requires
        sync <= MAX_TICK - 5,
    ensures
        r == sync + 5,
{
    sync + 5
}

/// The guided calibration session: a single auto-generated note falls
/// toward the judgment band; the tick at which it first enters the band is
/// recorded as `base_time`, the tick at which it leaves as `end_time`, and
/// shortly after that the session finishes by itself.
pub struct GameLogic {
    /// The calibration note's vertical position, in pixels.
    pub y: i128,
    /// Fall speed, in pixels per tick.
    pub speed: i128,
    /// The band's entry edge.
    pub band_top: i128,
    /// The band's exit edge.
    pub band_bottom: i128,
    /// True until the note first enters the band.
    pub started: bool,
    /// True once the exit tick has been captured.
    pub end_captured: bool,
    pub base_time: u128,
    pub end_time: u128,
    pub done: bool,
}

/// The phase invariant of a calibration session: before entry the note sits
/// at or above the entry edge, between entry and exit it sits inside the
/// band.
pub open spec fn cal_wf(c: GameLogic) -> bool {
    &&& 1 <= c.speed <= 1000
    &&& -100000 <= c.band_top < c.band_bottom <= 100000
    &&& c.band_bottom - c.band_top > c.speed
    &&& -200000 <= c.y <= 200000
    &&& c.base_time <= MAX_TICK as u128
    &&& c.end_time <= MAX_TICK as u128
    &&& c.started ==> c.y <= c.band_top && !c.end_captured
    &&& !c.started && !c.end_captured ==> c.band_top < c.y < c.band_bottom
}

impl GameLogic {
    /// A session whose note starts above the field and falls at `speed`
    /// pixels per tick toward the band.
    pub fn new(speed: i128, band_top: i128, band_bottom: i128) -> (c: GameLogic)
        requires
            1 <= speed <= 1000,
            -100000 <= band_top < band_bottom <= 100000,
            band_bottom - band_top > speed,
            -100 <= band_top,
        ensures
            cal_wf(c),
            c.y == -100,
            c.speed == speed,
            c.band_top == band_top,
            c.band_bottom == band_bottom,
            c.started && !c.end_captured && !c.done,
    {
        GameLogic {
            y: -100,
            speed,
            band_top,
            band_bottom,
            started: true,
            end_captured: false,
            base_time: 0,
            end_time: 0,
            done: false,
        }
    }

    /// Advances the falling note by one tick and captures the band entry
    /// and exit ticks as they happen.  After the exit has been captured the
    /// session finishes 50 ticks later.
    pub fn handle_notes(&mut self, t: u128)
        requires
            cal_wf(*old(self)),
            old(self).y <= 199000,
            t <= MAX_TICK as u128,
        ensures
            cal_wf(*final(self)),
            final(self).y == old(self).y + old(self).speed,
            final(self).speed == old(self).speed,
            final(self).band_top == old(self).band_top,
            final(self).band_bottom == old(self).band_bottom,
            // Entry capture: exactly when the note first enters the band.
            ({
                let entered = old(self).started && old(self).band_top < old(self).y + old(
                    self,
                ).speed < old(self).band_bottom;
                &&& final(self).started == (old(self).started && !entered)
                &&& entered ==> final(self).base_time == t && old(self).band_top < final(self).y
                    <= old(self).band_top + old(self).speed
                &&& !entered ==> final(self).base_time == old(self).base_time
            }),
            // Exit capture: exactly when the note leaves the band again.
            ({
                let exited = !old(self).started && !old(self).end_captured && !(old(self).band_top
                    < old(self).y + old(self).speed < old(self).band_bottom);
                &&& final(self).end_captured == (old(self).end_captured || exited)
                &&& exited ==> final(self).end_time == t && old(self).band_bottom <= final(self).y
                    < old(self).band_bottom + old(self).speed
                &&& !exited ==> final(self).end_time == old(self).end_time
            }),
            final(self).done == (old(self).done || (final(self).end_captured && t
                >= final(self).end_time + 50)),
    {
        self.y = self.y + self.speed;
        let inside = self.band_top < self.y && self.y < self.band_bottom;
        if inside && self.started {
            self.started = false;
            self.base_time = t;
        } else if !inside && !self.started && !self.end_captured {
            self.end_captured = true;
            self.end_time = t;
        }
        if self.end_captured && t >= self.end_time + 50 {
            self.done = true;
        }
    }
}

/// Calibration idempotence: when the note falls through a band whose height
/// is the judgment window expressed in pixels, the measured `end_time -
/// base_time` is the window width in ticks, give or take a single tick.
/// The premises are exactly what `handle_notes` guarantees at the two
/// capture instants, together with the note's linear motion between them.
pub proof fn lemma_calibration_window(
    speed: int,
    top: int,
    bottom: int,
    y_b: int,
    y_e: int,
    tb: int,
    te: int,
)
    requires
        speed >= 1,
        bottom - top == WINDOW_TICKS * speed,
        top < y_b <= top + speed,
        bottom <= y_e < bottom + speed,
        y_e - y_b == speed * (te - tb),
    ensures
        WINDOW_TICKS - 1 <= te - tb <= WINDOW_TICKS,
{
    let d = te - tb;
    assert(speed * d >= (WINDOW_TICKS - 1) * speed) by (nonlinear_arith)
        requires
            speed * d == y_e - y_b,
            y_e >= bottom,
            y_b <= top + speed,
            bottom - top == WINDOW_TICKS * speed,
    ;
    assert(speed * d < (WINDOW_TICKS + 1) * speed) by (nonlinear_arith)
        requires
            speed * d == y_e - y_b,
            y_e < bottom + speed,
            y_b > top,
            bottom - top == WINDOW_TICKS * speed,
    ;
    assert(d >= WINDOW_TICKS - 1) by (nonlinear_arith)
        requires
            speed * d >= (WINDOW_TICKS - 1) * speed,
            speed >= 1,
    ;
    assert(d <= WINDOW_TICKS) by (nonlinear_arith)
        requires
            speed * d < (WINDOW_TICKS + 1) * speed,
            speed >= 1,
    ;
}

/// The metronome-like stream used for ear-based manual calibration: `count`
/// notes at a fixed cadence, the first at tick `start`.
pub fn calibration_notes(count: usize, start: u128, cadence: u128) -> (out: Vec<GameKey>)
    requires
        start + count * cadence <= u128::MAX,
    ensures
        out@.len() == count,
        forall|i: int|
            0 <= i < count ==> (#[trigger] out@[i]) == (GameKey {
                mili: (start + i * cadence) as u128,
                holding: false,
                flag: None,
                connected: None,
                active: true,
                muted: false,
            }),
{
    let mut out: Vec<GameKey> = Vec::new();
    let mut i: usize = 0;
    let mut milis: u128 = start;
    while i < count
        invariant
            i <= count,
            out@.len() == i,
            start + count * cadence <= u128::MAX,
            milis == start + i * cadence,
            forall|j: int|
                0 <= j < i ==> (#[trigger] out@[j]) == (GameKey {
                    mili: (start + j * cadence) as u128,
                    holding: false,
                    flag: None,
                    connected: None,
                    active: true,
                    muted: false,
                }),
        decreases count - i,
    {
        proof {
            assert((i + 1) * cadence == i * cadence + cadence) by (nonlinear_arith);
            assert(i * cadence <= count * cadence && (i + 1) * cadence <= count * cadence)
                by (nonlinear_arith)
                requires
                    0 <= i && i + 1 <= count && cadence >= 0,
            ;
        }
        out.push(
            GameKey {
                mili: milis,
                holding: false,
                flag: None,
                connected: None,
                active: true,
                muted: false,
            },
        );
        milis = milis + cadence;
        i = i + 1;
    }
    out
}

} // verus!
