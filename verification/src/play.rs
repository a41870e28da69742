use vstd::prelude::*;

use crate::key::{build_play_lane, play_lane, GameKey, KeyFlag};
use crate::song::Song;

verus! {

/// The judgment window in ticks: a note is hittable from its effective time
/// until `WINDOW_TICKS` later, when it is missed.
pub const WINDOW_TICKS: i128 = 30;

/// A press older than this many ticks no longer triggers tap notes, so a
/// held-down key cannot re-trigger every note that scrolls by.
pub const FRESH_TICKS: i128 = 10;

/// A hold note awards one point at most once per this many ticks while the
/// key stays pressed and segments remain in the window.
pub const HOLD_GAP_TICKS: i128 = 10;

/// Every tick quantity handled by the engine stays below this bound, which
/// keeps all the signed window arithmetic far from overflow.
pub const MAX_TICK: i128 = 0x4000_0000_0000_0000;

/// The per-lane input snapshot the engine reads each frame.
#[derive(Clone, Copy, Debug, PartialEq, Eq, Structural)]
pub struct Note {
    /// The lane's key is currently held down.
    pub state: bool,
    /// The lane accepts input at all.
    pub active: bool,
}

/// The four lanes' input snapshots, in screen order.
#[derive(Clone, Copy, Debug, PartialEq, Eq, Structural)]
pub struct KeyState {
    pub left: Note,
    pub top: Note,
    pub bottom: Note,
    pub right: Note,
}

/// Score and combo counters.
#[derive(Clone, Copy, Debug, PartialEq, Eq, Structural)]
pub struct Score {
    pub points: u128,
    pub combo: u64,
    pub max_combo: u64,
}

/// One lane's run-time state: its note segments and the tick from which the
/// next hold point may be awarded.
pub struct LaneState {
    pub keys: Vec<GameKey>,
    pub hold_gate: i128,
}

/// The judgment accumulator threaded through a frame, spec side.
pub ghost struct EngineAcc {
    pub gate: int,
    pub combo: int,
    pub max_combo: int,
    pub points: int,
}

/// A note's effective judgment tick: its nominal tick shifted by the
/// calibration offset and the per-song sync adjustment.
pub open spec fn eff_time(k: GameKey, base_time: u128, sync: i128) -> int {
    k.mili - base_time + sync
}

pub open spec fn consumed(k: GameKey) -> GameKey {
    GameKey { active: false, ..k }
}

pub open spec fn muted(k: GameKey) -> GameKey {
    GameKey { active: false, muted: true, ..k }
}

/// The judgment of a single note at song time `t`.
///
/// A note in the window is consumed by a pressed key: a tap needs the press
/// to be fresh and awards 100 points and a combo step; a hold segment is
/// consumed while the key is held, awarding one point at most once per
/// `HOLD_GAP_TICKS`.  A note that leaves the window still active
/// is muted and resets the combo.  Everything else is untouched.
pub open spec fn judge_note(
    k: GameKey,
    pressed: bool,
    press_time: int,
    base_time: u128,
    sync: i128,
    t: int,
    acc: EngineAcc,
) -> (GameKey, EngineAcc) {
    let eff = eff_time(k, base_time, sync);
    if k.active && eff <= t < eff + WINDOW_TICKS && pressed && (k.holding || t - press_time
        < FRESH_TICKS) {
        if k.holding {
            if t >= acc.gate {
                (consumed(k), EngineAcc { gate: t + HOLD_GAP_TICKS, points: acc.points + 1, ..acc })
            } else {
                (consumed(k), acc)
            }
        } else {
            let c = acc.combo + 1;
            (
                consumed(k),
                EngineAcc {
                    combo: c,
                    max_combo: if c > acc.max_combo {
                        c
                    } else {
                        acc.max_combo
                    },
                    points: acc.points + 100,
                    gate: acc.gate,
                },
            )
        }
    } else if k.active && t >= eff + WINDOW_TICKS {
        (muted(k), EngineAcc { combo: 0, ..acc })
    } else {
        (k, acc)
    }
}

/// One frame's judgment over a lane, in ascending note order.
pub open spec fn step_notes(
    keys: Seq<GameKey>,
    pressed: bool,
    press_time: int,
    base_time: u128,
    sync: i128,
    t: int,
    acc: EngineAcc,
) -> (Seq<GameKey>, EngineAcc)
    decreases keys.len(),
{
    if keys.len() == 0 {
        (keys, acc)
    } else {
        let (k0, a1) = judge_note(keys[0], pressed, press_time, base_time, sync, t, acc);
        let (rest, a2) = step_notes(keys.skip(1), pressed, press_time, base_time, sync, t, a1);
        (seq![k0] + rest, a2)
    }
}

/// A muted note is never active: muting clears the flag, and nothing sets it.
pub open spec fn keys_wf(keys: Seq<GameKey>) -> bool {
    forall|i: int| 0 <= i < keys.len() ==> (#[trigger] keys[i]).muted ==> !keys[i].active
}

/// At-most-once scoring: a frame never touches a note that is already
/// consumed, and never revives one.  Scoring happens only in the step that
/// consumes a note, so over any run of frames each note is awarded at most
/// once (a tap) or once per segment (a hold), and never after its `active`
/// flag is cleared.
pub proof fn lemma_at_most_once(
    keys: Seq<GameKey>,
    pressed: bool,
    press_time: int,
    base_time: u128,
    sync: i128,
    t: int,
    acc: EngineAcc,
)
    ensures
        step_notes(keys, pressed, press_time, base_time, sync, t, acc).0.len() == keys.len(),
        forall|i: int|
            0 <= i < keys.len() && !(#[trigger] keys[i]).active ==> step_notes(
                keys,
                pressed,
                press_time,
                base_time,
                sync,
                t,
                acc,
            ).0[i] == keys[i],
        forall|i: int|
            0 <= i < keys.len() && (#[trigger] step_notes(
                keys,
                pressed,
                press_time,
                base_time,
                sync,
                t,
                acc,
            ).0[i]).active ==> keys[i].active,
    decreases keys.len(),
{
    if keys.len() > 0 {
        let (k0, a1) = judge_note(keys[0], pressed, press_time, base_time, sync, t, acc);
        lemma_at_most_once(keys.skip(1), pressed, press_time, base_time, sync, t, a1);
        let r = step_notes(keys, pressed, press_time, base_time, sync, t, acc);
        let rr = step_notes(keys.skip(1), pressed, press_time, base_time, sync, t, a1);
        assert forall|i: int| 0 <= i < keys.len() implies (r.0[i] == if i == 0 {
            k0
        } else {
            rr.0[i - 1]
        }) by {
            assert(r.0 == seq![k0] + rr.0);
        }
        assert(forall|i: int| 1 <= i < keys.len() ==> keys.skip(1)[i - 1] == #[trigger] keys[i]);
    }
}

/// Miss-then-score exclusion: once a note is muted it is inert.  A muted
/// note is inactive, the judgment only moves active notes, so no later frame
/// can consume or score it; muting is permanent.
pub proof fn lemma_muted_is_final(
    keys: Seq<GameKey>,
    pressed: bool,
    press_time: int,
    base_time: u128,
    sync: i128,
    t: int,
    acc: EngineAcc,
)
    requires
        keys_wf(keys),
    ensures
        keys_wf(step_notes(keys, pressed, press_time, base_time, sync, t, acc).0),
        forall|i: int|
            0 <= i < keys.len() && (#[trigger] keys[i]).muted ==> step_notes(
                keys,
                pressed,
                press_time,
                base_time,
                sync,
                t,
                acc,
            ).0[i] == keys[i],
    decreases keys.len(),
{
    if keys.len() > 0 {
        let (k0, a1) = judge_note(keys[0], pressed, press_time, base_time, sync, t, acc);
        assert(forall|i: int| 1 <= i < keys.len() ==> keys.skip(1)[i - 1] == #[trigger] keys[i]);
        assert(keys_wf(keys.skip(1)));
        lemma_muted_is_final(keys.skip(1), pressed, press_time, base_time, sync, t, a1);
        lemma_at_most_once(keys.skip(1), pressed, press_time, base_time, sync, t, a1);
        let r = step_notes(keys, pressed, press_time, base_time, sync, t, acc);
        let rr = step_notes(keys.skip(1), pressed, press_time, base_time, sync, t, a1);
        assert(r.0 == seq![k0] + rr.0);
        assert forall|i: int| 0 <= i < r.0.len() && (#[trigger] r.0[i]).muted implies !r.0[
            i
        ].active by {
            if i > 0 {
                assert(r.0[i] == rr.0[i - 1]);
            }
        }
        assert forall|i: int| 0 <= i < keys.len() && (#[trigger] keys[i]).muted implies r.0[i]
            == keys[i] by {
            if i > 0 {
                assert(r.0[i] == rr.0[i - 1]);
            }
        }
    }
}

/// One frame moves the counters boundedly: points grow by at most 100 per
/// note, the combo by at most one per note (or resets toward zero), and the
/// maximum combo never falls.
pub proof fn lemma_counter_bounds(
    keys: Seq<GameKey>,
    pressed: bool,
    press_time: int,
    base_time: u128,
    sync: i128,
    t: int,
    acc: EngineAcc,
)
    requires
        acc.combo >= 0,
    ensures
        ({
            let a = step_notes(keys, pressed, press_time, base_time, sync, t, acc).1;
            &&& acc.points <= a.points <= acc.points + 100 * keys.len()
            &&& 0 <= a.combo <= acc.combo + keys.len()
            &&& a.max_combo >= acc.max_combo
            &&& a.max_combo <= acc.max_combo || a.max_combo <= acc.combo + keys.len()
        }),
    decreases keys.len(),
{
    if keys.len() > 0 {
        let (k0, a1) = judge_note(keys[0], pressed, press_time, base_time, sync, t, acc);
        lemma_counter_bounds(keys.skip(1), pressed, press_time, base_time, sync, t, a1);
    }
}

/// Across consecutive frames: a note consumed or muted in one frame is
/// left untouched by the next, whatever input arrives.  Chaining this over
/// a whole session gives the at-most-once and miss-then-score guarantees
/// for every run of frames, not just one.
pub proof fn lemma_judged_notes_stay_judged(
    keys: Seq<GameKey>,
    pressed1: bool,
    press_time1: int,
    pressed2: bool,
    press_time2: int,
    base_time: u128,
    sync: i128,
    t1: int,
    t2: int,
    acc1: EngineAcc,
    acc2: EngineAcc,
)
    ensures
        ({
            let mid = step_notes(keys, pressed1, press_time1, base_time, sync, t1, acc1).0;
            let end = step_notes(mid, pressed2, press_time2, base_time, sync, t2, acc2).0;
            forall|i: int|
                0 <= i < keys.len() && !(#[trigger] mid[i]).active ==> end[i] == mid[i]
        }),
{
    let mid = step_notes(keys, pressed1, press_time1, base_time, sync, t1, acc1).0;
    lemma_at_most_once(keys, pressed1, press_time1, base_time, sync, t1, acc1);
    lemma_at_most_once(mid, pressed2, press_time2, base_time, sync, t2, acc2);
}

/// Bounds that keep the window arithmetic of one lane inside `i128`.
pub open spec fn lane_ticks_ok(l: LaneState) -> bool {
    &&& forall|i: int| 0 <= i < l.keys@.len() ==> (#[trigger] l.keys@[i]).mili <= MAX_TICK as u128
    &&& 0 <= l.hold_gate <= MAX_TICK + HOLD_GAP_TICKS
}

impl LaneState {
    /// Runs one frame of judgment over this lane, in ascending note order,
    /// exactly as `step_notes` describes.
    pub fn step_lane(
        &mut self,
        pressed: bool,
        press_time: i128,
        base_time: u128,
        sync: i128,
        t: i128,
        score: &mut Score,
    )
        requires
            lane_ticks_ok(*old(self)),
            base_time <= MAX_TICK as u128,
            -MAX_TICK <= sync <= MAX_TICK,
            0 <= t <= MAX_TICK,
            0 <= press_time <= MAX_TICK,
            old(score).points + 100 * old(self).keys@.len() <= u128::MAX,
            old(score).combo + old(self).keys@.len() <= u64::MAX,
        ensures
            ({
                let r = step_notes(
                    old(self).keys@,
                    pressed,
                    press_time as int,
                    base_time,
                    sync,
                    t as int,
                    EngineAcc {
                        gate: old(self).hold_gate as int,
                        combo: old(score).combo as int,
                        max_combo: old(score).max_combo as int,
                        points: old(score).points as int,
                    },
                );
                &&& final(self).keys@ == r.0
                &&& final(self).hold_gate == r.1.gate
                &&& final(score).combo == r.1.combo
                &&& final(score).max_combo == r.1.max_combo
                &&& final(score).points == r.1.points
            }),
            lane_ticks_ok(*final(self)),
    {
        let ghost okeys = old(self).keys@;
        let ghost acc0 = EngineAcc {
            gate: old(self).hold_gate as int,
            combo: old(score).combo as int,
            max_combo: old(score).max_combo as int,
            points: old(score).points as int,
        };
        let n = self.keys.len();
        let mut i: usize = 0;
        proof {
            assert(okeys.skip(0) =~= okeys);
            assert(self.keys@.take(0) =~= Seq::<GameKey>::empty());
            assert(Seq::<GameKey>::empty() + step_notes(
                okeys,
                pressed,
                press_time as int,
                base_time,
                sync,
                t as int,
                acc0,
            ).0 =~= step_notes(okeys, pressed, press_time as int, base_time, sync, t as int, acc0).0);
        }
        while i < n
            invariant
                i <= n,
                n == okeys.len(),
                self.keys@.len() == n,
                self.keys@.skip(i as int) == okeys.skip(i as int),
                base_time <= MAX_TICK as u128,
                -MAX_TICK <= sync <= MAX_TICK,
                0 <= t <= MAX_TICK,
                0 <= press_time <= MAX_TICK,
                forall|j: int| 0 <= j < n ==> (#[trigger] okeys[j]).mili <= MAX_TICK as u128,
                forall|j: int|
                    0 <= j < n ==> (#[trigger] self.keys@[j]).mili <= MAX_TICK as u128,
                self.hold_gate == old(self).hold_gate || self.hold_gate == t + HOLD_GAP_TICKS,
                0 <= self.hold_gate <= MAX_TICK + HOLD_GAP_TICKS,
                score.points as int <= acc0.points + 100 * i,
                score.combo as int <= acc0.combo + i,
                acc0.points + 100 * n <= u128::MAX,
                acc0.combo + n <= u64::MAX,
                step_notes(okeys, pressed, press_time as int, base_time, sync, t as int, acc0)
                    == ({
                    let r = step_notes(
                        okeys.skip(i as int),
                        pressed,
                        press_time as int,
                        base_time,
                        sync,
                        t as int,
                        EngineAcc {
                            gate: self.hold_gate as int,
                            combo: score.combo as int,
                            max_combo: score.max_combo as int,
                            points: score.points as int,
                        },
                    );
                    (self.keys@.take(i as int) + r.0, r.1)
                }),
            decreases n - i,
        {
            let ghost acc_i = EngineAcc {
                gate: self.hold_gate as int,
                combo: score.combo as int,
                max_combo: score.max_combo as int,
                points: score.points as int,
            };
            let ghost pre_keys = self.keys@;
            let k = self.keys[i];
            proof {
                assert(self.keys@.skip(i as int)[0] == self.keys@[i as int]);
                assert(okeys.skip(i as int)[0] == okeys[i as int]);
                assert(k == okeys[i as int]);
            }
            let eff: i128 = k.mili as i128 - base_time as i128 + sync;
            proof {
                assert(eff == eff_time(k, base_time, sync));
            }
            if k.active && eff <= t && t < eff + WINDOW_TICKS && pressed && (k.holding || t
                - press_time < FRESH_TICKS) {
                if k.holding {
                    if t >= self.hold_gate {
                        score.points = score.points + 1;
                        self.hold_gate = t + HOLD_GAP_TICKS;
                    }
                } else {
                    score.combo = score.combo + 1;
                    if score.combo > score.max_combo {
                        score.max_combo = score.combo;
                    }
                    score.points = score.points + 100;
                }
                self.keys[i] = GameKey { active: false, ..k };
            } else if k.active && t >= eff + WINDOW_TICKS {
                score.combo = 0;
                self.keys[i] = GameKey { active: false, muted: true, ..k };
            }
            proof {
                let jr = judge_note(
                    okeys[i as int],
                    pressed,
                    press_time as int,
                    base_time,
                    sync,
                    t as int,
                    acc_i,
                );
                assert(self.keys@[i as int] == jr.0);
                assert(EngineAcc {
                    gate: self.hold_gate as int,
                    combo: score.combo as int,
                    max_combo: score.max_combo as int,
                    points: score.points as int,
                } == jr.1);
                assert forall|j: int| 0 <= j < n - i - 1 implies #[trigger] self.keys@.skip(
                    i as int + 1,
                )[j] == okeys.skip(i as int + 1)[j] by {
                    assert(self.keys@.skip(i as int + 1)[j] == self.keys@[i + 1 + j]);
                    assert(okeys.skip(i as int + 1)[j] == okeys[i + 1 + j]);
                    assert(pre_keys.skip(i as int)[j + 1] == okeys.skip(i as int)[j + 1]);
                    assert(self.keys@[i + 1 + j] == pre_keys[i + 1 + j]);
                }
                assert(self.keys@.skip(i as int + 1) =~= okeys.skip(i as int + 1));
                assert(self.keys@.take(i as int + 1) =~= pre_keys.take(i as int) + seq![jr.0]);
                let rr = step_notes(
                    okeys.skip(i as int + 1),
                    pressed,
                    press_time as int,
                    base_time,
                    sync,
                    t as int,
                    jr.1,
                );
                assert(okeys.skip(i as int).skip(1) =~= okeys.skip(i as int + 1));
                assert(step_notes(
                    okeys.skip(i as int),
                    pressed,
                    press_time as int,
                    base_time,
                    sync,
                    t as int,
                    acc_i,
                ) == (seq![jr.0] + rr.0, rr.1));
                assert(pre_keys.take(i as int) + (seq![jr.0] + rr.0) =~= self.keys@.take(
                    i as int + 1,
                ) + rr.0);
            }
            i = i + 1;
        }
        proof {
            assert(okeys.skip(n as int).len() == 0);
            assert(self.keys@.take(n as int) =~= self.keys@);
            assert(self.keys@ + okeys.skip(n as int) =~= self.keys@);
        }
    }
}

/// The per-lane press-start ticks, read from the input latches.
#[derive(Clone, Copy, Debug, PartialEq, Eq, Structural)]
pub struct PressTimes {
    pub left: i128,
    pub top: i128,
    pub bottom: i128,
    pub right: i128,
}

pub open spec fn press_times_ok(p: PressTimes) -> bool {
    &&& 0 <= p.left <= MAX_TICK
    &&& 0 <= p.top <= MAX_TICK
    &&& 0 <= p.bottom <= MAX_TICK
    &&& 0 <= p.right <= MAX_TICK
}

/// A play session: the four runtime lanes, the score, the per-song sync
/// offset, and the end flags.
pub struct GameLogic {
    pub left_lane: LaneState,
    pub up_lane: LaneState,
    pub bottom_lane: LaneState,
    pub right_lane: LaneState,
    pub score: Score,
    pub song_sync: i128,
    pub song_end: u128,
    pub end: bool,
    pub error: bool,
}

pub open spec fn lanes_ok(g: GameLogic) -> bool {
    &&& lane_ticks_ok(g.left_lane)
    &&& lane_ticks_ok(g.up_lane)
    &&& lane_ticks_ok(g.bottom_lane)
    &&& lane_ticks_ok(g.right_lane)
    &&& -MAX_TICK <= g.song_sync <= MAX_TICK
}

impl GameLogic {
    /// Builds a session from a loaded song: each lane's notes past the
    /// calibration point become runtime segments, the song's own sync offset
    /// is taken over, and the score starts at zero.  `error` carries the
    /// load failure flag; the caller pauses and alerts when it is set.
    pub fn new(song: &Song, base_time: u128, error: bool) -> (g: GameLogic)
        requires
            crate::song::song_wf(song@),
            song.end <= MAX_TICK as u128,
            base_time <= MAX_TICK as u128,
            song.sync matches Some(s) ==> -MAX_TICK <= s <= MAX_TICK,
        ensures
            g.left_lane.keys@ == play_lane(song.left_keys@, base_time, KeyFlag::Left),
            g.up_lane.keys@ == play_lane(song.up_keys@, base_time, KeyFlag::Up),
            g.bottom_lane.keys@ == play_lane(song.bottom_keys@, base_time, KeyFlag::Bottom),
            g.right_lane.keys@ == play_lane(song.right_keys@, base_time, KeyFlag::Right),
            g.left_lane.hold_gate == 0 && g.up_lane.hold_gate == 0 && g.bottom_lane.hold_gate == 0
                && g.right_lane.hold_gate == 0,
            g.score == (Score { points: 0, combo: 0, max_combo: 0 }),
            g.song_sync == (match song.sync {
                Some(s) => s,
                None => 0,
            }),
            g.song_end == song.end,
            g.end == false,
            g.error == error,
    {
        let song_sync: i128 = match song.sync {
            Some(s) => s,
            None => 0,
        };
        proof {
            assert(forall|i: int|
                0 <= i < song.left_keys@.len() ==> (#[trigger] song.left_keys@[i]).time
                    + song.left_keys@[i].holding <= u128::MAX);
            assert(forall|i: int|
                0 <= i < song.up_keys@.len() ==> (#[trigger] song.up_keys@[i]).time
                    + song.up_keys@[i].holding <= u128::MAX);
            assert(forall|i: int|
                0 <= i < song.bottom_keys@.len() ==> (#[trigger] song.bottom_keys@[i]).time
                    + song.bottom_keys@[i].holding <= u128::MAX);
            assert(forall|i: int|
                0 <= i < song.right_keys@.len() ==> (#[trigger] song.right_keys@[i]).time
                    + song.right_keys@[i].holding <= u128::MAX);
        }
        GameLogic {
            left_lane: LaneState {
                keys: build_play_lane(&song.left_keys, base_time, KeyFlag::Left),
                hold_gate: 0,
            },
            up_lane: LaneState {
                keys: build_play_lane(&song.up_keys, base_time, KeyFlag::Up),
                hold_gate: 0,
            },
            bottom_lane: LaneState {
                keys: build_play_lane(&song.bottom_keys, base_time, KeyFlag::Bottom),
                hold_gate: 0,
            },
            right_lane: LaneState {
                keys: build_play_lane(&song.right_keys, base_time, KeyFlag::Right),
                hold_gate: 0,
            },
            score: Score { points: 0, combo: 0, max_combo: 0 },
            song_sync,
            song_end: song.end,
            end: false,
            error,
        }
    }

    /// Runs one frame of judgment over all four lanes, in the fixed lane
    /// order left, up, bottom, right, threading the score through them.
    pub fn handle_notes(&mut self, keys: &KeyState, presses: &PressTimes, base_time: u128, t: i128)
        requires
            lanes_ok(*old(self)),
            press_times_ok(*presses),
            base_time <= MAX_TICK as u128,
            0 <= t <= MAX_TICK,
            old(self).score.points + 100 * (old(self).left_lane.keys@.len()
                + old(self).up_lane.keys@.len() + old(self).bottom_lane.keys@.len()
                + old(self).right_lane.keys@.len()) <= u128::MAX,
            old(self).score.combo + (old(self).left_lane.keys@.len()
                + old(self).up_lane.keys@.len() + old(self).bottom_lane.keys@.len()
                + old(self).right_lane.keys@.len()) <= u64::MAX,
        ensures
            ({
                let g = *old(self);
                let a0 = EngineAcc {
                    gate: g.left_lane.hold_gate as int,
                    combo: g.score.combo as int,
                    max_combo: g.score.max_combo as int,
                    points: g.score.points as int,
                };
                let rl = step_notes(
                    g.left_lane.keys@,
                    keys.left.state,
                    presses.left as int,
                    base_time,
                    g.song_sync,
                    t as int,
                    a0,
                );
                let a1 = EngineAcc { gate: g.up_lane.hold_gate as int, ..rl.1 };
                let ru = step_notes(
                    g.up_lane.keys@,
                    keys.top.state,
                    presses.top as int,
                    base_time,
                    g.song_sync,
                    t as int,
                    a1,
                );
                let a2 = EngineAcc { gate: g.bottom_lane.hold_gate as int, ..ru.1 };
                let rb = step_notes(
                    g.bottom_lane.keys@,
                    keys.bottom.state,
                    presses.bottom as int,
                    base_time,
                    g.song_sync,
                    t as int,
                    a2,
                );
                let a3 = EngineAcc { gate: g.right_lane.hold_gate as int, ..rb.1 };
                let rr = step_notes(
                    g.right_lane.keys@,
                    keys.right.state,
                    presses.right as int,
                    base_time,
                    g.song_sync,
                    t as int,
                    a3,
                );
                &&& final(self).left_lane.keys@ == rl.0 && final(self).left_lane.hold_gate
                    == rl.1.gate
                &&& final(self).up_lane.keys@ == ru.0 && final(self).up_lane.hold_gate == ru.1.gate
                &&& final(self).bottom_lane.keys@ == rb.0 && final(self).bottom_lane.hold_gate
                    == rb.1.gate
                &&& final(self).right_lane.keys@ == rr.0 && final(self).right_lane.hold_gate
                    == rr.1.gate
                &&& final(self).score.combo == rr.1.combo && final(self).score.max_combo
                    == rr.1.max_combo && final(self).score.points == rr.1.points
            }),
            final(self).song_sync == old(self).song_sync,
            final(self).song_end == old(self).song_end,
            final(self).end == old(self).end,
            final(self).error == old(self).error,
            lanes_ok(*final(self)),
    {
        let sync = self.song_sync;
        let ghost g = *old(self);
        self.left_lane.step_lane(
            keys.left.state,
            presses.left,
            base_time,
            sync,
            t,
            &mut self.score,
        );
        proof {
            lemma_counter_bounds(
                g.left_lane.keys@,
                keys.left.state,
                presses.left as int,
                base_time,
                g.song_sync,
                t as int,
                EngineAcc {
                    gate: g.left_lane.hold_gate as int,
                    combo: g.score.combo as int,
                    max_combo: g.score.max_combo as int,
                    points: g.score.points as int,
                },
            );
        }
        let ghost s1 = self.score;
        self.up_lane.step_lane(keys.top.state, presses.top, base_time, sync, t, &mut self.score);
        proof {
            lemma_counter_bounds(
                g.up_lane.keys@,
                keys.top.state,
                presses.top as int,
                base_time,
                g.song_sync,
                t as int,
                EngineAcc {
                    gate: g.up_lane.hold_gate as int,
                    combo: s1.combo as int,
                    max_combo: s1.max_combo as int,
                    points: s1.points as int,
                },
            );
        }
        let ghost s2 = self.score;
        self.bottom_lane.step_lane(
            keys.bottom.state,
            presses.bottom,
            base_time,
            sync,
            t,
            &mut self.score,
        );
        proof {
            lemma_counter_bounds(
                g.bottom_lane.keys@,
                keys.bottom.state,
                presses.bottom as int,
                base_time,
                g.song_sync,
                t as int,
                EngineAcc {
                    gate: g.bottom_lane.hold_gate as int,
                    combo: s2.combo as int,
                    max_combo: s2.max_combo as int,
                    points: s2.points as int,
                },
            );
        }
        self.right_lane.step_lane(
            keys.right.state,
            presses.right,
            base_time,
            sync,
            t,
            &mut self.score,
        );
    }

    /// The session ends once the song time passes the song's length; input
    /// is frozen from then on by the caller.
    pub fn check_end(&mut self, t: u128)
        ensures
            final(self).end == (old(self).end || t > old(self).song_end),
            final(self).left_lane == old(self).left_lane,
            final(self).up_lane == old(self).up_lane,
            final(self).bottom_lane == old(self).bottom_lane,
            final(self).right_lane == old(self).right_lane,
            final(self).score == old(self).score,
            final(self).song_sync == old(self).song_sync,
            final(self).song_end == old(self).song_end,
            final(self).error == old(self).error,
    {
        if t > self.song_end {
            self.end = true;
        }
    }
}

impl LaneState {
    /// Garbage-collects notes that have scrolled far past the field: every
    /// note whose effective time lies more than `horizon` ticks in the past
    /// is dropped; the rest survive in order.  No further logic ever touches
    /// the dropped notes.
    pub fn retire_passed(&mut self, base_time: u128, sync: i128, t: i128, horizon: i128)
        requires
            lane_ticks_ok(*old(self)),
            base_time <= MAX_TICK as u128,
            -MAX_TICK <= sync <= MAX_TICK,
            0 <= t <= MAX_TICK,
            0 <= horizon <= MAX_TICK,
        ensures
            final(self).keys@ == old(self).keys@.filter(
                |k: GameKey| eff_time(k, base_time, sync) + horizon >= t as int,
            ),
            final(self).hold_gate == old(self).hold_gate,
            lane_ticks_ok(*final(self)),
    {
        let ghost f = |k: GameKey| eff_time(k, base_time, sync) + horizon >= t as int;
        let n = self.keys.len();
        let mut out: Vec<GameKey> = Vec::new();
        let mut i: usize = 0;
        proof {
            assert(self.keys@.take(0) =~= Seq::<GameKey>::empty());
            assert(Seq::<GameKey>::empty().filter(f) =~= Seq::<GameKey>::empty());
        }
        while i < n
            invariant
                i <= n,
                n == self.keys@.len(),
                self.keys@ == old(self).keys@,
                base_time <= MAX_TICK as u128,
                -MAX_TICK <= sync <= MAX_TICK,
                0 <= t <= MAX_TICK,
                0 <= horizon <= MAX_TICK,
                forall|j: int|
                    0 <= j < n ==> (#[trigger] self.keys@[j]).mili <= MAX_TICK as u128,
                f == (|k: GameKey| eff_time(k, base_time, sync) + horizon >= t as int),
                out@ == self.keys@.take(i as int).filter(f),
                forall|j: int| 0 <= j < out@.len() ==> (#[trigger] out@[j]).mili <= MAX_TICK as u128,
            decreases n - i,
        {
            let k = self.keys[i];
            let eff: i128 = k.mili as i128 - base_time as i128 + sync;
            proof {
                assert(self.keys@.take(i as int + 1).drop_last() =~= self.keys@.take(i as int));
                assert(self.keys@.take(i as int + 1).last() == self.keys@[i as int]);
                reveal_with_fuel(Seq::filter, 2);
                assert(self.keys@.take(i as int + 1).filter(f) == if f(self.keys@[i as int]) {
                    self.keys@.take(i as int).filter(f).push(self.keys@[i as int])
                } else {
                    self.keys@.take(i as int).filter(f)
                });
            }
            if eff + horizon >= t {
                out.push(k);
            }
            i = i + 1;
        }
        proof {
            assert(self.keys@.take(n as int) =~= self.keys@);
        }
        self.keys = out;
    }
}

} // verus!
