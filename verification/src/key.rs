use vstd::prelude::*;

use crate::song::Note;

verus! {

/// The lane a runtime note belongs to.
#[derive(Clone, Copy, Debug, PartialEq, Eq, Structural)]
pub enum KeyFlag {
    Left,
    Up,
    Bottom,
    Right,
}

/// One runtime note instance.  Its vertical position follows from `mili` and
/// the song time, so the judgment logic works purely in ticks.
///
/// - `mili`: the nominal tick of this segment, straight from the song data.
/// - `holding`: true for a segment of a hold note (head or body), false for
///   a tap note.
/// - `flag`: the lane tag; `None` marks an editor placeholder cell.
/// - `connected`: in the editor's dense layout, the index of the hold's
///   other end.
/// - `active`: true until the note is judged or muted.
/// - `muted`: the note was missed; it can never be hit afterwards.
#[derive(Clone, Copy, Debug, PartialEq, Eq)]
pub struct GameKey {
    pub mili: u128,
    pub holding: bool,
    pub flag: Option<KeyFlag>,
    pub connected: Option<usize>,
    pub active: bool,
    pub muted: bool,
}

/// The runtime segments of one persisted note: a tap is a single segment at
/// its own tick; a hold of length `h` becomes `h` consecutive segments, one
/// per tick, all flagged `holding` so the judgment engine scores them as
/// hold ticks.
pub open spec fn expand_note(nt: Note, flag: KeyFlag) -> Seq<GameKey> {
    if nt.holding == 0 {
        seq![
            GameKey {
                mili: nt.time,
                holding: false,
                flag: Some(flag),
                connected: None,
                active: true,
                muted: false,
            },
        ]
    } else {
        Seq::new(
            nt.holding as nat,
            |i: int|
                GameKey {
                    mili: (nt.time + i) as u128,
                    holding: true,
                    flag: Some(flag),
                    connected: None,
                    active: true,
                    muted: false,
                },
        )
    }
}

/// The play-mode timeline of one lane: every note strictly after `base_time`
/// is expanded in order; notes at or before `base_time` have already passed
/// once calibration is accounted for, and are dropped.
pub open spec fn play_lane(notes: Seq<Note>, base_time: u128, flag: KeyFlag) -> Seq<GameKey>
    decreases notes.len(),
{
    if notes.len() == 0 {
        Seq::empty()
    } else {
        (if notes[0].time > base_time {
            expand_note(notes[0], flag)
        } else {
            Seq::empty()
        }) + play_lane(notes.skip(1), base_time, flag)
    }
}

/// A freshly built timeline is all live: every segment starts active and
/// unmuted, which is the invariant the judgment engine preserves.
pub proof fn lemma_play_lane_fresh(notes: Seq<Note>, base_time: u128, flag: KeyFlag)
    ensures
        forall|i: int|
            0 <= i < play_lane(notes, base_time, flag).len() ==> (#[trigger] play_lane(
                notes,
                base_time,
                flag,
            )[i]).active && !play_lane(notes, base_time, flag)[i].muted,
    decreases notes.len(),
{
    if notes.len() > 0 {
        lemma_play_lane_fresh(notes.skip(1), base_time, flag);
        let head = if notes[0].time > base_time {
            expand_note(notes[0], flag)
        } else {
            Seq::<GameKey>::empty()
        };
        let rest = play_lane(notes.skip(1), base_time, flag);
        assert forall|i: int| 0 <= i < play_lane(notes, base_time, flag).len() implies (
        #[trigger] play_lane(notes, base_time, flag)[i]).active && !play_lane(
            notes,
            base_time,
            flag,
        )[i].muted by {
            assert(play_lane(notes, base_time, flag) == head + rest);
            if i < head.len() {
                assert(play_lane(notes, base_time, flag)[i] == head[i]);
            } else {
                assert(play_lane(notes, base_time, flag)[i] == rest[i - head.len()]);
            }
        }
    }
}

/// Builds the runtime note list for one lane in play mode.
pub fn build_play_lane(notes: &Vec<Note>, base_time: u128, flag: KeyFlag) -> (out: Vec<GameKey>)
    requires
        forall|i: int|
            0 <= i < notes@.len() ==> (#[trigger] notes@[i]).time + notes@[i].holding
                <= u128::MAX,
    ensures
        out@ == play_lane(notes@, base_time, flag),
{
    let n = notes.len();
    let mut out: Vec<GameKey> = Vec::new();
    let mut i: usize = 0;
    proof {
        assert(notes@.skip(0) =~= notes@);
    }
    while i < n
        invariant
            i <= n,
            n == notes@.len(),
            forall|k: int|
                0 <= k < notes@.len() ==> (#[trigger] notes@[k]).time + notes@[k].holding
                    <= u128::MAX,
            out@ + play_lane(notes@.skip(i as int), base_time, flag) == play_lane(
                notes@,
                base_time,
                flag,
            ),
        decreases n - i,
    {
        let ghost pre = out@;
        let nt = notes[i];
        proof {
            let s = notes@.skip(i as int);
            assert(s[0] == notes@[i as int]);
            assert(s.skip(1) =~= notes@.skip(i as int + 1));
        }
        if nt.time > base_time {
            if nt.holding == 0 {
                out.push(
                    GameKey {
                        mili: nt.time,
                        holding: false,
                        flag: Some(flag),
                        connected: None,
                        active: true,
                        muted: false,
                    },
                );
                proof {
                    assert(out@ =~= pre + expand_note(nt, flag));
                }
            } else {
                let mut off: u128 = 0;
                while off < nt.holding
                    invariant
                        off <= nt.holding,
                        nt.time + nt.holding <= u128::MAX,
                        nt.holding > 0,
                        out@ == pre + expand_note(nt, flag).take(off as int),
                    decreases nt.holding - off,
                {
                    out.push(
                        GameKey {
                            mili: nt.time + off,
                            holding: true,
                            flag: Some(flag),
                            connected: None,
                            active: true,
                            muted: false,
                        },
                    );
                    proof {
                        assert(expand_note(nt, flag)[off as int] == GameKey {
                            mili: (nt.time + off) as u128,
                            holding: true,
                            flag: Some(flag),
                            connected: None,
                            active: true,
                            muted: false,
                        });
                        assert(pre + expand_note(nt, flag).take(off as int) + seq![
                            expand_note(nt, flag)[off as int],
                        ] =~= pre + expand_note(nt, flag).take(off as int + 1));
                    }
                    off = off + 1;
                }
                proof {
                    assert(expand_note(nt, flag).take(nt.holding as int) =~= expand_note(
                        nt,
                        flag,
                    ));
                }
            }
            proof {
                assert(pre + (expand_note(nt, flag) + play_lane(
                    notes@.skip(i as int + 1),
                    base_time,
                    flag,
                )) =~= (pre + expand_note(nt, flag)) + play_lane(
                    notes@.skip(i as int + 1),
                    base_time,
                    flag,
                ));
            }
        } else {
            proof {
                assert(Seq::<GameKey>::empty() + play_lane(
                    notes@.skip(i as int + 1),
                    base_time,
                    flag,
                ) =~= play_lane(notes@.skip(i as int + 1), base_time, flag));
            }
        }
        i = i + 1;
    }
    proof {
        assert(play_lane(notes@.skip(n as int), base_time, flag) == Seq::<GameKey>::empty());
        assert(out@ + Seq::<GameKey>::empty() =~= out@);
    }
    out
}

/// The ticks on which a beat line is spawned: starting at the lead-in tick,
/// one line every `6000 / bpm` ticks until the song ends.
pub open spec fn beat_seq(cur: int, end: int, step: int) -> Seq<int>
    decreases (if cur < end { end - cur } else { 0 }) when step >= 1
{
    if cur >= end {
        Seq::empty()
    } else {
        seq![cur] + beat_seq(cur + step, end, step)
    }
}

/// Computes the beat-line schedule for a song.  A song without a usable
/// tempo (none, zero, or one faster than a tick) gets no beat lines.
pub fn beat_line_ticks(end: u128, bpm: Option<u128>) -> (out: Vec<u128>)
    requires
        end <= 0xffff_ffff_ffff_ffff,
    ensures
        ({
            match bpm {
                Some(b) => if b > 0 && 6000u128 / b >= 1 {
                    out@.map_values(|v: u128| v as int) == beat_seq(
                        300,
                        end as int,
                        (6000u128 / b) as int,
                    )
                } else {
                    out@.len() == 0
                },
                None => out@.len() == 0,
            }
        }),
{
    let mut out: Vec<u128> = Vec::new();
    let b = match bpm {
        Some(b) => b,
        None => {
            proof {
                assert(out@.len() == 0);
            }
            return out;
        },
    };
    if b == 0 {
        return out;
    }
    let step = 6000 / b;
    if step == 0 {
        return out;
    }
    let mut cur: u128 = 300;
    proof {
        assert(out@.map_values(|v: u128| v as int) =~= Seq::<int>::empty());
    }
    while cur < end
        invariant
            1 <= step <= 6000,
            end <= 0xffff_ffff_ffff_ffff,
            out@.map_values(|v: u128| v as int) + beat_seq(cur as int, end as int, step as int)
                == beat_seq(300, end as int, step as int),
        decreases (if cur < end { end - cur } else { 0int }),
    {
        let ghost pre = out@.map_values(|v: u128| v as int);
        out.push(cur);
        proof {
            assert(out@.map_values(|v: u128| v as int) =~= pre + seq![cur as int]);
            assert(pre + (seq![cur as int] + beat_seq(cur + step, end as int, step as int)) =~= (pre
                + seq![cur as int]) + beat_seq(cur + step, end as int, step as int));
        }
        cur = cur + step;
    }
    proof {
        assert(beat_seq(cur as int, end as int, step as int) == Seq::<int>::empty());
        assert(out@.map_values(|v: u128| v as int) + Seq::<int>::empty() =~= out@.map_values(
            |v: u128| v as int,
        ));
    }
    out
}

} // verus!
