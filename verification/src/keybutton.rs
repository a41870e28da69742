use vstd::prelude::*;

use crate::song::{Note, Song};

verus! {

/// One lane's input latch and authoring recorder.
///
/// A physical key that goes down and stays down produces exactly one logical
/// press edge until the matching key-up: `repeat` arms the latch, the first
/// key-down disarms it, and further key-downs do nothing.  While authoring,
/// each completed press becomes a `Note` whose `holding` is the press's
/// length in ticks.
pub struct KeyButton {
    pub pressed: bool,
    /// Armed: the next key-down is a fresh press edge.
    pub repeat: bool,
    /// Sprite state: 0 idle, 1 pressed, 2 note hit.
    pub state: usize,
    /// The tick the current press began.
    pub pressed_time: u128,
    pub left_keys: Vec<Note>,
    pub right_keys: Vec<Note>,
    pub up_keys: Vec<Note>,
    pub down_keys: Vec<Note>,
}

impl KeyButton {
    pub fn new() -> (k: KeyButton)
        ensures
            !k.pressed,
            k.repeat,
            k.state == 0,
            k.pressed_time == 0,
            k.left_keys@ == Seq::<Note>::empty(),
            k.right_keys@ == Seq::<Note>::empty(),
            k.up_keys@ == Seq::<Note>::empty(),
            k.down_keys@ == Seq::<Note>::empty(),
    {
        KeyButton {
            pressed: false,
            repeat: true,
            state: 0,
            pressed_time: 0,
            left_keys: Vec::new(),
            right_keys: Vec::new(),
            up_keys: Vec::new(),
            down_keys: Vec::new(),
        }
    }

    /// A key-down event at tick `t`.  Only an armed latch reacts: a held key
    /// cannot fire a second press edge.
    pub fn key_down(&mut self, t: u128)
        ensures
            old(self).repeat ==> *final(self) == (KeyButton {
                pressed: true,
                repeat: false,
                state: 1,
                pressed_time: t,
                ..*old(self)
            }),
            !old(self).repeat ==> *final(self) == *old(self),
    {
        if self.repeat {
            self.pressed_time = t;
            self.repeat = false;
            self.pressed = true;
            self.state = 1;
        }
    }

    /// A key-up event at tick `t`: finishes the press, rearms the latch, and
    /// returns the authored note spanning the press.  A key-up without a
    /// press in flight does nothing.
    pub fn key_up(&mut self, t: u128) -> (r: Option<Note>)
        requires
            old(self).repeat || t >= old(self).pressed_time,
        ensures
            !old(self).repeat ==> r == Some(
                Note { time: old(self).pressed_time, holding: (t - old(self).pressed_time) as u128 },
            ) && *final(self) == (KeyButton {
                pressed: false,
                repeat: true,
                state: 0,
                ..*old(self)
            }),
            old(self).repeat ==> r is None && *final(self) == *old(self),
    {
        if !self.repeat {
            let note = Note { time: self.pressed_time, holding: t - self.pressed_time };
            self.repeat = true;
            self.pressed = false;
            self.state = 0;
            Some(note)
        } else {
            None
        }
    }

    /// Records an authored note into one of the four per-lane lists
    /// (indexed 0 left, 1 up, 2 down, 3 right, as the controller order).
    pub fn record_note(&mut self, lane: usize, note: Note)
        requires
            lane < 4,
        ensures
            lane == 0 ==> final(self).left_keys@ == old(self).left_keys@.push(note),
            lane == 1 ==> final(self).up_keys@ == old(self).up_keys@.push(note),
            lane == 2 ==> final(self).down_keys@ == old(self).down_keys@.push(note),
            lane == 3 ==> final(self).right_keys@ == old(self).right_keys@.push(note),
            lane != 0 ==> final(self).left_keys@ == old(self).left_keys@,
            lane != 1 ==> final(self).up_keys@ == old(self).up_keys@,
            lane != 2 ==> final(self).down_keys@ == old(self).down_keys@,
            lane != 3 ==> final(self).right_keys@ == old(self).right_keys@,
            final(self).pressed == old(self).pressed,
            final(self).repeat == old(self).repeat,
            final(self).state == old(self).state,
            final(self).pressed_time == old(self).pressed_time,
    {
        if lane == 0 {
            self.left_keys.push(note);
        } else if lane == 1 {
            self.up_keys.push(note);
        } else if lane == 2 {
            self.down_keys.push(note);
        } else {
            self.right_keys.push(note);
        }
    }
}

/// Relies on `rand::random`: a fresh identifier for a newly authored song.
/// Nothing is promised of the value.
#[verifier::external_body]
fn random_song_id() -> i128 {
    rand::random::<i128>()
}

/// Stamps a song being authored: the recorded lanes replace the song's, the
/// current tick becomes its length, and a fresh random identifier is
/// assigned.  The identifier is whatever the generator returned; everything
/// else about the song is pinned down.
pub fn stamp_song(latch: &KeyButton, song: &mut Song, end: u128)
    ensures
        final(song).end == end,
        final(song).id is Some,
        final(song).left_keys@ == latch.left_keys@,
        final(song).up_keys@ == latch.up_keys@,
        final(song).bottom_keys@ == latch.down_keys@,
        final(song).right_keys@ == latch.right_keys@,
        final(song).name@ == old(song).name@,
        final(song).sync == old(song).sync,
        final(song).bpm == old(song).bpm,
{
    song.end = end;
    let id = random_song_id();
    song.id = Some(id);
    song.left_keys = copy_notes(&latch.left_keys);
    song.up_keys = copy_notes(&latch.up_keys);
    song.bottom_keys = copy_notes(&latch.down_keys);
    song.right_keys = copy_notes(&latch.right_keys);
}

fn copy_notes(src: &Vec<Note>) -> (out: Vec<Note>)
    ensures
        out@ == src@,
{
    let n = src.len();
    let mut out: Vec<Note> = Vec::new();
    let mut i: usize = 0;
    while i < n
        invariant
            i <= n,
            n == src@.len(),
            out@ == src@.take(i as int),
        decreases n - i,
    {
        out.push(src[i]);
        proof {
            assert(src@.take(i as int).push(src@[i as int]) =~= src@.take(i as int + 1));
        }
        i = i + 1;
    }
    proof {
        assert(src@.take(n as int) =~= src@);
    }
    out
}

} // verus!
