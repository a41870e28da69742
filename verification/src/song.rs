use vstd::prelude::*;

verus! {

/// One persisted note inside a lane list: `time` is the tick offset from song
/// start, `holding` the duration in ticks (0 means a tap note, more than 0 a
/// hold note spanning `[time, time + holding)`).
#[derive(Clone, Copy, Debug, PartialEq, Eq, Structural)]
pub struct Note {
    pub time: u128,
    pub holding: u128,
}

/// The persisted unit: a name, a stable identifier, four lane note lists, the
/// song length in ticks, a signed per-song sync offset and an optional bpm for
/// beat-line rendering.  The name is kept as raw bytes exactly as they appear
/// in the song file.
#[derive(Clone, Debug, PartialEq, Eq)]
pub struct Song {
    pub name: Vec<u8>,
    pub id: Option<i128>,
    pub left_keys: Vec<Note>,
    pub up_keys: Vec<Note>,
    pub bottom_keys: Vec<Note>,
    pub right_keys: Vec<Note>,
    pub end: u128,
    pub sync: Option<i128>,
    pub bpm: Option<u128>,
}

/// The number of ticks a note occupies in its lane: a tap still occupies its
/// own tick, a hold occupies `holding` ticks.
pub open spec fn note_extent(n: Note) -> int {
    if n.holding == 0 {
        1
    } else {
        n.holding as int
    }
}

/// A lane is well formed when its notes are in strictly ascending time order,
/// never overlap, and every note ends strictly before the song does.
pub open spec fn lane_wf(lane: Seq<Note>, end: u128) -> bool {
    &&& forall|i: int|
        0 <= i < lane.len() ==> (#[trigger] lane[i]).time + note_extent(lane[i]) < end as int
    &&& forall|i: int|
        0 <= i < lane.len() - 1 ==> (#[trigger] lane[i]).time + note_extent(lane[i]) <= lane[
            i + 1
        ].time
}

/// A name byte that the song codec can reproduce verbatim: printable ASCII
/// without the two JSON string delimiters.
pub open spec fn name_byte_ok(b: u8) -> bool {
    0x20 <= b <= 0x7e && b != 0x22 && b != 0x5c
}

pub open spec fn name_wf(name: Seq<u8>) -> bool {
    forall|i: int| 0 <= i < name.len() ==> name_byte_ok(#[trigger] name[i])
}

/// The mathematical content of a `Song`: every field as its spec-level value.
pub ghost struct SongModel {
    pub name: Seq<u8>,
    pub id: Option<i128>,
    pub left: Seq<Note>,
    pub up: Seq<Note>,
    pub bottom: Seq<Note>,
    pub right: Seq<Note>,
    pub end: u128,
    pub sync: Option<i128>,
    pub bpm: Option<u128>,
}

impl View for Song {
    type V = SongModel;

    open spec fn view(&self) -> SongModel {
        SongModel {
            name: self.name@,
            id: self.id,
            left: self.left_keys@,
            up: self.up_keys@,
            bottom: self.bottom_keys@,
            right: self.right_keys@,
            end: self.end,
            sync: self.sync,
            bpm: self.bpm,
        }
    }
}

/// The model of the fallback song.
pub open spec fn empty_model() -> SongModel {
    SongModel {
        name: Seq::empty(),
        id: Some(0i128),
        left: Seq::empty(),
        up: Seq::empty(),
        bottom: Seq::empty(),
        right: Seq::empty(),
        end: 0u128,
        sync: Some(0i128),
        bpm: Some(0u128),
    }
}

/// Song invariant: `end` bounds every note of every lane (with its hold
/// length), each lane is ordered and overlap free, and the name is storable.
pub open spec fn song_wf(m: SongModel) -> bool {
    &&& lane_wf(m.left, m.end)
    &&& lane_wf(m.up, m.end)
    &&& lane_wf(m.bottom, m.end)
    &&& lane_wf(m.right, m.end)
    &&& name_wf(m.name)
}

/// The fallback value used whenever a song file is missing or corrupt: no
/// notes, zero length, neutral offsets.
pub fn empty_song() -> (s: Song)
    ensures
        s.name@ == Seq::<u8>::empty(),
        s.id == Some(0i128),
        s.left_keys@ == Seq::<Note>::empty(),
        s.up_keys@ == Seq::<Note>::empty(),
        s.bottom_keys@ == Seq::<Note>::empty(),
        s.right_keys@ == Seq::<Note>::empty(),
        s.end == 0,
        s.sync == Some(0i128),
        s.bpm == Some(0u128),
        s@ == empty_model(),
        song_wf(s@),
{
    Song {
        name: Vec::new(),
        id: Some(0),
        left_keys: Vec::new(),
        up_keys: Vec::new(),
        bottom_keys: Vec::new(),
        right_keys: Vec::new(),
        end: 0,
        sync: Some(0),
        bpm: Some(0),
    }
}

/// The first note of `lane` that sits exactly at tick `space`, if any.
pub open spec fn find_note(lane: Seq<Note>, space: u128) -> Option<Note>
    decreases lane.len(),
{
    if lane.len() == 0 {
        None
    } else if lane[0].time == space {
        Some(lane[0])
    } else {
        find_note(lane.skip(1), space)
    }
}

impl Song {
    /// Looks a lane list up by tick: the first note whose `time` equals
    /// `space`, if one exists.
    pub fn contains_note(space: u128, vector: Vec<Note>) -> (r: Option<Note>)
        ensures
            r == find_note(vector@, space),
    {
        let n = vector.len();
        let mut i: usize = 0;
        proof {
            assert(vector@.skip(0) =~= vector@);
        }
        while i < n
            invariant
                i <= n,
                n == vector@.len(),
                find_note(vector@, space) == find_note(vector@.skip(i as int), space),
            decreases n - i,
        {
            proof {
                assert(vector@.skip(i as int)[0] == vector@[i as int]);
                assert(vector@.skip(i as int).skip(1) =~= vector@.skip(i as int + 1));
            }
            if vector[i].time == space {
                return Some(vector[i]);
            }
            i = i + 1;
        }
        proof {
            assert(vector@.skip(n as int).len() == 0);
        }
        None
    }
}

/// Exec check of the song invariant, used to decide the corrupt-file fallback.
pub fn check_song(s: &Song) -> (ok: bool)
    ensures
        ok == song_wf(s@),
{
    check_lane(&s.left_keys, s.end) && check_lane(&s.up_keys, s.end) && check_lane(
        &s.bottom_keys,
        s.end,
    ) && check_lane(&s.right_keys, s.end) && check_name(&s.name)
}

fn check_lane(lane: &Vec<Note>, end: u128) -> (ok: bool)
    ensures
        ok == lane_wf(lane@, end),
{
    let n = lane.len();
    let mut i: usize = 0;
    let mut ok = true;
    while i < n
        invariant
            i <= n,
            n == lane@.len(),
            ok == {
                &&& forall|k: int|
                    0 <= k < i ==> (#[trigger] lane@[k]).time + note_extent(lane@[k]) < end as int
                &&& forall|k: int|
                    0 <= k < i && k < n - 1 ==> (#[trigger] lane@[k]).time + note_extent(lane@[k])
                        <= lane@[k + 1].time
            },
        decreases n - i,
    {
        let note = lane[i];
        let extent: u128 = if note.holding == 0 {
            1
        } else {
            note.holding
        };
        if !(note.time <= u128::MAX - extent && note.time + extent < end) {
            ok = false;
        } else if i + 1 < n && !(note.time + extent <= lane[i + 1].time) {
            ok = false;
        }
        i = i + 1;
    }
    ok
}

fn check_name(name: &Vec<u8>) -> (ok: bool)
    ensures
        ok == name_wf(name@),
{
    let n = name.len();
    let mut i: usize = 0;
    while i < n
        invariant
            i <= n,
            n == name@.len(),
            forall|k: int| 0 <= k < i ==> name_byte_ok(#[trigger] name@[k]),
        decreases n - i,
    {
        let b = name[i];
        if !(0x20 <= b && b <= 0x7e && b != 0x22 && b != 0x5c) {
            return false;
        }
        i = i + 1;
    }
    true
}

} // verus!
