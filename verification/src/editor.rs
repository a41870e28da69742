use vstd::prelude::*;

use crate::key::{GameKey, KeyFlag};
use crate::song::{find_note, lane_wf, note_extent, Note, Song};

verus! {

/// Editor mode flags for laying a hold note across two clicks.
pub struct AddHolding {
    pub can_add: bool,
    pub add: bool,
}

/// The editor's current selection: a cell index and its lane.
pub struct Selected {
    pub key: usize,
    pub flag: KeyFlag,
}

/// An invisible, unoccupied grid cell at tick `j`.
pub open spec fn placeholder_cell(j: int) -> GameKey {
    GameKey {
        mili: j as u128,
        holding: false,
        flag: None,
        connected: None,
        active: true,
        muted: false,
    }
}

/// A tap note occupying the cell at tick `j`.
pub open spec fn tap_cell(j: int, flag: KeyFlag) -> GameKey {
    GameKey {
        mili: j as u128,
        holding: false,
        flag: Some(flag),
        connected: None,
        active: true,
        muted: false,
    }
}

/// The head of a hold note at tick `j`, pointing at its tail cell.
pub open spec fn head_cell(j: int, tail: int, flag: KeyFlag) -> GameKey {
    GameKey {
        mili: j as u128,
        holding: false,
        flag: Some(flag),
        connected: Some(tail as usize),
        active: true,
        muted: false,
    }
}

/// The tail of a hold note at tick `j`, pointing back at its head cell.
pub open spec fn tail_cell(j: int, head: int, flag: KeyFlag) -> GameKey {
    GameKey {
        mili: j as u128,
        holding: false,
        flag: Some(flag),
        connected: Some(head as usize),
        active: true,
        muted: false,
    }
}

/// The first hold note of `lane` whose tail lands exactly on tick `space`.
pub open spec fn find_tail(lane: Seq<Note>, space: int) -> Option<Note>
    decreases lane.len(),
{
    if lane.len() == 0 {
        None
    } else if lane[0].holding > 0 && lane[0].time + lane[0].holding == space {
        Some(lane[0])
    } else {
        find_tail(lane.skip(1), space)
    }
}

/// What the edit-mode grid holds at tick `j` for a lane list: the head of
/// the note starting there, the tail of the hold ending there, or an empty
/// placeholder.  Heads win over tails when both land on one cell.
#[verifier::opaque]
pub open spec fn edit_cell(notes: Seq<Note>, j: int, flag: KeyFlag) -> GameKey {
    match find_note(notes, j as u128) {
        Some(nt) => if nt.holding > 0 {
            head_cell(j, j + nt.holding, flag)
        } else {
            tap_cell(j, flag)
        },
        None => match find_tail(notes, j) {
            Some(nt) => tail_cell(j, nt.time as int, flag),
            None => placeholder_cell(j),
        },
    }
}

proof fn lemma_find_note_push(s: Seq<Note>, nt: Note, j: u128)
    ensures
        find_note(s.push(nt), j) == (match find_note(s, j) {
            Some(m) => Some(m),
            None => if nt.time == j {
                Some(nt)
            } else {
                None
            },
        }),
    decreases s.len(),
{
    if s.len() == 0 {
        assert(s.push(nt)[0] == nt);
        assert(s.push(nt).skip(1) =~= Seq::<Note>::empty());
        assert(find_note(Seq::<Note>::empty(), j) is None);
    } else {
        assert(s.push(nt)[0] == s[0]);
        assert(s.push(nt).skip(1) =~= s.skip(1).push(nt));
        lemma_find_note_push(s.skip(1), nt, j);
    }
}

proof fn lemma_find_tail_push(s: Seq<Note>, nt: Note, j: int)
    ensures
        find_tail(s.push(nt), j) == (match find_tail(s, j) {
            Some(m) => Some(m),
            None => if nt.holding > 0 && nt.time + nt.holding == j {
                Some(nt)
            } else {
                None
            },
        }),
    decreases s.len(),
{
    if s.len() == 0 {
        assert(s.push(nt)[0] == nt);
        assert(s.push(nt).skip(1) =~= Seq::<Note>::empty());
        assert(find_tail(Seq::<Note>::empty(), j) is None);
    } else {
        assert(s.push(nt)[0] == s[0]);
        assert(s.push(nt).skip(1) =~= s.skip(1).push(nt));
        lemma_find_tail_push(s.skip(1), nt, j);
    }
}

proof fn lemma_find_note_none(s: Seq<Note>, j: u128)
    requires
        forall|a: int| 0 <= a < s.len() ==> (#[trigger] s[a]).time != j,
    ensures
        find_note(s, j) is None,
    decreases s.len(),
{
    if s.len() > 0 {
        assert(forall|a: int| 0 <= a < s.skip(1).len() ==> s.skip(1)[a] == #[trigger] s[a + 1]);
        lemma_find_note_none(s.skip(1), j);
    }
}

proof fn lemma_find_tail_none(s: Seq<Note>, j: int)
    requires
        forall|a: int|
            0 <= a < s.len() ==> !((#[trigger] s[a]).holding > 0 && s[a].time + s[a].holding == j),
    ensures
        find_tail(s, j) is None,
    decreases s.len(),
{
    if s.len() > 0 {
        assert(forall|a: int| 0 <= a < s.skip(1).len() ==> s.skip(1)[a] == #[trigger] s[a + 1]);
        lemma_find_tail_none(s.skip(1), j);
    }
}

/// In a well-formed lane, every earlier note ends at or before a later
/// note begins, so grid writes never collide except head-over-tail.
proof fn lemma_wf_chain(notes: Seq<Note>, end: u128, a: int, b: int)
    requires
        lane_wf(notes, end),
        0 <= a < b < notes.len(),
    ensures
        notes[a].time + note_extent(notes[a]) <= notes[b].time,
    decreases b - a,
{
    if a + 1 == b {
    } else {
        lemma_wf_chain(notes, end, a + 1, b);
        assert(notes[a].time + note_extent(notes[a]) <= notes[a + 1].time);
        assert(note_extent(notes[a + 1]) >= 1);
    }
}

/// How appending one note changes the grid characterization: only the
/// note's own head cell (and tail cell, for a hold) change.
proof fn lemma_edit_cell_push(old_p: Seq<Note>, nt: Note, j2: int, flag: KeyFlag)
    requires
        forall|a: int|
            0 <= a < old_p.len() ==> (#[trigger] old_p[a]).time + note_extent(old_p[a])
                <= nt.time,
        nt.time + nt.holding <= u128::MAX,
        0 <= j2 <= u128::MAX,
    ensures
        j2 == nt.time ==> edit_cell(old_p.push(nt), j2, flag) == (if nt.holding > 0 {
            head_cell(j2, j2 + nt.holding, flag)
        } else {
            tap_cell(j2, flag)
        }),
        nt.holding > 0 && j2 == nt.time + nt.holding ==> edit_cell(old_p.push(nt), j2, flag)
            == tail_cell(j2, nt.time as int, flag),
        j2 != nt.time && !(nt.holding > 0 && j2 == nt.time + nt.holding) ==> edit_cell(
            old_p.push(nt),
            j2,
            flag,
        ) == edit_cell(old_p, j2, flag),
{
    reveal(edit_cell);
    lemma_find_note_push(old_p, nt, j2 as u128);
    lemma_find_tail_push(old_p, nt, j2);
    assert(forall|a: int|
        0 <= a < old_p.len() ==> (#[trigger] old_p[a]).time < nt.time && note_extent(old_p[a])
            >= 1);
    if j2 == nt.time {
        lemma_find_note_none(old_p, j2 as u128);
    } else if nt.holding > 0 && j2 == nt.time + nt.holding {
        lemma_find_note_none(old_p, j2 as u128);
        assert(forall|a: int|
            0 <= a < old_p.len() ==> (#[trigger] old_p[a]).time + old_p[a].holding <= old_p[
                a
            ].time + note_extent(old_p[a]));
        lemma_find_tail_none(old_p, j2);
        lemma_find_note_none(old_p.push(nt), j2 as u128);
    }
}

proof fn lemma_edit_cell_empty(j: int, flag: KeyFlag)
    ensures
        edit_cell(Seq::<Note>::empty(), j, flag) == placeholder_cell(j),
{
    reveal(edit_cell);
    assert(find_note(Seq::<Note>::empty(), j as u128) is None);
    assert(find_tail(Seq::<Note>::empty(), j) is None);
}

/// Writes one note's cells into a grid that reflects the notes before it,
/// leaving a grid that reflects the notes up to and including it.
#[verifier::rlimit(100)]
fn write_note_cells(out: &mut Vec<GameKey>, nt: Note, flag: KeyFlag, Ghost(old_p): Ghost<
    Seq<Note>,
>)
    requires
        forall|a: int|
            0 <= a < old_p.len() ==> (#[trigger] old_p[a]).time + note_extent(old_p[a])
                <= nt.time,
        nt.time + note_extent(nt) < old(out)@.len(),
        forall|j2: int|
            0 <= j2 < old(out)@.len() ==> old(out)@[j2] == edit_cell(old_p, j2, flag),
    ensures
        final(out)@.len() == old(out)@.len(),
        forall|j2: int|
            0 <= j2 < final(out)@.len() ==> final(out)@[j2] == edit_cell(
                old_p.push(nt),
                j2,
                flag,
            ),
{
    let ghost pre = out@;
    let olen = out.len();
    proof {
        assert(note_extent(nt) >= 1);
        assert(nt.time + nt.holding <= nt.time + note_extent(nt));
        assert(nt.time + note_extent(nt) < olen as int);
    }
    let t = nt.time as usize;
    if nt.holding > 0 {
        let u = (nt.time + nt.holding) as usize;
        out[t] = GameKey {
            mili: nt.time,
            holding: false,
            flag: Some(flag),
            connected: Some(u),
            active: true,
            muted: false,
        };
        out[u] = GameKey {
            mili: nt.time + nt.holding,
            holding: false,
            flag: Some(flag),
            connected: Some(t),
            active: true,
            muted: false,
        };
    } else {
        out[t] = GameKey {
            mili: nt.time,
            holding: false,
            flag: Some(flag),
            connected: None,
            active: true,
            muted: false,
        };
    }
    proof {
        assert forall|j2: int| 0 <= j2 < out@.len() implies out@[j2] == edit_cell(
            old_p.push(nt),
            j2,
            flag,
        ) by {
            assert(out@.len() == olen as int);
            lemma_edit_cell_push(old_p, nt, j2, flag);
            if j2 != t as int && !(nt.holding > 0 && j2 == nt.time + nt.holding) {
                assert(out@[j2] == pre[j2]);
            }
        }
    }
}

/// A grid of empty placeholder cells, one per tick.
fn placeholder_grid(end: usize, flag: KeyFlag) -> (out: Vec<GameKey>)
    ensures
        out@.len() == end,
        forall|j: int| 0 <= j < end ==> out@[j] == edit_cell(Seq::<Note>::empty(), j, flag),
{
    let mut out: Vec<GameKey> = Vec::new();
    let mut j: usize = 0;
    while j < end
        invariant
            j <= end,
            out@.len() == j,
            forall|i: int| 0 <= i < j ==> out@[i] == placeholder_cell(i),
        decreases end - j,
    {
        out.push(
            GameKey {
                mili: j as u128,
                holding: false,
                flag: None,
                connected: None,
                active: true,
                muted: false,
            },
        );
        j = j + 1;
    }
    proof {
        assert forall|i: int| 0 <= i < end implies out@[i] == edit_cell(
            Seq::<Note>::empty(),
            i,
            flag,
        ) by {
            lemma_edit_cell_empty(i, flag);
        }
    }
    out
}

/// Builds the dense edit-mode grid for one lane: one cell per tick from 0 to
/// `end`, with each note's head (and a hold's tail) written over the
/// placeholders, connected to each other by index for O(1) partner lookup.
pub fn build_edit_lane(notes: &Vec<Note>, end: usize, flag: KeyFlag) -> (out: Vec<GameKey>)
    requires
        lane_wf(notes@, end as u128),
    ensures
        out@.len() == end,
        forall|j: int| 0 <= j < end ==> out@[j] == edit_cell(notes@, j, flag),
{
    let mut out = placeholder_grid(end, flag);
    let n = notes.len();
    let mut k: usize = 0;
    proof {
        assert(notes@.take(0) =~= Seq::<Note>::empty());
    }
    while k < n
        invariant
            k <= n,
            n == notes@.len(),
            lane_wf(notes@, end as u128),
            out@.len() == end,
            forall|j2: int| 0 <= j2 < end ==> out@[j2] == edit_cell(notes@.take(k as int), j2, flag),
        decreases n - k,
    {
        let nt = notes[k];
        proof {
            assert(notes@[k as int].time + note_extent(notes@[k as int]) < end as int);
            assert forall|a: int| 0 <= a < notes@.take(k as int).len() implies (
            #[trigger] notes@.take(k as int)[a]).time + note_extent(notes@.take(k as int)[a])
                <= nt.time by {
                assert(notes@.take(k as int)[a] == notes@[a]);
                lemma_wf_chain(notes@, end as u128, a, k as int);
            }
        }
        write_note_cells(&mut out, nt, flag, Ghost(notes@.take(k as int)));
        proof {
            assert(notes@.take(k as int + 1) =~= notes@.take(k as int).push(nt));
        }
        k = k + 1;
    }
    proof {
        assert(notes@.take(n as int) =~= notes@);
    }
    out
}

/// The lane list a grid serializes back to: one note per occupied head cell,
/// a tap for a lone cell, a hold spanning up to the connected tail.
pub open spec fn gen_from(grid: Seq<GameKey>, j: int) -> Seq<Note>
    decreases grid.len() - j,
{
    if j < 0 || j >= grid.len() {
        Seq::empty()
    } else {
        (match (grid[j].flag, grid[j].connected) {
            (Some(_), Some(con)) => if j < con {
                seq![Note { time: j as u128, holding: (con - j) as u128 }]
            } else {
                Seq::empty()
            },
            (Some(_), None) => seq![Note { time: j as u128, holding: 0 }],
            (None, _) => Seq::empty(),
        }) + gen_from(grid, j + 1)
    }
}

/// Reads one lane's grid back into its persisted note list.
pub fn generate_lane(grid: &Vec<GameKey>) -> (out: Vec<Note>)
    ensures
        out@ == gen_from(grid@, 0),
{
    let n = grid.len();
    let mut out: Vec<Note> = Vec::new();
    let mut j: usize = 0;
    proof {
        assert(Seq::<Note>::empty() + gen_from(grid@, 0) =~= gen_from(grid@, 0));
    }
    while j < n
        invariant
            j <= n,
            n == grid@.len(),
            out@ + gen_from(grid@, j as int) == gen_from(grid@, 0),
        decreases n - j,
    {
        let ghost pre = out@;
        let cell = grid[j];
        match (cell.flag, cell.connected) {
            (Some(_), Some(con)) => {
                if j < con {
                    out.push(Note { time: j as u128, holding: (con - j) as u128 });
                }
            },
            (Some(_), None) => {
                out.push(Note { time: j as u128, holding: 0 });
            },
            (None, _) => {},
        }
        proof {
            let piece = match (grid@[j as int].flag, grid@[j as int].connected) {
                (Some(f), Some(con)) => if j < con {
                    seq![Note { time: j as u128, holding: (con - j) as u128 }]
                } else {
                    Seq::<Note>::empty()
                },
                (Some(f), None) => seq![Note { time: j as u128, holding: 0u128 }],
                (None, _) => Seq::<Note>::empty(),
            };
            assert(out@ =~= pre + piece);
            assert(gen_from(grid@, j as int) == piece + gen_from(grid@, j as int + 1));
            assert(pre + (piece + gen_from(grid@, j as int + 1)) =~= (pre + piece) + gen_from(
                grid@,
                j as int + 1,
            ));
        }
        j = j + 1;
    }
    proof {
        assert(gen_from(grid@, n as int) == Seq::<Note>::empty());
        assert(out@ + Seq::<Note>::empty() =~= out@);
    }
    out
}

/// Places a tap note at cell `j`, overwriting whatever occupied the cell.
pub fn insert_note(grid: &mut Vec<GameKey>, j: usize, flag: KeyFlag)
    requires
        j < old(grid)@.len(),
    ensures
        final(grid)@ == old(grid)@.update(j as int, tap_cell(j as int, flag)),
{
    grid[j] = GameKey {
        mili: j as u128,
        holding: false,
        flag: Some(flag),
        connected: None,
        active: true,
        muted: false,
    };
    proof {
        assert(grid@ =~= old(grid)@.update(j as int, tap_cell(j as int, flag)));
    }
}

/// Deletes the selected cell, clearing the far end of a hold first so no
/// dangling back-reference survives.
pub fn delete_key(selected: &Selected, empty_note: GameKey, lane: &mut Vec<GameKey>)
    requires
        selected.key < old(lane)@.len(),
    ensures
        ({
            let cleared = match old(lane)@[selected.key as int].connected {
                Some(con) => if con > selected.key && con < old(lane)@.len() {
                    old(lane)@.update(con as int, empty_note)
                } else {
                    old(lane)@
                },
                None => old(lane)@,
            };
            final(lane)@ == cleared.update(selected.key as int, empty_note)
        }),
{
    match lane[selected.key].connected {
        Some(con) => {
            if con > selected.key && con < lane.len() {
                lane[con] = empty_note;
            }
        },
        None => {},
    }
    lane[selected.key] = empty_note;
}

/// Moves the selected cell onto another cell by swapping the two, then
/// repoints the moved hold end's partner at its new index.
pub fn move_key(lane: &mut Vec<GameKey>, from: usize, to: usize)
    requires
        from < old(lane)@.len(),
        to < old(lane)@.len(),
    ensures
        ({
            let swapped = old(lane)@.update(from as int, old(lane)@[to as int]).update(
                to as int,
                old(lane)@[from as int],
            );
            final(lane)@ == (match old(lane)@[from as int].connected {
                Some(con) => if con < old(lane)@.len() && con != from && con != to {
                    swapped.update(
                        con as int,
                        GameKey { connected: Some(to), ..old(lane)@[con as int] },
                    )
                } else {
                    swapped
                },
                None => swapped,
            })
        }),
{
    let a = lane[from];
    let b = lane[to];
    lane[from] = b;
    lane[to] = a;
    match a.connected {
        Some(con) => {
            if con < lane.len() && con != from && con != to {
                let partner = lane[con];
                lane[con] = GameKey { connected: Some(to), ..partner };
            }
        },
        None => {},
    }
}

/// The editor session: the four dense lane grids and the song they came
/// from, plus the selection and view state.
pub struct GameLogic {
    pub keys_left: Vec<GameKey>,
    pub keys_up: Vec<GameKey>,
    pub keys_bottom: Vec<GameKey>,
    pub keys_right: Vec<GameKey>,
    pub song_game: Song,
    pub start_index: u128,
    pub start_point: u128,
    pub add_key: bool,
    pub add_holding: AddHolding,
    pub selected_object: Option<Selected>,
    pub error: bool,
    pub end: u128,
}

impl GameLogic {
    /// Opens a song for editing: every lane becomes a dense grid with one
    /// cell per tick.
    pub fn new(song: Song, error: bool) -> (g: GameLogic)
        requires
            crate::song::song_wf(song@),
            song.end <= usize::MAX as u128,
        ensures
            g.keys_left@.len() == song.end && forall|j: int|
                0 <= j < song.end ==> g.keys_left@[j] == edit_cell(
                    song.left_keys@,
                    j,
                    KeyFlag::Left,
                ),
            g.keys_up@.len() == song.end && forall|j: int|
                0 <= j < song.end ==> g.keys_up@[j] == edit_cell(song.up_keys@, j, KeyFlag::Up),
            g.keys_bottom@.len() == song.end && forall|j: int|
                0 <= j < song.end ==> g.keys_bottom@[j] == edit_cell(
                    song.bottom_keys@,
                    j,
                    KeyFlag::Bottom,
                ),
            g.keys_right@.len() == song.end && forall|j: int|
                0 <= j < song.end ==> g.keys_right@[j] == edit_cell(
                    song.right_keys@,
                    j,
                    KeyFlag::Right,
                ),
            g.song_game == song,
            g.end == song.end,
            g.error == error,
            g.start_index == 0,
            g.start_point == 300,
            g.selected_object is None,
    {
        let end = song.end as usize;
        let keys_left = build_edit_lane(&song.left_keys, end, KeyFlag::Left);
        let keys_up = build_edit_lane(&song.up_keys, end, KeyFlag::Up);
        let keys_bottom = build_edit_lane(&song.bottom_keys, end, KeyFlag::Bottom);
        let keys_right = build_edit_lane(&song.right_keys, end, KeyFlag::Right);
        let song_end = song.end;
        GameLogic {
            keys_left,
            keys_up,
            keys_bottom,
            keys_right,
            song_game: song,
            start_index: 0,
            start_point: 300,
            add_key: false,
            add_holding: AddHolding { can_add: false, add: false },
            selected_object: None,
            error,
            end: song_end,
        }
    }

    /// Reads the grids back into the persisted song shape, keeping every
    /// field the editor does not touch.
    pub fn generate_array(&self) -> (s: Song)
        ensures
            s.name@ == self.song_game.name@,
            s.id == self.song_game.id,
            s.left_keys@ == gen_from(self.keys_left@, 0),
            s.up_keys@ == gen_from(self.keys_up@, 0),
            s.bottom_keys@ == gen_from(self.keys_bottom@, 0),
            s.right_keys@ == gen_from(self.keys_right@, 0),
            s.end == self.song_game.end,
            s.sync == self.song_game.sync,
            s.bpm == self.song_game.bpm,
    {
        Song {
            name: self.song_game.name.clone(),
            id: self.song_game.id,
            left_keys: generate_lane(&self.keys_left),
            up_keys: generate_lane(&self.keys_up),
            bottom_keys: generate_lane(&self.keys_bottom),
            right_keys: generate_lane(&self.keys_right),
            end: self.song_game.end,
            sync: self.song_game.sync,
            bpm: self.song_game.bpm,
        }
    }
}

} // verus!
