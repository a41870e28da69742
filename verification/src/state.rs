use vstd::prelude::*;

use crate::song::Song;

verus! {

/// The application's screen state machine.  Every transition constructs the
/// destination screen's state anew on entry.
#[derive(Clone, Copy, Debug, PartialEq, Eq, Structural)]
pub enum GameState {
    MainMenu,
    Settings,
    Playing,
    Editing,
    Calibrating,
    ManualCalibrating,
    Controlers,
    Quitting,
    SelectingSong,
    SongCalibration,
}

/// The top-level session: whether the process keeps running, which screen is
/// active, and which song directory is selected.
pub struct AppState {
    pub is_running: bool,
    pub state: GameState,
    pub song_folder: Option<String>,
}

/// Which audio visualizers are enabled.  The visualizer reads audio capture
/// data only; no gameplay state crosses that boundary.
#[derive(Clone, Copy, Debug, PartialEq, Eq, Structural)]
pub struct Visualizer {
    pub bars: bool,
    pub circle: bool,
}

/// The persisted controller settings: four platform key-codes for the lanes
/// back/left, up, down, select/right, in that positional order.  The engine
/// never interprets the raw codes.
#[derive(Clone, Copy, Debug, PartialEq, Eq)]
pub struct GameController {
    pub controller_array: [i32; 4],
}

/// A test-play request from the editor: the song as currently edited and the
/// tick to start playback from.
pub struct Testing {
    pub song: Song,
    pub start_point: u128,
}

/// Moves a menu selection one entry up, stopping at the first entry.
pub fn menu_up(actual: usize) -> (r: usize)
    ensures
        r == if actual > 0 {
            actual - 1
        } else {
            0
        },
{
    if actual > 0 {
        actual - 1
    } else {
        0
    }
}

/// Moves a menu selection one entry down, stopping at the last entry.
pub fn menu_down(actual: usize, len: usize) -> (r: usize)
    ensures
        r == if actual + 1 < len {
            actual + 1
        } else {
            actual as int
        },
{
    if len > 0 && actual < len - 1 {
        actual + 1
    } else {
        actual
    }
}

/// Moves a list selection one entry up, wrapping to the last entry.
pub fn select_up(actual: usize, len: usize) -> (r: usize)
    requires
        len > 0,
    ensures
        r == if actual > 0 {
            actual - 1
        } else {
            len - 1
        },
{
    if actual > 0 {
        actual - 1
    } else {
        len - 1
    }
}

/// Moves a list selection one entry down, wrapping to the first entry.
pub fn select_down(actual: usize, len: usize) -> (r: usize)
    requires
        len > 0,
    ensures
        r == if actual + 1 < len {
            actual + 1
        } else {
            0
        },
{
    if actual < len - 1 {
        actual + 1
    } else {
        0
    }
}

/// The main menu's choice: play, settings or quit.
pub fn main_menu_select(actual: usize) -> (s: GameState)
    ensures
        s == if actual == 0 {
            GameState::SelectingSong
        } else if actual == 1 {
            GameState::Settings
        } else {
            GameState::Quitting
        },
{
    if actual == 0 {
        GameState::SelectingSong
    } else if actual == 1 {
        GameState::Settings
    } else {
        GameState::Quitting
    }
}

/// The settings menu's choice: controller mapping, guided calibration or
/// manual calibration; anything past those goes back to the main menu.
pub fn settings_select(actual: usize) -> (s: GameState)
    ensures
        s == if actual == 0 {
            GameState::Controlers
        } else if actual == 1 {
            GameState::Calibrating
        } else if actual == 2 {
            GameState::ManualCalibrating
        } else {
            GameState::MainMenu
        },
{
    if actual == 0 {
        GameState::Controlers
    } else if actual == 1 {
        GameState::Calibrating
    } else if actual == 2 {
        GameState::ManualCalibrating
    } else {
        GameState::MainMenu
    }
}

} // verus!
