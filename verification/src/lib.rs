pub mod calibration;
pub mod clock;
pub mod codec;
pub mod editor;
pub mod key;
pub mod keybutton;
pub mod play;
pub mod song;
pub mod state;

use vstd::prelude::*;

verus! {

/// A tick is the fixed 10 ms time unit used for all note timestamps and
/// scoring arithmetic.
pub const MS_PER_TICK: u128 = 10;

/// Milliseconds, converted to whole ticks.
pub fn ms_to_ticks(ms: u128) -> (r: u128)
    ensures
        r == ms / MS_PER_TICK,
{
    ms / MS_PER_TICK
}

} // verus!
