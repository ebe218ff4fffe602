//! What one turn of the program's loop has to do.

use crate::events::SessionState;
use vstd::prelude::*;

verus! {

/// The seconds between two ticks of the timer.
pub const TICK_SECONDS: u64 = 1;

/// The seconds between two saves.
pub const SAVE_SECONDS: u64 = 60;

/// The work of one turn of the loop, in the order in which it is done.
#[derive(Clone, Copy, Debug, PartialEq, Eq, Structural)]
pub enum Turn {
    /// Save, then leave the loop.
    Leave,
    /// Go on: read the changed file anew, advance the timer, save; each only
    /// where it is due. Drawing and the next key follow.
    Work { reparse: bool, tick: bool, save: bool },
}

/// The work of the next turn: a session that is quitting saves and leaves;
/// any other reads the file anew if it changed, ticks once a second has
/// passed since the last tick, and saves once a minute has passed since the
/// last save.
pub fn plan(
    state: SessionState,
    file_changed: bool,
    seconds_since_tick: u64,
    seconds_since_save: u64,
) -> (turn: Turn)
    ensures
        turn == if state == SessionState::Quitting {
            Turn::Leave
        } else {
            Turn::Work {
                reparse: file_changed,
                tick: seconds_since_tick >= TICK_SECONDS,
                save: seconds_since_save >= SAVE_SECONDS,
            }
        },
{
    if state == SessionState::Quitting {
        Turn::Leave
    } else {
        Turn::Work {
            reparse: file_changed,
            tick: seconds_since_tick >= TICK_SECONDS,
            save: seconds_since_save >= SAVE_SECONDS,
        }
    }
}

} // verus!
