use vstd::prelude::*;

verus! {

/// A request from the user interface to the player.
///
/// `Jump` carries the target playback time in microseconds.
#[derive(Clone, Copy, Debug, PartialEq, Eq, Structural)]
pub enum Command {
    Play,
    Pause,
    Muted(usize, bool),
    Volume(usize, u8),
    Jump(u32),
    Pan(usize, u8),
}

} // verus!
