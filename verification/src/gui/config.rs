use vstd::prelude::*;

verus! {

/// The mixer settings of a track.
#[derive(Clone, Copy, Debug, PartialEq, Eq, Structural)]
pub struct Config {
    pub volume: u8,
    pub muted: bool,
    pub pan: u8,
}

impl Default for Config {
    /// Half volume, not muted, panned to the middle.
    fn default() -> (r: Self)
        ensures
            r == (Config { volume: 63, muted: false, pan: 63 }),
    {
        Config { volume: 63, muted: false, pan: 63 }
    }
}

} // verus!
