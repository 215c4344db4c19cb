//! The state behind the player's window, and the commands that its controls send.
use vstd::prelude::*;
use crate::command::Command;
use crate::gui::config::Config;

pub mod config;
pub mod image;

verus! {

/// A track as the mixer shows it.
pub struct TrackControl {
    pub id: usize,
    pub name: String,
    pub config: Config,
}

/// The state of the window: the song, its tracks, and whether playback is paused.
pub struct GuiState {
    pub song_name: String,
    pub tracks: Vec<TrackControl>,
    pub paused: bool,
}

impl GuiState {
    /// The window of a song whose tracks have the given numbers and names, in
    /// that order; every track starts with the default settings, and playback
    /// is not paused.
    pub fn new(song_name: String, track_names: &Vec<(usize, String)>) -> (r: GuiState)
        ensures
            r.song_name@ == song_name@,
            r.tracks@.len() == track_names@.len(),
            forall|k: int|
                0 <= k < track_names@.len() ==> (#[trigger] r.tracks@[k]).id == track_names@[k].0
                    && r.tracks@[k].name@ == track_names@[k].1@ && r.tracks@[k].config == (Config {
                    volume: 63,
                    muted: false,
                    pan: 63,
                }),
            !r.paused,
    {
        let mut tracks: Vec<TrackControl> = Vec::new();
        let n = track_names.len();
        for k in 0..n
            invariant
                n == track_names@.len(),
                tracks@.len() == k,
                forall|k2: int|
                    0 <= k2 < k ==> (#[trigger] tracks@[k2]).id == track_names@[k2].0
                        && tracks@[k2].name@ == track_names@[k2].1@ && tracks@[k2].config == (
                    Config { volume: 63, muted: false, pan: 63 }),
        {
            let name = track_names[k].1.clone();
            tracks.push(TrackControl { id: track_names[k].0, name, config: Config::default() });
        }
        GuiState { song_name, tracks, paused: false }
    }

    /// The positions of the tracks that the mixer shows: every track but the
    /// first, which carries the song's own data.
    pub fn mixer_tracks(&self) -> (r: Vec<usize>)
        ensures
            self.tracks@.len() == 0 ==> r@.len() == 0,
            self.tracks@.len() > 0 ==> r@.len() == self.tracks@.len() - 1,
            forall|k: int| 0 <= k < r@.len() ==> #[trigger] r@[k] == k + 1,
    {
        let mut r: Vec<usize> = Vec::new();
        let n = self.tracks.len();
        let mut k: usize = 1;
        while k < n
            invariant
                1 <= k,
                n == self.tracks@.len(),
                k <= n || (n == 0 && k == 1),
                r@.len() == k - 1,
                forall|k2: int| 0 <= k2 < r@.len() ==> #[trigger] r@[k2] == k2 + 1,
            decreases n - k,
        {
            r.push(k);
            k = k + 1;
        }
        r
    }

    /// The pause button was toggled: playback pauses if it was playing and
    /// resumes if it was paused.
    pub fn toggle_pause(&mut self) -> (c: Command)
        ensures
            final(self).paused == !old(self).paused,
            final(self).tracks@ == old(self).tracks@,
            final(self).song_name@ == old(self).song_name@,
            c == (if final(self).paused {
                Command::Pause
            } else {
                Command::Play
            }),
    {
        self.paused = !self.paused;
        if self.paused {
            Command::Pause
        } else {
            Command::Play
        }
    }

    /// The mute button of the track at position `k` was set to `muted`.
    pub fn set_muted(&mut self, k: usize, muted: bool) -> (c: Command)
        requires
            k < old(self).tracks@.len(),
        ensures
            final(self).paused == old(self).paused,
            final(self).song_name@ == old(self).song_name@,
            final(self).tracks@.len() == old(self).tracks@.len(),
            forall|k2: int|
                0 <= k2 < old(self).tracks@.len() && k2 != k ==> #[trigger] final(self).tracks@[k2]
                    == old(self).tracks@[k2],
            final(self).tracks@[k as int].id == old(self).tracks@[k as int].id,
            final(self).tracks@[k as int].name == old(self).tracks@[k as int].name,
            final(self).tracks@[k as int].config == (Config {
                muted,
                ..old(self).tracks@[k as int].config
            }),
            c == Command::Muted(old(self).tracks@[k as int].id, muted),
    {
        let id = self.tracks[k].id;
        self.tracks[k].config.muted = muted;
        Command::Muted(id, muted)
    }

    /// The volume slider of the track at position `k` was set to `volume`.
    pub fn set_volume(&mut self, k: usize, volume: u8) -> (c: Command)
        requires
            k < old(self).tracks@.len(),
        ensures
            final(self).paused == old(self).paused,
            final(self).song_name@ == old(self).song_name@,
            final(self).tracks@.len() == old(self).tracks@.len(),
            forall|k2: int|
                0 <= k2 < old(self).tracks@.len() && k2 != k ==> #[trigger] final(self).tracks@[k2]
                    == old(self).tracks@[k2],
            final(self).tracks@[k as int].id == old(self).tracks@[k as int].id,
            final(self).tracks@[k as int].name == old(self).tracks@[k as int].name,
            final(self).tracks@[k as int].config == (Config {
                volume,
                ..old(self).tracks@[k as int].config
            }),
            c == Command::Volume(old(self).tracks@[k as int].id, volume),
    {
        let id = self.tracks[k].id;
        self.tracks[k].config.volume = volume;
        Command::Volume(id, volume)
    }
}

} // verus!
