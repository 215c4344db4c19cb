use stemmefil::command::Command;
use stemmefil::gui::config::Config;
use stemmefil::gui::GuiState;

#[test]
fn default_track_settings() {
    assert_eq!(Config::default(), Config { volume: 63, muted: false, pan: 63 });
}

fn state() -> GuiState {
    GuiState::new(
        "Song".to_string(),
        &vec![(0, "Song".to_string()), (1, "Soprano".to_string()), (2, "Alto".to_string())],
    )
}

#[test]
fn window_starts_playing_with_default_settings() {
    let s = state();
    assert_eq!(s.song_name, "Song");
    assert!(!s.paused);
    assert_eq!(s.tracks.len(), 3);
    assert_eq!(s.tracks[1].name, "Soprano");
    assert_eq!(s.tracks[2].id, 2);
    assert_eq!(s.tracks[2].config, Config::default());
    assert_eq!(s.mixer_tracks(), vec![1, 2]);
}

#[test]
fn pause_button_alternates() {
    let mut s = state();
    assert_eq!(s.toggle_pause(), Command::Pause);
    assert!(s.paused);
    assert_eq!(s.toggle_pause(), Command::Play);
    assert!(!s.paused);
}

#[test]
fn mixer_controls_send_commands() {
    let mut s = state();
    assert_eq!(s.set_muted(1, true), Command::Muted(1, true));
    assert!(s.tracks[1].config.muted);
    assert!(!s.tracks[2].config.muted);
    assert_eq!(s.set_volume(2, 100), Command::Volume(2, 100));
    assert_eq!(s.tracks[2].config.volume, 100);
    assert_eq!(s.set_muted(1, false), Command::Muted(1, false));
}

#[test]
fn empty_song_has_no_mixer_tracks() {
    let s = GuiState::new("x".to_string(), &vec![]);
    assert!(s.mixer_tracks().is_empty());
}
