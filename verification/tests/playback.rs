use stemmefil::command::Command;
use stemmefil::parse::MidiMessage;
use stemmefil::play::{encode_message, starting_index, PlayError, Player};

fn on(key: u8) -> MidiMessage {
    MidiMessage::NoteOn { key, vel: 100 }
}

#[test]
fn starting_index_is_the_last_message_before_the_time() {
    let m = vec![(0, 0, on(1)), (0, 10, on(2)), (0, 20, on(3)), (0, 20, on(4)), (0, 30, on(5))];
    assert_eq!(starting_index(&m, 0), 0);
    assert_eq!(starting_index(&m, 5), 0);
    assert_eq!(starting_index(&m, 10), 0);
    assert_eq!(starting_index(&m, 11), 1);
    assert_eq!(starting_index(&m, 20), 1);
    assert_eq!(starting_index(&m, 25), 3);
    assert_eq!(starting_index(&m, 100), 4);
    assert_eq!(starting_index(&[], 7), 0);
    assert_eq!(starting_index(&m[..1], 7), 0);
}

#[test]
fn starting_index_follows_the_search_on_unordered_messages() {
    let m = vec![(0, 30, on(1)), (0, 0, on(2)), (0, 20, on(3)), (0, 10, on(4))];
    assert_eq!(starting_index(&m, 15), 1);
    assert_eq!(starting_index(&m, 25), 3);
}

#[test]
fn nothing_plays_while_paused() {
    let mut p = Player::new(vec![(0, 0, on(60)), (0, 10, on(61))]);
    p.handle_command(Command::Pause).unwrap();
    assert_eq!(p.play_next(), Ok(None));
    assert_eq!(p.play_next(), Ok(None));
    assert_eq!(p.current_index(), 0);
    assert_eq!(p.current_time(), 0);
    p.handle_command(Command::Play).unwrap();
    assert_eq!(p.play_next(), Ok(Some(vec![144, 60, 100])));
}

#[test]
fn messages_are_encoded_on_the_track_channel() {
    assert_eq!(encode_message(2, on(60)), Some(vec![146, 60, 100]));
    assert_eq!(encode_message(2, MidiMessage::PitchBend { bend: 100 }), Some(vec![226, 100, 0]));
    assert_eq!(encode_message(2, MidiMessage::PitchBend { bend: 8192 }), Some(vec![226, 0, 64]));
    assert_eq!(encode_message(2, MidiMessage::PitchBend { bend: 16384 }), None);
    assert_eq!(encode_message(32, MidiMessage::PitchBend { bend: 0 }), None);
    assert_eq!(encode_message(127, MidiMessage::NoteOff { key: 1, vel: 2 }), Some(vec![255, 1, 2]));
    assert_eq!(encode_message(128, MidiMessage::NoteOff { key: 1, vel: 2 }), None);
}

#[test]
fn playback_walks_the_messages_and_wraps_around() {
    let mut p = Player::new(vec![(0, 0, on(60)), (1, 500, MidiMessage::NoteOff { key: 60, vel: 0 })]);
    assert_eq!(p.end_time(), 500);
    assert_eq!(p.sleep_micros(), 0);
    assert_eq!(p.play_next(), Ok(Some(vec![144, 60, 100])));
    assert_eq!(p.current_index(), 1);
    assert_eq!(p.sleep_micros(), 500);
    assert_eq!(p.play_next(), Ok(Some(vec![129, 60, 0])));
    assert_eq!(p.current_time(), 500);
    assert_eq!(p.current_index(), 0);
    assert_eq!(p.sleep_micros(), 0);
}

#[test]
fn muted_tracks_play_no_notes() {
    let mut p = Player::new(vec![(3, 0, on(60)), (3, 10, MidiMessage::NoteOff { key: 60, vel: 0 })]);
    let r = p.handle_command(Command::Muted(3, true)).unwrap();
    assert_eq!(r.messages, vec![vec![179, 120, 0]]);
    assert!(!r.restart);
    assert!(p.is_muted(3));
    assert_eq!(p.play_next(), Ok(None));
    assert_eq!(p.current_index(), 1);
    // the note-off is still sent
    assert_eq!(p.play_next(), Ok(Some(vec![131, 60, 0])));
    let r = p.handle_command(Command::Muted(3, false)).unwrap();
    assert!(r.messages.is_empty());
    assert!(!p.is_muted(3));
    assert_eq!(p.play_next(), Ok(Some(vec![147, 60, 100])));
}

#[test]
fn pause_silences_and_play_resumes() {
    let mut p = Player::new(vec![(0, 0, on(60))]);
    let r = p.handle_command(Command::Pause).unwrap();
    assert!(p.is_paused());
    assert_eq!(r.messages.len(), 16);
    assert_eq!(r.messages[15], vec![191, 120, 0]);
    let r = p.handle_command(Command::Play).unwrap();
    assert!(!p.is_paused());
    assert!(r.messages.is_empty());
}

#[test]
fn jump_restarts_from_the_search_result() {
    let mut p = Player::new(vec![(0, 0, on(1)), (0, 10, on(2)), (0, 20, on(3))]);
    let r = p.handle_command(Command::Jump(15)).unwrap();
    assert!(r.restart);
    assert_eq!(r.messages.len(), 16);
    assert_eq!(p.current_time(), 15);
    assert_eq!(p.current_index(), 1);
    assert_eq!(p.sleep_micros(), 0);
}

#[test]
fn volume_and_pan_go_to_the_track_channel() {
    let mut p = Player::new(vec![(0, 0, on(1))]);
    assert_eq!(p.handle_command(Command::Volume(2, 90)).unwrap().messages, vec![vec![178, 7, 90]]);
    assert_eq!(p.handle_command(Command::Pan(79, 64)).unwrap().messages, vec![vec![255, 10, 64]]);
}

#[test]
fn commands_for_channels_without_status_byte_are_refused() {
    let mut p = Player::new(vec![(0, 0, on(1))]);
    assert_eq!(p.handle_command(Command::Volume(80, 1)).err(), Some(PlayError::Unencodable));
    assert_eq!(p.handle_command(Command::Muted(200, true)).err(), Some(PlayError::Unencodable));
    assert!(!p.is_muted(200));
    // channels are track numbers truncated to a byte
    assert_eq!(p.handle_command(Command::Pan(256 + 1, 5)).unwrap().messages, vec![vec![177, 10, 5]]);
    let mut q = Player::new(vec![(200, 0, on(1))]);
    assert_eq!(q.play_next(), Err(PlayError::Unencodable));
    assert_eq!(q.current_index(), 0);
}
