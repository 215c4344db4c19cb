//! Playback core of a multi-track MIDI rehearsal player: decoding a Standard
//! MIDI File into one time-ordered list of events, encoding the channel
//! messages that are sent to a synthesizer, and the player's reactions to the
//! user's commands.
pub mod command;
pub mod conn;
pub mod gui;
pub mod parse;
pub mod play;
