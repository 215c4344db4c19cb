# stemmefil

A rehearsal player for multi-track MIDI files: it plays a Standard MIDI File
through a MIDI output port, and its window lets the user pause, jump, and mute
or change the volume of each voice.

- `src/` is the verified library (Verus):
  - `parse` decodes the file with `midly`, turns the delta times of each track
    into absolute ticks, merges the tracks by tick (then track, then place),
    and times every event in microseconds, following the tempo events;
  - `conn` encodes the channel messages that are sent, and chooses the port;
  - `play` holds the player's decisions: where a jump restarts, what each
    message sends, and how each command changes the player;
  - `gui` holds the window's state and the commands its controls send, and
    decodes pictures for the window with `image`.
- `app/` is the program around it: the MIDI connection (`midir`), the window
  (`eframe`), and the playback loop that sleeps, polls the window and sends.
- `tests/` runs the library on concrete files and values.
