use stemmefil::parse::smf::{decode_tracks, first_track_name, track_names};
use stemmefil::parse::{
    ignored_tempo_events, indexed_timed_events, merge_tracks, parse_to_indexed_timed_events,
    parse_to_indexed_timed_messages, ticked_events, time_events, timed_messages, EventKind,
    Format, Header, LoadError, MidiMessage, Timing, TrackEvent,
};
use stemmefil::parse::safe_timing::SafeTiming;

fn chunk(tag: &[u8], body: &[u8]) -> Vec<u8> {
    let mut v = tag.to_vec();
    v.extend_from_slice(&(body.len() as u32).to_be_bytes());
    v.extend_from_slice(body);
    v
}

fn file(format: u16, tracks: &[Vec<u8>]) -> Vec<u8> {
    let mut header = Vec::new();
    header.extend_from_slice(&format.to_be_bytes());
    header.extend_from_slice(&(tracks.len() as u16).to_be_bytes());
    header.extend_from_slice(&96u16.to_be_bytes());
    let mut v = chunk(b"MThd", &header);
    for t in tracks {
        v.extend(chunk(b"MTrk", t));
    }
    v
}

fn conductor() -> Vec<u8> {
    let mut t = vec![0x00, 0xFF, 0x03, 9];
    t.extend_from_slice(b"Conductor");
    t.extend_from_slice(&[0x00, 0xFF, 0x51, 0x03, 0x07, 0xA1, 0x20]);
    t.extend_from_slice(&[0x00, 0xFF, 0x2F, 0x00]);
    t
}

fn piano() -> Vec<u8> {
    let mut t = vec![0x00, 0xFF, 0x03, 5];
    t.extend_from_slice(b"Piano");
    t.extend_from_slice(&[0x00, 0x90, 0x3C, 0x40]);
    t.extend_from_slice(&[0x60, 0x80, 0x3C, 0x40]);
    t.extend_from_slice(&[0x00, 0xFF, 0x2F, 0x00]);
    t
}

fn ev(delta: u32, kind: EventKind) -> TrackEvent {
    TrackEvent { delta, kind }
}

#[test]
fn decodes_header_and_tracks() {
    let bytes = file(1, &[conductor(), piano()]);
    let (header, tracks) = decode_tracks(&bytes).unwrap();
    assert_eq!(header, Header { format: Format::Parallel, timing: Timing::Metrical(96) });
    assert_eq!(tracks.len(), 2);
    assert_eq!(
        tracks[0],
        vec![ev(0, EventKind::Other), ev(0, EventKind::Tempo(500_000)), ev(0, EventKind::Other)]
    );
    assert_eq!(
        tracks[1],
        vec![
            ev(0, EventKind::Other),
            ev(0, EventKind::Midi { channel: 0, message: MidiMessage::NoteOn { key: 60, vel: 64 } }),
            ev(96, EventKind::Midi { channel: 0, message: MidiMessage::NoteOff { key: 60, vel: 64 } }),
            ev(0, EventKind::Other),
        ]
    );
}

#[test]
fn decodes_every_channel_message() {
    let mut t = Vec::new();
    t.extend_from_slice(&[0x00, 0xA5, 0x10, 0x20]);
    t.extend_from_slice(&[0x00, 0xB5, 0x07, 0x64]);
    t.extend_from_slice(&[0x00, 0xC5, 0x05]);
    t.extend_from_slice(&[0x00, 0xD5, 0x30]);
    t.extend_from_slice(&[0x00, 0xE5, 0x01, 0x40]);
    t.extend_from_slice(&[0x00, 0xFF, 0x2F, 0x00]);
    let bytes = file(1, &[t]);
    let (_, tracks) = decode_tracks(&bytes).unwrap();
    let kinds: Vec<EventKind> = tracks[0].iter().map(|e| e.kind).collect();
    assert_eq!(
        kinds,
        vec![
            EventKind::Midi { channel: 5, message: MidiMessage::Aftertouch { key: 0x10, vel: 0x20 } },
            EventKind::Midi { channel: 5, message: MidiMessage::Controller { controller: 7, value: 0x64 } },
            EventKind::Midi { channel: 5, message: MidiMessage::ProgramChange { program: 5 } },
            EventKind::Midi { channel: 5, message: MidiMessage::ChannelAftertouch { vel: 0x30 } },
            EventKind::Midi { channel: 5, message: MidiMessage::PitchBend { bend: 0x2001 } },
            EventKind::Other,
        ]
    );
}

#[test]
fn timecode_header_is_decoded() {
    let mut header = Vec::new();
    header.extend_from_slice(&1u16.to_be_bytes());
    header.extend_from_slice(&1u16.to_be_bytes());
    header.extend_from_slice(&[0xE7, 40]);
    let mut bytes = chunk(b"MThd", &header);
    bytes.extend(chunk(b"MTrk", &[0x00, 0xFF, 0x2F, 0x00]));
    let (h, _) = decode_tracks(&bytes).unwrap();
    assert_eq!(h.timing, Timing::Timecode(25, 40));
}

#[test]
fn garbage_is_not_a_midi_file() {
    assert_eq!(decode_tracks(b"not a midi file").unwrap_err(), LoadError::Parse);
    assert_eq!(parse_to_indexed_timed_events(b"MThd").unwrap_err(), LoadError::Parse);
    assert_eq!(track_names(b"").unwrap_err(), LoadError::Parse);
}

#[test]
fn whole_file_is_merged_and_timed() {
    let bytes = file(1, &[conductor(), piano()]);
    let events = parse_to_indexed_timed_events(&bytes).unwrap();
    let on = EventKind::Midi { channel: 0, message: MidiMessage::NoteOn { key: 60, vel: 64 } };
    let off = EventKind::Midi { channel: 0, message: MidiMessage::NoteOff { key: 60, vel: 64 } };
    assert_eq!(
        events,
        vec![
            (0, 0, EventKind::Other),
            (0, 0, EventKind::Tempo(500_000)),
            (0, 0, EventKind::Other),
            (1, 0, EventKind::Other),
            (1, 0, on),
            (1, 96 * 5208, off),
            (1, 96 * 5208, EventKind::Other),
        ]
    );
    let messages = parse_to_indexed_timed_messages(&bytes).unwrap();
    assert_eq!(
        messages,
        vec![
            (1, 0, MidiMessage::NoteOn { key: 60, vel: 64 }),
            (1, 499_968, MidiMessage::NoteOff { key: 60, vel: 64 }),
        ]
    );
}

#[test]
fn single_track_files_are_refused() {
    let bytes = file(0, &[piano()]);
    assert_eq!(parse_to_indexed_timed_events(&bytes).unwrap_err(), LoadError::NotParallel);
}

#[test]
fn track_names_are_the_first_name_events() {
    let bytes = file(1, &[conductor(), piano(), vec![0x00, 0xFF, 0x2F, 0x00]]);
    let names = track_names(&bytes).unwrap();
    assert_eq!(names, vec![(0, b"Conductor".to_vec()), (1, b"Piano".to_vec())]);
}

#[test]
fn ticks_are_running_sums_of_deltas() {
    let track = vec![ev(3, EventKind::Other), ev(0, EventKind::Tempo(7)), ev(5, EventKind::Other)];
    assert_eq!(
        ticked_events(&track),
        Some(vec![(3, EventKind::Other), (3, EventKind::Tempo(7)), (8, EventKind::Other)])
    );
    assert_eq!(ticked_events(&vec![]), Some(vec![]));
}

#[test]
fn ticks_that_overflow_are_refused() {
    let track = vec![ev(u32::MAX, EventKind::Other), ev(1, EventKind::Other)];
    assert_eq!(ticked_events(&track), None);
    let tracks = vec![vec![ev(1, EventKind::Other)], track];
    let h = Header { format: Format::Parallel, timing: Timing::Metrical(96) };
    assert_eq!(indexed_timed_events(&h, &tracks), Err(LoadError::TickOverflow));
}

#[test]
fn merge_orders_by_tick_then_track_then_place() {
    let tracks = vec![
        vec![(5, EventKind::Other), (10, EventKind::Tempo(2))],
        vec![(5, EventKind::Tempo(1)), (7, EventKind::Other), (10, EventKind::Other)],
        vec![],
        vec![(0, EventKind::Other)],
    ];
    assert_eq!(
        merge_tracks(&tracks),
        vec![
            (3, 0, EventKind::Other),
            (0, 5, EventKind::Other),
            (1, 5, EventKind::Tempo(1)),
            (1, 7, EventKind::Other),
            (0, 10, EventKind::Tempo(2)),
            (1, 10, EventKind::Other),
        ]
    );
    assert_eq!(merge_tracks(&vec![]), vec![]);
}

#[test]
fn tempo_applies_to_later_events() {
    let events = vec![
        (0, 0, EventKind::Other),
        (0, 10, EventKind::Tempo(2_000_000)),
        (1, 20, EventKind::Other),
        (1, 15, EventKind::Other),
    ];
    // 10 ticks at 1_000_000 / 100, then 10 ticks at 2_000_000 / 100; a smaller tick counts as none
    assert_eq!(
        time_events(&events, SafeTiming::Metrical(1_000_000, 100)),
        Ok(vec![
            (0, 0, EventKind::Other),
            (0, 100_000, EventKind::Tempo(2_000_000)),
            (1, 300_000, EventKind::Other),
            (1, 300_000, EventKind::Other),
        ])
    );
}

#[test]
fn zero_ticks_per_beat_is_refused() {
    let events = vec![(0, 0, EventKind::Other)];
    assert_eq!(time_events(&events, SafeTiming::Metrical(1_000_000, 0)), Err(LoadError::ZeroDivisor));
    assert_eq!(time_events(&vec![], SafeTiming::Metrical(1_000_000, 0)), Ok(vec![]));
    let h = Header { format: Format::Parallel, timing: Timing::Timecode(25, 0) };
    assert_eq!(indexed_timed_events(&h, &vec![]), Err(LoadError::ZeroDivisor));
}

#[test]
fn times_that_overflow_are_refused() {
    let events = vec![(0, 0, EventKind::Other), (0, 2, EventKind::Other)];
    assert_eq!(time_events(&events, SafeTiming::Explicit(u32::MAX)), Err(LoadError::TimeOverflow));
}

#[test]
fn other_formats_are_refused() {
    let h = Header { format: Format::Sequential, timing: Timing::Metrical(96) };
    assert_eq!(indexed_timed_events(&h, &vec![]), Err(LoadError::NotParallel));
}

#[test]
fn timed_messages_keep_channel_messages_in_order() {
    let m = MidiMessage::ProgramChange { program: 3 };
    let events = vec![
        (0, 5, EventKind::Tempo(1)),
        (2, 6, EventKind::Midi { channel: 9, message: m }),
        (1, 7, EventKind::Other),
    ];
    assert_eq!(timed_messages(&events), vec![(2, 6, m)]);
}

#[test]
fn a_track_is_named_by_its_first_name_event() {
    assert_eq!(first_track_name(vec![None, Some(b"A".to_vec()), None, Some(b"B".to_vec())]), Some(b"A".to_vec()));
    assert_eq!(first_track_name(vec![None, None]), None);
    assert_eq!(first_track_name(vec![]), None);
}

#[test]
fn timecode_files_ignore_their_tempo_events() {
    let events = vec![
        (0, 0, EventKind::Tempo(500_000)),
        (1, 0, EventKind::Other),
        (0, 10, EventKind::Tempo(400_000)),
    ];
    let timecode = Header { format: Format::Parallel, timing: Timing::Timecode(25, 40) };
    let metrical = Header { format: Format::Parallel, timing: Timing::Metrical(96) };
    assert_eq!(ignored_tempo_events(&timecode, &events), 2);
    assert_eq!(ignored_tempo_events(&metrical, &events), 0);
}
