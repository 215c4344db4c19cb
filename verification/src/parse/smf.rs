//! The boundary with the `midly` crate: decoding the bytes of a Standard MIDI
//! File into the header and the tracks of events that playback reads.
use vstd::prelude::*;
use midly::MidiMessage as M;
use midly::TrackEventKind as K;
use crate::parse::{EventKind, Format, Header, LoadError, MidiMessage, Timing, TrackEvent, tracks_view};

verus! {

#[verifier::external_type_specification]
#[verifier::external_body]
pub struct ExSmf<'a>(midly::Smf<'a>);

#[verifier::external_type_specification]
#[verifier::external_body]
pub struct ExMidlyError(midly::Error);

/// An event as `midly` decodes it: the event itself, and the text of the
/// event when it is a track-name meta event.
pub struct EventModel {
    pub event: TrackEvent,
    pub name: Option<Seq<u8>>,
}

/// A file as `midly` decodes it.
pub struct SmfModel {
    pub header: Header,
    pub tracks: Seq<Seq<EventModel>>,
}

/// What `midly::Smf::parse` makes of the given bytes: `None` where it fails.
/// The Standard MIDI File format that it decodes is only named here.
pub uninterp spec fn decoded_smf(bytes: Seq<u8>) -> Option<SmfModel>;

/// What an event kind is, without the message of a channel event.
#[derive(Clone, Copy, Debug, PartialEq, Eq, Structural)]
pub enum EventClass {
    Midi(u8),
    Tempo(u32),
    Other,
}

/// The class of an event kind.
pub open spec fn class_of(kind: EventKind) -> EventClass {
    match kind {
        EventKind::Midi { channel, .. } => EventClass::Midi(channel),
        EventKind::Tempo(t) => EventClass::Tempo(t),
        EventKind::Other => EventClass::Other,
    }
}

/// The message of a channel event with two data bytes.
pub open spec fn two_byte_message_of(kind: EventKind) -> Option<MidiMessage> {
    match kind {
        EventKind::Midi { message, .. } => match message {
            MidiMessage::NoteOff { .. } | MidiMessage::NoteOn { .. } | MidiMessage::Aftertouch { .. }
            | MidiMessage::Controller { .. } => Some(message),
            _ => None,
        },
        _ => None,
    }
}

/// The message of a program change, channel aftertouch or pitch bend event.
pub open spec fn other_message_of(kind: EventKind) -> Option<MidiMessage> {
    match kind {
        EventKind::Midi { message, .. } => match message {
            MidiMessage::ProgramChange { .. } | MidiMessage::ChannelAftertouch { .. }
            | MidiMessage::PitchBend { .. } => Some(message),
            _ => None,
        },
        _ => None,
    }
}

/// The decoded events of each track.
pub open spec fn model_events(m: SmfModel) -> Seq<Seq<TrackEvent>> {
    m.tracks.map_values(|t: Seq<EventModel>| t.map_values(|e: EventModel| e.event))
}

/// A parsed file, together with the bytes that it was parsed from.
pub struct MidiFile<'a> {
    bytes: &'a [u8],
    smf: midly::Smf<'a>,
}

impl<'a> MidiFile<'a> {
    pub closed spec fn source(&self) -> Seq<u8> {
        self.bytes@
    }

    pub closed spec fn model(&self) -> SmfModel {
        decoded_smf(self.bytes@).unwrap()
    }

    /// Calls `midly::Smf::parse`. It is taken to succeed exactly where
    /// `decoded_smf` is `Some`, and the file keeps the bytes it was parsed from.
    #[verifier::external_body]
    pub(crate) fn parse(bytes: &'a [u8]) -> (r: Result<MidiFile<'a>, midly::Error>)
        ensures
            r is Ok <==> decoded_smf(bytes@) is Some,
            r matches Ok(f) ==> f.source() == bytes@,
    {
        match midly::Smf::parse(bytes) {
            Ok(smf) => Ok(MidiFile { bytes, smf }),
            Err(e) => Err(e),
        }
    }

    /// Reads the header of the parsed `midly::Smf`, converting `midly::Format`
    /// and `midly::Timing` (with `Fps::as_int`) variant for variant.
    #[verifier::external_body]
    pub(crate) fn header(&self) -> (r: Header)
        requires
            decoded_smf(self.source()) is Some,
        ensures
            r == self.model().header,
            r.timing matches Timing::Timecode(fps, _) ==> fps == 24 || fps == 25 || fps == 29
                || fps == 30,
    {
        let format = match self.smf.header.format {
            midly::Format::SingleTrack => Format::SingleTrack,
            midly::Format::Parallel => Format::Parallel,
            midly::Format::Sequential => Format::Sequential,
        };
        let timing = match self.smf.header.timing {
            midly::Timing::Metrical(t) => Timing::Metrical(t.as_int()),
            midly::Timing::Timecode(fps, sub) => Timing::Timecode(fps.as_int(), sub),
        };
        Header { format, timing }
    }

    /// The number of tracks of the parsed `midly::Smf`.
    #[verifier::external_body]
    pub(crate) fn track_count(&self) -> (r: usize)
        requires
            decoded_smf(self.source()) is Some,
        ensures
            r == self.model().tracks.len(),
    {
        self.smf.tracks.len()
    }

    /// The number of events of track `i` of the parsed `midly::Smf`.
    #[verifier::external_body]
    pub(crate) fn track_len(&self, i: usize) -> (r: usize)
        requires
            decoded_smf(self.source()) is Some,
            i < self.model().tracks.len(),
        ensures
            r == self.model().tracks[i as int].len(),
    {
        self.smf.tracks[i].len()
    }

    /// The delta time of event `j` of track `i` (`midly::num::u28::as_int`).
    #[verifier::external_body]
    pub(crate) fn event_delta(&self, i: usize, j: usize) -> (r: u32)
        requires
            decoded_smf(self.source()) is Some,
            i < self.model().tracks.len(),
            j < self.model().tracks[i as int].len(),
        ensures
            r == self.model().tracks[i as int][j as int].event.delta,
    {
        self.smf.tracks[i][j].delta.as_int()
    }

    /// The kind of event `j` of track `i`, without the message of a channel
    /// event: `midly::TrackEventKind` told apart variant for variant.
    #[verifier::external_body]
    pub(crate) fn event_class(&self, i: usize, j: usize) -> (r: EventClass)
        requires
            decoded_smf(self.source()) is Some,
            i < self.model().tracks.len(),
            j < self.model().tracks[i as int].len(),
        ensures
            r == class_of(self.model().tracks[i as int][j as int].event.kind),
    {
        match self.smf.tracks[i][j].kind {
            K::Midi { channel, .. } => EventClass::Midi(channel.as_int()),
            midly::TrackEventKind::Meta(midly::MetaMessage::Tempo(t)) => EventClass::Tempo(t.as_int()),
            _ => EventClass::Other,
        }
    }

    /// The message of event `j` of track `i` when it is a channel event with
    /// two data bytes: `midly::MidiMessage` converted variant for variant.
    #[verifier::external_body]
    pub(crate) fn event_two_byte_message(&self, i: usize, j: usize) -> (r: Option<MidiMessage>)
        requires
            decoded_smf(self.source()) is Some,
            i < self.model().tracks.len(),
            j < self.model().tracks[i as int].len(),
        ensures
            r == two_byte_message_of(self.model().tracks[i as int][j as int].event.kind),
    {
        let m = match self.smf.tracks[i][j].kind { K::Midi { message, .. } => message, _ => return None };
        match m {
            M::NoteOff { key, vel } => Some(MidiMessage::NoteOff { key: key.as_int(), vel: vel.as_int() }),
            M::NoteOn { key, vel } => Some(MidiMessage::NoteOn { key: key.as_int(), vel: vel.as_int() }),
            M::Aftertouch { key, vel } => Some(MidiMessage::Aftertouch { key: key.as_int(), vel: vel.as_int() }),
            M::Controller { controller: c, value: v } => Some(MidiMessage::Controller { controller: c.as_int(), value: v.as_int() }),
            _ => None,
        }
    }

    /// The message of event `j` of track `i` when it is a program change,
    /// channel aftertouch or pitch bend: `midly::MidiMessage` converted
    /// variant for variant (`PitchBend` by its raw `u14`).
    #[verifier::external_body]
    pub(crate) fn event_other_message(&self, i: usize, j: usize) -> (r: Option<MidiMessage>)
        requires
            decoded_smf(self.source()) is Some,
            i < self.model().tracks.len(),
            j < self.model().tracks[i as int].len(),
        ensures
            r == other_message_of(self.model().tracks[i as int][j as int].event.kind),
            r matches Some(MidiMessage::PitchBend { bend }) ==> bend < 16384,
    {
        let m = match self.smf.tracks[i][j].kind { K::Midi { message, .. } => message, _ => return None };
        match m {
            M::ProgramChange { program } => Some(MidiMessage::ProgramChange { program: program.as_int() }),
            M::ChannelAftertouch { vel } => Some(MidiMessage::ChannelAftertouch { vel: vel.as_int() }),
            M::PitchBend { bend } => Some(MidiMessage::PitchBend { bend: bend.0.as_int() }),
            _ => None,
        }
    }

    /// The text of event `j` of track `i` when it is a `MetaMessage::TrackName`.
    #[verifier::external_body]
    pub(crate) fn event_name(&self, i: usize, j: usize) -> (r: Option<Vec<u8>>)
        requires
            decoded_smf(self.source()) is Some,
            i < self.model().tracks.len(),
            j < self.model().tracks[i as int].len(),
        ensures
            r matches Some(v) ==> self.model().tracks[i as int][j as int].name == Some(v@),
            r is None ==> self.model().tracks[i as int][j as int].name is None,
    {
        match self.smf.tracks[i][j].kind {
            midly::TrackEventKind::Meta(midly::MetaMessage::TrackName(t)) => Some(t.to_vec()),
            _ => None,
        }
    }
}

/// Decodes the header and the events of each track of a Standard MIDI File;
/// `Err(LoadError::Parse)` exactly where `midly` cannot parse the bytes.
pub fn decode_tracks(bytes: &[u8]) -> (r: Result<(Header, Vec<Vec<TrackEvent>>), LoadError>)
    ensures
        decoded_smf(bytes@) is None ==> r == Err::<(Header, Vec<Vec<TrackEvent>>), LoadError>(
            LoadError::Parse,
        ),
        decoded_smf(bytes@) matches Some(m) ==> r matches Ok((h, t)) && h == m.header
            && tracks_view(t@) == model_events(m),
{
    let file = match MidiFile::parse(bytes) {
        Ok(f) => f,
        Err(_) => {
            return Err(LoadError::Parse);
        },
    };
    let ghost m = decoded_smf(bytes@).unwrap();
    let ghost me = model_events(m);
    let header = file.header();
    let n = file.track_count();
    let mut tracks: Vec<Vec<TrackEvent>> = Vec::new();
    for i in 0..n
        invariant
            file.source() == bytes@,
            decoded_smf(bytes@) == Some(m),
            me == model_events(m),
            n == m.tracks.len(),
            tracks@.len() == i,
            tracks_view(tracks@) == me.take(i as int),
    {
        let len = file.track_len(i);
        let mut track: Vec<TrackEvent> = Vec::new();
        for j in 0..len
            invariant
                file.source() == bytes@,
                decoded_smf(bytes@) == Some(m),
                me == model_events(m),
                n == m.tracks.len(),
                i < n,
                len == m.tracks[i as int].len(),
                track@ == me[i as int].take(j as int),
        {
            let delta = file.event_delta(i, j);
            let ghost ev = m.tracks[i as int][j as int].event;
            let kind = match file.event_class(i, j) {
                EventClass::Midi(channel) => match file.event_two_byte_message(i, j) {
                    Some(message) => EventKind::Midi { channel, message },
                    None => match file.event_other_message(i, j) {
                        Some(message) => EventKind::Midi { channel, message },
                        None => {
                            assert(false);
                            EventKind::Other
                        },
                    },
                },
                EventClass::Tempo(t) => EventKind::Tempo(t),
                EventClass::Other => EventKind::Other,
            };
            assert(kind == ev.kind);
            track.push(TrackEvent { delta, kind });
            assert(track@ =~= me[i as int].take(j + 1));
        }
        assert(track@ =~= me[i as int]);
        let ghost old_tracks = tracks@;
        tracks.push(track);
        assert forall|k: int| 0 <= k < i + 1 implies tracks_view(tracks@)[k] == me.take(i + 1)[k] by {
            if k < i {
                assert(tracks@[k] == old_tracks[k]);
                assert(tracks_view(old_tracks)[k] == me.take(i as int)[k]);
            }
        }
        assert(tracks_view(tracks@) =~= me.take(i + 1));
    }
    assert(tracks_view(tracks@) =~= me);
    Ok((header, tracks))
}

/// The first text among the optional texts of a track's events.
pub open spec fn first_some(names: Seq<Option<Seq<u8>>>) -> Option<Seq<u8>>
    decreases names.len(),
{
    if names.len() == 0 {
        None
    } else {
        match names[0] {
            Some(s) => Some(s),
            None => first_some(names.drop_first()),
        }
    }
}

/// The track-name text of each event of a track (`None` for other events).
pub open spec fn event_names(track: Seq<EventModel>) -> Seq<Option<Seq<u8>>> {
    track.map_values(|e: EventModel| e.name)
}

/// The view of a list of optional texts.
pub open spec fn opt_names_view(names: Seq<Option<Vec<u8>>>) -> Seq<Option<Seq<u8>>> {
    names.map_values(
        |o: Option<Vec<u8>>|
            match o {
                Some(v) => Some(v@),
                None => None,
            },
    )
}

/// The view of an optional text.
pub open spec fn opt_view(o: Option<Vec<u8>>) -> Option<Seq<u8>> {
    match o {
        Some(v) => Some(v@),
        None => None,
    }
}

/// The name of a track, given the track-name text (or `None`) of each of its
/// events: the text of its first track-name event.
pub fn first_track_name(names: Vec<Option<Vec<u8>>>) -> (r: Option<Vec<u8>>)
    ensures
        opt_view(r) == first_some(opt_names_view(names@)),
{
    let ghost all = opt_names_view(names@);
    let mut names = names;
    let mut found: Option<Vec<u8>> = None;
    assert(all.skip(all.len() as int) =~= Seq::<Option<Seq<u8>>>::empty());
    while names.len() > 0
        invariant
            names@.len() <= all.len(),
            opt_names_view(names@) == all.take(names@.len() as int),
            opt_view(found) == first_some(all.skip(names@.len() as int)),
        decreases names@.len(),
    {
        let ghost k = names@.len() - 1;
        let ghost before = names@;
        let last = names.pop();
        assert(last == Some(before[k]));
        assert(opt_names_view(names@) =~= all.take(k));
        assert(all.take(k + 1)[k] == all[k]);
        assert(opt_names_view(before)[k] == opt_view(before[k]));
        assert(all.skip(k).drop_first() =~= all.skip(k + 1));
        assert(all.skip(k)[0] == all[k]);
        match last {
            Some(Some(v)) => {
                found = Some(v);
            },
            _ => {},
        }
    }
    assert(all.skip(0) =~= all);
    found
}

/// The named tracks among the first `i` tracks, in order, each with the text
/// of its first track-name event.
pub open spec fn named_tracks(m: SmfModel, i: int) -> Seq<(usize, Seq<u8>)>
    decreases i,
{
    if i <= 0 {
        Seq::empty()
    } else {
        let rest = named_tracks(m, i - 1);
        match first_some(event_names(m.tracks[i - 1])) {
            Some(s) => rest.push(((i - 1) as usize, s)),
            None => rest,
        }
    }
}

/// The view of a list of names.
pub open spec fn names_view(names: Seq<(usize, Vec<u8>)>) -> Seq<(usize, Seq<u8>)> {
    names.map_values(|p: (usize, Vec<u8>)| (p.0, p.1@))
}

/// The name of each track that has one, in track order: the raw text of the
/// first track-name event of the track.
pub fn track_names(bytes: &[u8]) -> (r: Result<Vec<(usize, Vec<u8>)>, LoadError>)
    ensures
        decoded_smf(bytes@) is None ==> r == Err::<Vec<(usize, Vec<u8>)>, LoadError>(LoadError::Parse),
        decoded_smf(bytes@) matches Some(m) ==> r matches Ok(v) && names_view(v@) == named_tracks(
            m,
            m.tracks.len() as int,
        ),
{
    let file = match MidiFile::parse(bytes) {
        Ok(f) => f,
        Err(_) => {
            return Err(LoadError::Parse);
        },
    };
    let ghost m = decoded_smf(bytes@).unwrap();
    let n = file.track_count();
    let mut names: Vec<(usize, Vec<u8>)> = Vec::new();
    for i in 0..n
        invariant
            file.source() == bytes@,
            decoded_smf(bytes@) == Some(m),
            n == m.tracks.len(),
            names_view(names@) == named_tracks(m, i as int),
    {
        let len = file.track_len(i);
        let mut texts: Vec<Option<Vec<u8>>> = Vec::new();
        for j in 0..len
            invariant
                file.source() == bytes@,
                decoded_smf(bytes@) == Some(m),
                n == m.tracks.len(),
                i < n,
                len == m.tracks[i as int].len(),
                opt_names_view(texts@) == event_names(m.tracks[i as int]).take(j as int),
        {
            let t = file.event_name(i, j);
            let ghost before = texts@;
            texts.push(t);
            assert(opt_view(t) == m.tracks[i as int][j as int].name);
            assert(opt_names_view(texts@) =~= opt_names_view(before).push(opt_view(t)));
            assert(opt_names_view(texts@) =~= event_names(m.tracks[i as int]).take(j + 1));
        }
        assert(event_names(m.tracks[i as int]).take(len as int) =~= event_names(m.tracks[i as int]));
        let found = first_track_name(texts);
        let ghost old_names = names@;
        match found {
            Some(v) => {
                names.push((i, v));
                assert(names_view(names@) =~= names_view(old_names).push((i, v@)));
            },
            None => {},
        }
    }
    Ok(names)
}

} // verus!
