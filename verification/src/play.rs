//! Playback decisions: where to restart after a jump, which bytes to send for
//! each message, and how the player reacts to the user's commands.
use vstd::prelude::*;
use std::collections::HashSet;
use crate::command::Command;
use crate::conn::{
    aftertouch, channel_aftertouch, controller, note_off, note_on, pan, pitch_bend,
    program_change, silence, silence_all, spec_msg2, spec_msg3, status_fits, volume,
    AFTERTOUCH_CHAN_BASE, ALL_SOUND_OFF_MSG, CHANNEL_AFTERTOUCH_CHAN_BASE,
    CONTROL_MODE_CHANGE_CHAN_BASE, NOTE_OFF_CHAN_BASE, NOTE_ON_CHAN_BASE, PAN_MSG,
    PITCH_BEND_CHAN_BASE, PROGRAM_CHANGE_CHAN_BASE, VOLUME_MSG,
};
use crate::parse::{MidiMessage, TimedMessage};

verus! {

broadcast use vstd::std_specs::hash::group_hash_axioms;

/// The times of the messages never decrease.
pub open spec fn times_sorted(m: Seq<TimedMessage>) -> bool {
    forall|a: int, b: int| 0 <= a <= b < m.len() ==> #[trigger] m[a].1 <= #[trigger] m[b].1
}

/// The number of messages among the first `k` that come before `time`.
pub open spec fn count_before(m: Seq<TimedMessage>, time: u32, k: int) -> int
    decreases k,
{
    if k <= 0 {
        0
    } else {
        count_before(m, time, k - 1) + (if m[k - 1].1 < time {
            1int
        } else {
            0int
        })
    }
}

/// Where playback restarts to reach `time` in messages ordered by time: the
/// last message before `time`, or the first message when none comes before it.
pub open spec fn spec_starting_index(m: Seq<TimedMessage>, time: u32) -> int {
    let c = count_before(m, time, m.len() as int);
    if c == 0 {
        0
    } else {
        c - 1
    }
}

proof fn lemma_count_before_sorted(m: Seq<TimedMessage>, time: u32, f: int, k: int)
    requires
        0 <= f <= m.len(),
        0 <= k <= m.len(),
        forall|a: int| 0 <= a < f ==> #[trigger] m[a].1 < time,
        forall|a: int| f <= a < m.len() ==> #[trigger] m[a].1 >= time,
    ensures
        count_before(m, time, k) == if k <= f {
            k
        } else {
            f
        },
    decreases k,
{
    if k > 0 {
        lemma_count_before_sorted(m, time, f, k - 1);
    }
}

/// The binary search between `low` and `high`: while more than one message
/// lies between them, it looks at the middle one and keeps the lower half
/// when that message is not before `time`, the upper half otherwise.
pub open spec fn bisect(m: Seq<TimedMessage>, time: u32, low: int, high: int) -> int
    decreases high - low,
{
    if high > low + 1 {
        let mid = low + (high - low) / 2;
        if m[mid].1 >= time {
            bisect(m, time, low, mid)
        } else {
            bisect(m, time, mid, high)
        }
    } else {
        low
    }
}

/// What the binary search guarantees of its result `r`: 0 for no messages;
/// otherwise `r` is a message, it comes before `time` unless it is the first,
/// and the next one (if any) does not; for messages ordered by time, `r` is
/// the last message before `time`, or the first when none is.
pub open spec fn is_starting_index(m: Seq<TimedMessage>, time: u32, r: int) -> bool {
    &&& m.len() == 0 ==> r == 0
    &&& m.len() > 0 ==> 0 <= r < m.len()
    &&& 0 < r ==> m[r].1 < time
    &&& r + 1 < m.len() ==> m[r + 1].1 >= time
    &&& times_sorted(m) ==> r == spec_starting_index(m, time)
}

/// Binary search for the message that playback restarts from to reach `time`.
///
/// The result is what `bisect` finds over all the messages. It is 0 for no
/// messages; otherwise it is a message, that message comes before `time`
/// unless it is the first, and the next one (if any) does not. For messages
/// ordered by time this is the last message before `time`, or the first when
/// none is.
pub fn starting_index(indexed_timed_messages: &[TimedMessage], time: u32) -> (r: usize)
    ensures
        r == bisect(indexed_timed_messages@, time, 0, indexed_timed_messages@.len() as int),
        is_starting_index(indexed_timed_messages@, time, r as int),
{
    let ghost m = indexed_timed_messages@;
    let mut low: usize = 0;
    let mut high: usize = indexed_timed_messages.len();
    while high > low + 1
        invariant
            m == indexed_timed_messages@,
            high <= m.len(),
            m.len() == 0 ==> low == 0 && high == 0,
            m.len() > 0 ==> low < high,
            0 < low ==> m[low as int].1 < time,
            high < m.len() ==> m[high as int].1 >= time,
            bisect(m, time, low as int, high as int) == bisect(m, time, 0, m.len() as int),
        decreases high - low,
    {
        let mid = low + (high - low) / 2;
        if indexed_timed_messages[mid].1 >= time {
            high = mid;
        } else {
            low = mid;
        }
    }
    proof {
        if times_sorted(m) && m.len() > 0 {
            let f: int = if low == 0 && m[0].1 >= time {
                0
            } else {
                low + 1
            };
            assert forall|a: int| 0 <= a < f implies #[trigger] m[a].1 < time by {
                assert(m[a].1 <= m[low as int].1);
            }
            assert forall|a: int| f <= a < m.len() implies #[trigger] m[a].1 >= time by {
                if f == 0 {
                    assert(m[0].1 <= m[a].1);
                } else {
                    assert(high == low + 1);
                    assert(m[high as int].1 <= m[a].1);
                }
            }
            lemma_count_before_sorted(m, time, f, m.len() as int);
        }
    }
    low
}

/// The channel that the player sends the messages of a track on: the
/// track's number, truncated to a byte.
pub open spec fn channel_of(track: usize) -> u8 {
    track as u8
}

/// The message can be sent on the channel: its status byte exists, and a
/// pitch bend fits in 14 bits.
pub open spec fn message_fits(chan: u8, msg: MidiMessage) -> bool {
    match msg {
        MidiMessage::NoteOff { .. } => status_fits(NOTE_OFF_CHAN_BASE, chan),
        MidiMessage::NoteOn { .. } => status_fits(NOTE_ON_CHAN_BASE, chan),
        MidiMessage::Aftertouch { .. } => status_fits(AFTERTOUCH_CHAN_BASE, chan),
        MidiMessage::Controller { .. } => status_fits(CONTROL_MODE_CHANGE_CHAN_BASE, chan),
        MidiMessage::ProgramChange { .. } => status_fits(PROGRAM_CHANGE_CHAN_BASE, chan),
        MidiMessage::ChannelAftertouch { .. } => status_fits(CHANNEL_AFTERTOUCH_CHAN_BASE, chan),
        MidiMessage::PitchBend { bend } => status_fits(PITCH_BEND_CHAN_BASE, chan) && bend < 16384,
    }
}

/// The bytes that the player sends for a message on a channel.
pub open spec fn message_bytes(chan: u8, msg: MidiMessage) -> Seq<u8> {
    match msg {
        MidiMessage::NoteOff { key, vel } => spec_msg3(NOTE_OFF_CHAN_BASE, chan, key, vel),
        MidiMessage::NoteOn { key, vel } => spec_msg3(NOTE_ON_CHAN_BASE, chan, key, vel),
        MidiMessage::Aftertouch { key, vel } => spec_msg3(AFTERTOUCH_CHAN_BASE, chan, key, vel),
        MidiMessage::Controller { controller, value } => spec_msg3(
            CONTROL_MODE_CHANGE_CHAN_BASE,
            chan,
            controller,
            value,
        ),
        MidiMessage::ProgramChange { program } => spec_msg2(PROGRAM_CHANGE_CHAN_BASE, chan, program),
        MidiMessage::ChannelAftertouch { vel } => spec_msg2(CHANNEL_AFTERTOUCH_CHAN_BASE, chan, vel),
        MidiMessage::PitchBend { bend } => spec_msg3(
            PITCH_BEND_CHAN_BASE,
            chan,
            (bend % 128) as u8,
            (bend / 128) as u8,
        ),
    }
}

/// Encodes a message for a channel; `None` where its status byte does not exist.
pub fn encode_message(chan: u8, msg: MidiMessage) -> (r: Option<Vec<u8>>)
    ensures
        r is None <==> !message_fits(chan, msg),
        r matches Some(v) ==> v@ == message_bytes(chan, msg),
{
    match msg {
        MidiMessage::NoteOff { key, vel } => if chan <= 255 - NOTE_OFF_CHAN_BASE {
            Some(note_off(chan, key, vel))
        } else {
            None
        },
        MidiMessage::NoteOn { key, vel } => if chan <= 255 - NOTE_ON_CHAN_BASE {
            Some(note_on(chan, key, vel))
        } else {
            None
        },
        MidiMessage::Aftertouch { key, vel } => if chan <= 255 - AFTERTOUCH_CHAN_BASE {
            Some(aftertouch(chan, key, vel))
        } else {
            None
        },
        MidiMessage::Controller { controller: number, value } => if chan <= 255
            - CONTROL_MODE_CHANGE_CHAN_BASE {
            Some(controller(chan, number, value))
        } else {
            None
        },
        MidiMessage::ProgramChange { program } => if chan <= 255 - PROGRAM_CHANGE_CHAN_BASE {
            Some(program_change(chan, program))
        } else {
            None
        },
        MidiMessage::ChannelAftertouch { vel } => if chan <= 255 - CHANNEL_AFTERTOUCH_CHAN_BASE {
            Some(channel_aftertouch(chan, vel))
        } else {
            None
        },
        MidiMessage::PitchBend { bend } => if chan <= 255 - PITCH_BEND_CHAN_BASE && bend < 16384 {
            Some(pitch_bend(chan, bend))
        } else {
            None
        },
    }
}

/// The "all sound off" messages of the sixteen channels, channel 0 first.
pub open spec fn silence_all_bytes() -> Seq<Seq<u8>> {
    Seq::new(16, |c: int| spec_msg3(CONTROL_MODE_CHANGE_CHAN_BASE, c as u8, ALL_SOUND_OFF_MSG, 0))
}

/// A message has no MIDI encoding: the status byte of its kind does not
/// exist on its track's channel, or a pitch bend does not fit in 14 bits.
#[derive(Clone, Copy, Debug, PartialEq, Eq, Structural)]
pub enum PlayError {
    Unencodable,
}

/// What the player does in answer to a command: the messages to send, in
/// order, and whether the wait for the next message starts over.
pub struct Reaction {
    pub messages: Vec<Vec<u8>>,
    pub restart: bool,
}

/// The view of a list of messages.
pub open spec fn bytes_view(msgs: Seq<Vec<u8>>) -> Seq<Seq<u8>> {
    msgs.map_values(|m: Vec<u8>| m@)
}

/// The reaction sends these messages, in order, and starts the wait over or not.
pub open spec fn sends(r: Result<Reaction, PlayError>, msgs: Seq<Seq<u8>>, restart: bool) -> bool {
    r matches Ok(x) && bytes_view(x.messages@) == msgs && x.restart == restart
}

/// `b` is `a` with the given pause flag, muted tracks, time and index.
pub open spec fn same_except(
    a: Player,
    b: Player,
    paused: bool,
    muted: Set<usize>,
    time: u32,
    index: int,
) -> bool {
    &&& b.messages() == a.messages()
    &&& b.paused() == paused
    &&& b.muted() == muted
    &&& b.time() == time
    &&& b.index() == index
}

/// What a command does to the player, and the reaction it gives.
pub open spec fn command_effect(
    before: Player,
    after: Player,
    command: Command,
    r: Result<Reaction, PlayError>,
) -> bool {
    let m = before.muted();
    let p = before.paused();
    let t0 = before.time();
    let i0 = before.index();
    let refused = match command {
        Command::Muted(id, muted) => muted && !status_fits(CONTROL_MODE_CHANGE_CHAN_BASE, channel_of(id)),
        Command::Volume(id, _) => !status_fits(CONTROL_MODE_CHANGE_CHAN_BASE, channel_of(id)),
        Command::Pan(id, _) => !status_fits(CONTROL_MODE_CHANGE_CHAN_BASE, channel_of(id)),
        _ => false,
    };
    if refused {
        r is Err && same_except(before, after, p, m, t0, i0)
    } else {
        match command {
            Command::Play => sends(r, Seq::empty(), false) && same_except(before, after, false, m, t0, i0),
            Command::Pause => sends(r, silence_all_bytes(), false) && same_except(before, after, true, m, t0, i0),
            Command::Muted(id, muted) => if muted {
                sends(
                    r,
                    seq![spec_msg3(CONTROL_MODE_CHANGE_CHAN_BASE, channel_of(id), ALL_SOUND_OFF_MSG, 0)],
                    false,
                ) && same_except(before, after, p, m.insert(id), t0, i0)
            } else {
                sends(r, Seq::empty(), false) && same_except(before, after, p, m.remove(id), t0, i0)
            },
            Command::Volume(id, val) => sends(
                r,
                seq![spec_msg3(CONTROL_MODE_CHANGE_CHAN_BASE, channel_of(id), VOLUME_MSG, val)],
                false,
            ) && same_except(before, after, p, m, t0, i0),
            Command::Pan(id, val) => sends(
                r,
                seq![spec_msg3(CONTROL_MODE_CHANGE_CHAN_BASE, channel_of(id), PAN_MSG, val)],
                false,
            ) && same_except(before, after, p, m, t0, i0),
            Command::Jump(t) => sends(r, silence_all_bytes(), true) && same_except(
                before,
                after,
                p,
                m,
                t,
                after.index(),
            ) && after.index() == bisect(before.messages(), t, 0, before.messages().len() as int)
                && is_starting_index(before.messages(), t, after.index()),
        }
    }
}

/// What playing the next message does to the player, and what it sends.
pub open spec fn play_effect(
    before: Player,
    after: Player,
    r: Result<Option<Vec<u8>>, PlayError>,
) -> bool {
    let (track, t, msg) = before.messages()[before.index()];
    let silenced = msg is NoteOn && before.muted().contains(track);
    if before.paused() {
        (r matches Ok(o) && o is None) && same_except(
            before,
            after,
            before.paused(),
            before.muted(),
            before.time(),
            before.index(),
        )
    } else {
        &&& after.messages() == before.messages()
        &&& after.muted() == before.muted()
        &&& after.paused() == before.paused()
        &&& (r is Err <==> !silenced && !message_fits(channel_of(track), msg))
        &&& (r is Err ==> after.time() == before.time() && after.index() == before.index())
        &&& (r matches Ok(o) ==> {
            &&& after.time() == t
            &&& after.index() == (before.index() + 1) % (before.messages().len() as int)
            &&& (silenced ==> o is None)
            &&& (!silenced ==> (o matches Some(v) && v@ == message_bytes(channel_of(track), msg)))
        })
    }
}

/// The state of playback: the messages ordered by time, the muted tracks,
/// the time of the last message played and the index of the next one, and
/// whether playback is paused.
pub struct Player {
    messages: Vec<TimedMessage>,
    muted_tracks: HashSet<usize>,
    end_time: u32,
    time: u32,
    index: usize,
    paused: bool,
}

impl Player {
    #[verifier::type_invariant]
    spec fn inv(self) -> bool {
        &&& self.messages@.len() > 0
        &&& self.index < self.messages@.len()
        &&& self.end_time == self.messages@.last().1
    }

    pub closed spec fn messages(self) -> Seq<TimedMessage> {
        self.messages@
    }

    pub closed spec fn muted(self) -> Set<usize> {
        self.muted_tracks@
    }

    pub closed spec fn time(self) -> u32 {
        self.time
    }

    pub closed spec fn index(self) -> int {
        self.index as int
    }

    pub closed spec fn paused(self) -> bool {
        self.paused
    }

    /// A player at the start of the messages, not paused, with no track muted.
    pub fn new(messages: Vec<TimedMessage>) -> (p: Player)
        requires
            messages@.len() > 0,
        ensures
            p.messages() == messages@,
            p.muted() == Set::<usize>::empty(),
            p.time() == 0,
            p.index() == 0,
            !p.paused(),
    {
        let end_time = messages[messages.len() - 1].1;
        Player { messages, muted_tracks: HashSet::new(), end_time, time: 0, index: 0, paused: false }
    }

    /// The time of the last message.
    pub fn end_time(&self) -> (r: u32)
        ensures
            r == self.messages().last().1,
    {
        proof {
            use_type_invariant(self);
        }
        self.end_time
    }

    /// Whether playback is paused.
    pub fn is_paused(&self) -> (r: bool)
        ensures
            r == self.paused(),
    {
        self.paused
    }

    /// Whether a track is muted.
    pub fn is_muted(&self, track: usize) -> (r: bool)
        ensures
            r == self.muted().contains(track),
    {
        self.muted_tracks.contains(&track)
    }

    /// The time of the last message played.
    pub fn current_time(&self) -> (r: u32)
        ensures
            r == self.time(),
    {
        self.time
    }

    /// The index of the next message.
    pub fn current_index(&self) -> (r: usize)
        ensures
            r == self.index(),
            r < self.messages().len(),
    {
        proof {
            use_type_invariant(self);
        }
        self.index
    }

    /// How many microseconds to wait before the next message: the time from
    /// the last message to it, or none when it is not later.
    pub fn sleep_micros(&self) -> (r: u32)
        ensures
            r == (if self.messages()[self.index()].1 >= self.time() {
                self.messages()[self.index()].1 - self.time()
            } else {
                0
            }),
    {
        proof {
            use_type_invariant(self);
        }
        self.messages[self.index].1.checked_sub(self.time).unwrap_or(0)
    }

    /// Plays the next message. While paused, nothing is played and nothing
    /// changes. Otherwise a note-on of a muted track is not sent; any other
    /// message is sent on the channel of its track; the player then moves to
    /// the message after it, wrapping around to the first. `Err` (and no
    /// change) where the message has no MIDI encoding.
    pub fn play_next(&mut self) -> (r: Result<Option<Vec<u8>>, PlayError>)
        ensures
            play_effect(*old(self), *final(self), r),
    {
        proof {
            use_type_invariant(&*self);
        }
        if self.paused {
            return Ok(None);
        }
        let (track, t, msg) = self.messages[self.index];
        let silenced = match msg {
            MidiMessage::NoteOn { .. } => self.muted_tracks.contains(&track),
            _ => false,
        };
        let out = if silenced {
            None
        } else {
            match encode_message(#[verifier::truncate] (track as u8), msg) {
                None => {
                    return Err(PlayError::Unencodable);
                },
                Some(v) => Some(v),
            }
        };
        let len = self.messages.len();
        self.time = t;
        self.index = (self.index + 1) % len;
        Ok(out)
    }

    /// Reacts to a command.
    ///
    /// `Play` resumes; `Pause` silences every channel and pauses; `Muted`
    /// mutes a track, silencing its channel, or unmutes it; `Volume` and `Pan`
    /// send the control change to the track's channel; `Jump` silences every
    /// channel, sets the time, restarts from the message that the binary
    /// search finds for it, and starts the wait over. A command whose track
    /// has no control-change status byte on its channel is refused
    /// (`Err`), and nothing changes.
    pub fn handle_command(&mut self, command: Command) -> (r: Result<Reaction, PlayError>)
        ensures
            command_effect(*old(self), *final(self), command, r),
    {
        proof {
            use_type_invariant(&*self);
        }
        match command {
            Command::Play => {
                self.paused = false;
                let msgs: Vec<Vec<u8>> = Vec::new();
                assert(bytes_view(msgs@) =~= Seq::<Seq<u8>>::empty());
                Ok(Reaction { messages: msgs, restart: false })
            },
            Command::Pause => {
                let msgs = silence_all();
                assert(bytes_view(msgs@) =~= silence_all_bytes());
                self.paused = true;
                Ok(Reaction { messages: msgs, restart: false })
            },
            Command::Muted(id, muted) => {
                if muted {
                    let chan = #[verifier::truncate] (id as u8);
                    if chan > 255 - CONTROL_MODE_CHANGE_CHAN_BASE {
                        return Err(PlayError::Unencodable);
                    }
                    let mut msgs: Vec<Vec<u8>> = Vec::new();
                    msgs.push(silence(chan));
                    assert(bytes_view(msgs@) =~= seq![
                        spec_msg3(CONTROL_MODE_CHANGE_CHAN_BASE, channel_of(id), ALL_SOUND_OFF_MSG, 0),
                    ]);
                    let mut muted_tracks = HashSet::new();
                    std::mem::swap(&mut muted_tracks, &mut self.muted_tracks);
                    muted_tracks.insert(id);
                    self.muted_tracks = muted_tracks;
                    Ok(Reaction { messages: msgs, restart: false })
                } else {
                    let mut muted_tracks = HashSet::new();
                    std::mem::swap(&mut muted_tracks, &mut self.muted_tracks);
                    muted_tracks.remove(&id);
                    self.muted_tracks = muted_tracks;
                    let msgs: Vec<Vec<u8>> = Vec::new();
                    assert(bytes_view(msgs@) =~= Seq::<Seq<u8>>::empty());
                    Ok(Reaction { messages: msgs, restart: false })
                }
            },
            Command::Volume(id, val) => {
                let chan = #[verifier::truncate] (id as u8);
                if chan > 255 - CONTROL_MODE_CHANGE_CHAN_BASE {
                    return Err(PlayError::Unencodable);
                }
                let mut msgs: Vec<Vec<u8>> = Vec::new();
                msgs.push(volume(chan, val));
                assert(bytes_view(msgs@) =~= seq![
                    spec_msg3(CONTROL_MODE_CHANGE_CHAN_BASE, channel_of(id), VOLUME_MSG, val),
                ]);
                Ok(Reaction { messages: msgs, restart: false })
            },
            Command::Jump(t) => {
                let msgs = silence_all();
                assert(bytes_view(msgs@) =~= silence_all_bytes());
                let index = starting_index(self.messages.as_slice(), t);
                self.time = t;
                self.index = index;
                Ok(Reaction { messages: msgs, restart: true })
            },
            Command::Pan(id, val) => {
                let chan = #[verifier::truncate] (id as u8);
                if chan > 255 - CONTROL_MODE_CHANGE_CHAN_BASE {
                    return Err(PlayError::Unencodable);
                }
                let mut msgs: Vec<Vec<u8>> = Vec::new();
                msgs.push(pan(chan, val));
                assert(bytes_view(msgs@) =~= seq![
                    spec_msg3(CONTROL_MODE_CHANGE_CHAN_BASE, channel_of(id), PAN_MSG, val),
                ]);
                Ok(Reaction { messages: msgs, restart: false })
            },
        }
    }
}

/// While a track is muted, none of its note-on messages is sent; unless
/// paused, playback still moves on to the next message.
pub proof fn law_muted_note_on_dropped(
    before: Player,
    after: Player,
    r: Result<Option<Vec<u8>>, PlayError>,
)
    requires
        play_effect(before, after, r),
        before.messages()[before.index()].2 is NoteOn,
        before.muted().contains(before.messages()[before.index()].0),
    ensures
        r matches Ok(o) && o is None,
        !before.paused() ==> after.index() == (before.index() + 1) % (
        before.messages().len() as int),
{
}

/// Only a `Muted` command changes which tracks are muted.
pub proof fn law_only_muted_changes_muting(
    before: Player,
    after: Player,
    command: Command,
    r: Result<Reaction, PlayError>,
)
    requires
        command_effect(before, after, command, r),
        !(command is Muted),
    ensures
        after.muted() == before.muted(),
{
}

/// Muting a track and then unmuting it leaves the other tracks as they were,
/// and the track unmuted.
pub proof fn law_mute_then_unmute(
    p0: Player,
    p1: Player,
    p2: Player,
    id: usize,
    r1: Result<Reaction, PlayError>,
    r2: Result<Reaction, PlayError>,
)
    requires
        command_effect(p0, p1, Command::Muted(id, true), r1),
        command_effect(p1, p2, Command::Muted(id, false), r2),
    ensures
        p2.muted() == p0.muted().remove(id),
        !p0.muted().contains(id) ==> p2.muted() == p0.muted(),
        p2.messages() == p0.messages(),
        p2.time() == p0.time(),
        p2.index() == p0.index(),
{
    assert(p2.muted() =~= p0.muted().remove(id));
    if !p0.muted().contains(id) {
        assert(p0.muted().remove(id) =~= p0.muted());
    }
}

/// Pausing silences all sixteen channels; resuming afterwards gives back the
/// player as it was, playing.
pub proof fn law_pause_then_play(
    p0: Player,
    p1: Player,
    p2: Player,
    r1: Result<Reaction, PlayError>,
    r2: Result<Reaction, PlayError>,
)
    requires
        command_effect(p0, p1, Command::Pause, r1),
        command_effect(p1, p2, Command::Play, r2),
    ensures
        p1.paused(),
        sends(r1, silence_all_bytes(), false),
        !p2.paused(),
        p2.messages() == p0.messages(),
        p2.muted() == p0.muted(),
        p2.time() == p0.time(),
        p2.index() == p0.index(),
{
}

/// A jump in messages ordered by time restarts from the last message before
/// the target time (or from the first one), at the target time.
pub proof fn law_jump_restarts_before_target(
    before: Player,
    after: Player,
    t: u32,
    r: Result<Reaction, PlayError>,
)
    requires
        command_effect(before, after, Command::Jump(t), r),
        times_sorted(before.messages()),
    ensures
        after.index() == spec_starting_index(before.messages(), t),
        after.time() == t,
        r matches Ok(x) && x.restart,
{
}

/// A step of playback: a command from the window, or playing the next message.
pub enum Step {
    Command(Command),
    PlayNext,
}

/// A run of steps: `players[k + 1]` is the player after step `k`, which
/// reacted with `reactions[k]` (a command) or played `played[k]` (a message).
pub open spec fn is_run(
    players: Seq<Player>,
    steps: Seq<Step>,
    reactions: Seq<Result<Reaction, PlayError>>,
    played: Seq<Result<Option<Vec<u8>>, PlayError>>,
) -> bool {
    &&& players.len() == steps.len() + 1
    &&& reactions.len() == steps.len()
    &&& played.len() == steps.len()
    &&& forall|k: int|
        0 <= k < steps.len() ==> match #[trigger] steps[k] {
            Step::Command(c) => command_effect(players[k], players[k + 1], c, reactions[k]),
            Step::PlayNext => play_effect(players[k], players[k + 1], played[k]),
        }
}

/// The message that step `k` of a run plays is a note-on of the track.
pub open spec fn plays_note_on_of(players: Seq<Player>, steps: Seq<Step>, k: int, track: usize) -> bool {
    &&& steps[k] is PlayNext
    &&& players[k].messages()[players[k].index()].0 == track
    &&& players[k].messages()[players[k].index()].2 is NoteOn
}

proof fn lemma_muted_stays(
    players: Seq<Player>,
    steps: Seq<Step>,
    reactions: Seq<Result<Reaction, PlayError>>,
    played: Seq<Result<Option<Vec<u8>>, PlayError>>,
    id: usize,
    k: int,
)
    requires
        is_run(players, steps, reactions, played),
        1 <= k <= steps.len(),
        players[1].muted().contains(id),
        forall|j: int|
            1 <= j < steps.len() ==> !(#[trigger] steps[j] matches Step::Command(Command::Muted(
                x,
                false,
            )) && x == id),
    ensures
        players[k].muted().contains(id),
    decreases k,
{
    if k > 1 {
        lemma_muted_stays(players, steps, reactions, played, id, k - 1);
        let j = k - 1;
        match steps[j] {
            Step::Command(c) => {
                assert(command_effect(players[j], players[k], c, reactions[j]));
            },
            Step::PlayNext => {
                assert(play_effect(players[j], players[k], played[j]));
            },
        }
    }
}

/// Muting a track silences its channel at once, and from then on, until a
/// command unmutes it, none of its note-on messages is sent.
pub proof fn law_mute_holds_until_unmuted(
    players: Seq<Player>,
    steps: Seq<Step>,
    reactions: Seq<Result<Reaction, PlayError>>,
    played: Seq<Result<Option<Vec<u8>>, PlayError>>,
    id: usize,
)
    requires
        is_run(players, steps, reactions, played),
        steps.len() > 0,
        steps[0] == Step::Command(Command::Muted(id, true)),
        status_fits(CONTROL_MODE_CHANGE_CHAN_BASE, channel_of(id)),
        forall|j: int|
            1 <= j < steps.len() ==> !(#[trigger] steps[j] matches Step::Command(Command::Muted(
                x,
                false,
            )) && x == id),
    ensures
        sends(
            reactions[0],
            seq![spec_msg3(CONTROL_MODE_CHANGE_CHAN_BASE, channel_of(id), ALL_SOUND_OFF_MSG, 0)],
            false,
        ),
        forall|k: int|
            0 <= k < steps.len() && plays_note_on_of(players, steps, k, id) ==> (
            #[trigger] played[k] matches Ok(o) && o is None),
{
    assert(command_effect(players[0], players[1], Command::Muted(id, true), reactions[0]));
    assert forall|k: int|
        0 <= k < steps.len() && plays_note_on_of(players, steps, k, id) implies (
        #[trigger] played[k] matches Ok(o) && o is None) by {
        assert(k >= 1);
        lemma_muted_stays(players, steps, reactions, played, id, k);
        assert(play_effect(players[k], players[k + 1], played[k]));
    }
}

proof fn lemma_pause_stays(
    players: Seq<Player>,
    steps: Seq<Step>,
    reactions: Seq<Result<Reaction, PlayError>>,
    played: Seq<Result<Option<Vec<u8>>, PlayError>>,
    k: int,
)
    requires
        is_run(players, steps, reactions, played),
        1 <= k <= steps.len(),
        players[1].paused(),
        forall|j: int| 1 <= j < steps.len() ==> #[trigger] steps[j] != Step::Command(Command::Play),
    ensures
        players[k].paused(),
        players[k].messages() == players[1].messages(),
        (forall|j: int|
            1 <= j < k ==> !(#[trigger] steps[j] matches Step::Command(Command::Jump(_))))
            ==> players[k].index() == players[1].index() && players[k].time() == players[1].time(),
    decreases k,
{
    if k > 1 {
        lemma_pause_stays(players, steps, reactions, played, k - 1);
        let j = k - 1;
        match steps[j] {
            Step::Command(c) => {
                assert(command_effect(players[j], players[k], c, reactions[j]));
            },
            Step::PlayNext => {
                assert(play_effect(players[j], players[k], played[j]));
            },
        }
    }
}

/// Pausing silences the sixteen channels at once; from then on, until a
/// `Play` command, no message is played, and unless a `Jump` comes in
/// between, playback resumes with the message that was next.
pub proof fn law_pause_holds_until_play(
    players: Seq<Player>,
    steps: Seq<Step>,
    reactions: Seq<Result<Reaction, PlayError>>,
    played: Seq<Result<Option<Vec<u8>>, PlayError>>,
)
    requires
        is_run(players, steps, reactions, played),
        steps.len() > 0,
        steps[0] == Step::Command(Command::Pause),
        forall|j: int| 1 <= j < steps.len() ==> #[trigger] steps[j] != Step::Command(Command::Play),
    ensures
        sends(reactions[0], silence_all_bytes(), false),
        forall|k: int|
            0 <= k < steps.len() && steps[k] is PlayNext ==> (#[trigger] played[k] matches Ok(o)
                && o is None),
        players.last().paused(),
        (forall|j: int| 0 <= j < steps.len() ==> !(#[trigger] steps[j] matches Step::Command(
            Command::Jump(_),
        ))) ==> players.last().index() == players[0].index() && players.last().time()
            == players[0].time(),
{
    assert(command_effect(players[0], players[1], Command::Pause, reactions[0]));
    assert forall|k: int|
        0 <= k < steps.len() && steps[k] is PlayNext implies (#[trigger] played[k] matches Ok(o)
        && o is None) by {
        assert(k >= 1);
        lemma_pause_stays(players, steps, reactions, played, k);
        assert(play_effect(players[k], players[k + 1], played[k]));
    }
    lemma_pause_stays(players, steps, reactions, played, steps.len() as int);
}

/// The bytes sent for a message keep the MIDI layout: for each of the sixteen
/// channels the status byte holds the kind of message in its high four bits
/// and the channel in its low four; a note's data bytes are its key, then its
/// velocity; a control change's are the controller number, then the value; a
/// program change or channel aftertouch has one data byte, its value; and a
/// pitch bend's two 7-bit data bytes give back the bend.
pub proof fn law_message_layout(chan: u8, msg: MidiMessage)
    requires
        chan < 16,
        message_fits(chan, msg),
    ensures
        ({
            let b = message_bytes(chan, msg);
            &&& b[0] % 16 == chan
            &&& match msg {
                MidiMessage::NoteOff { key, vel } => b.len() == 3 && b[0] / 16 == 8 && b[1] == key
                    && b[2] == vel,
                MidiMessage::NoteOn { key, vel } => b.len() == 3 && b[0] / 16 == 9 && b[1] == key
                    && b[2] == vel,
                MidiMessage::Aftertouch { key, vel } => b.len() == 3 && b[0] / 16 == 10 && b[1]
                    == key && b[2] == vel,
                MidiMessage::Controller { controller, value } => b.len() == 3 && b[0] / 16 == 11
                    && b[1] == controller && b[2] == value,
                MidiMessage::ProgramChange { program } => b.len() == 2 && b[0] / 16 == 12 && b[1]
                    == program,
                MidiMessage::ChannelAftertouch { vel } => b.len() == 2 && b[0] / 16 == 13 && b[1]
                    == vel,
                MidiMessage::PitchBend { bend } => b.len() == 3 && b[0] / 16 == 14 && b[1] < 128
                    && b[2] < 128 && b[1] + 128 * b[2] == bend,
            }
        }),
{
}

/// A volume or pan command for a track whose channel has a control-change
/// status byte sends exactly that control change, whether the track is muted
/// or not, and changes nothing else.
pub proof fn law_volume_and_pan_always_sent(
    before: Player,
    after: Player,
    command: Command,
    r: Result<Reaction, PlayError>,
)
    requires
        command_effect(before, after, command, r),
        command is Volume || command is Pan,
    ensures
        command matches Command::Volume(id, v) ==> (status_fits(
            CONTROL_MODE_CHANGE_CHAN_BASE,
            channel_of(id),
        ) ==> sends(
            r,
            seq![seq![(CONTROL_MODE_CHANGE_CHAN_BASE + channel_of(id)) as u8, 7u8, v]],
            false,
        )),
        command matches Command::Pan(id, v) ==> (status_fits(
            CONTROL_MODE_CHANGE_CHAN_BASE,
            channel_of(id),
        ) ==> sends(
            r,
            seq![seq![(CONTROL_MODE_CHANGE_CHAN_BASE + channel_of(id)) as u8, 10u8, v]],
            false,
        )),
        after.muted() == before.muted(),
        after.paused() == before.paused(),
        after.time() == before.time(),
        after.index() == before.index(),
        after.messages() == before.messages(),
{
}

/// Only `Pause` and `Play` change whether playback is paused: in particular
/// a jump leaves a playing player playing, so that its next step plays the
/// message the jump restarts from.
pub proof fn law_only_pause_and_play_change_pausing(
    before: Player,
    after: Player,
    command: Command,
    r: Result<Reaction, PlayError>,
)
    requires
        command_effect(before, after, command, r),
        !(command is Pause),
        !(command is Play),
    ensures
        after.paused() == before.paused(),
{
}

/// After a jump while playing, the next step plays the message that the jump
/// restarts from (unless it is a note-on of a muted track, or cannot be
/// encoded), and moves on to the message after it.
pub proof fn law_jump_keeps_playing(
    p0: Player,
    p1: Player,
    p2: Player,
    t: u32,
    r1: Result<Reaction, PlayError>,
    r2: Result<Option<Vec<u8>>, PlayError>,
)
    requires
        command_effect(p0, p1, Command::Jump(t), r1),
        play_effect(p1, p2, r2),
        !p0.paused(),
        !(p1.messages()[p1.index()].2 is NoteOn && p1.muted().contains(p1.messages()[p1.index()].0)),
        message_fits(channel_of(p1.messages()[p1.index()].0), p1.messages()[p1.index()].2),
    ensures
        p1.index() == bisect(p0.messages(), t, 0, p0.messages().len() as int),
        r2 matches Ok(o) && (o matches Some(v) && v@ == message_bytes(
            channel_of(p1.messages()[p1.index()].0),
            p1.messages()[p1.index()].2,
        )),
        p2.index() == (p1.index() + 1) % (p1.messages().len() as int),
{
}

/// Silencing every channel sends, for channels 0 to 15 in order, the control
/// change "all sound off" (controller 120) with value 0.
pub proof fn law_silence_all_messages()
    ensures
        silence_all_bytes().len() == 16,
        forall|c: int| 0 <= c < 16 ==> #[trigger] silence_all_bytes()[c] == seq![(176 + c) as u8, 120u8, 0u8],
{
}

} // verus!
