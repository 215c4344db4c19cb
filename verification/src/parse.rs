use vstd::prelude::*;

pub mod safe_timing;
pub mod smf;

use crate::parse::safe_timing::SafeTiming;
use crate::parse::smf::{decode_tracks, decoded_smf, model_events};

verus! {

/// How the tracks of a file are meant to be played back.
#[derive(Clone, Copy, Debug, PartialEq, Eq, Structural)]
pub enum Format {
    SingleTrack,
    Parallel,
    Sequential,
}

/// The timing field of a file header.
///
/// `Metrical(ticks_per_beat)`, or `Timecode(frames_per_second, ticks_per_frame)`.
#[derive(Clone, Copy, Debug, PartialEq, Eq, Structural)]
pub enum Timing {
    Metrical(u16),
    Timecode(u8, u8),
}

/// The header of a Standard MIDI File.
#[derive(Clone, Copy, Debug, PartialEq, Eq, Structural)]
pub struct Header {
    pub format: Format,
    pub timing: Timing,
}

/// A channel message of a track, without its channel.
#[derive(Clone, Copy, Debug, PartialEq, Eq, Structural)]
pub enum MidiMessage {
    NoteOff { key: u8, vel: u8 },
    NoteOn { key: u8, vel: u8 },
    Aftertouch { key: u8, vel: u8 },
    Controller { controller: u8, value: u8 },
    ProgramChange { program: u8 },
    ChannelAftertouch { vel: u8 },
    /// The raw 14-bit pitch-bend value.
    PitchBend { bend: u16 },
}

/// What a track event does, as far as playback is concerned.
///
/// `Tempo` carries the new number of microseconds per beat; every other
/// meta event, and every system-exclusive or escape event, is `Other`.
#[derive(Clone, Copy, Debug, PartialEq, Eq, Structural)]
pub enum EventKind {
    Midi { channel: u8, message: MidiMessage },
    Tempo(u32),
    Other,
}

/// An event of a track: how many ticks after the previous event of the same
/// track it fires, and what it does.
#[derive(Clone, Copy, Debug, PartialEq, Eq, Structural)]
pub struct TrackEvent {
    pub delta: u32,
    pub kind: EventKind,
}

/// Why a file cannot be turned into a timed list of events.
#[derive(Clone, Copy, Debug, PartialEq, Eq, Structural)]
pub enum LoadError {
    /// `midly` cannot parse the bytes.
    Parse,
    /// The tracks of the file are not meant to be played in parallel.
    NotParallel,
    /// The absolute tick of an event does not fit in a `u32`.
    TickOverflow,
    /// A divisor of the timing is zero.
    ZeroDivisor,
    /// The absolute time of an event does not fit in a `u32`.
    TimeOverflow,
}

/// The absolute tick of the event that follows the first `k` events of a track.
pub open spec fn ticks_at(track: Seq<TrackEvent>, k: int) -> int
    decreases k,
{
    if k <= 0 {
        0
    } else {
        ticks_at(track, k - 1) + track[k - 1].delta
    }
}

/// Every absolute tick of the track fits in a `u32`.
pub open spec fn ticks_fit(track: Seq<TrackEvent>) -> bool {
    ticks_at(track, track.len() as int) <= u32::MAX
}

/// Each event of the track with its absolute tick.
pub open spec fn ticked(track: Seq<TrackEvent>) -> Seq<(u32, EventKind)> {
    Seq::new(track.len(), |k: int| (ticks_at(track, k + 1) as u32, track[k].kind))
}

/// Absolute ticks never decrease along a track.
pub proof fn lemma_ticks_monotonic(track: Seq<TrackEvent>, a: int, b: int)
    requires
        a <= b,
    ensures
        ticks_at(track, a) <= ticks_at(track, b),
    decreases b - a,
{
    if a < b {
        lemma_ticks_monotonic(track, a, b - 1);
    }
}

/// Turns the delta times of a track into absolute ticks, counted from the
/// start of the track; `None` where one of them does not fit in a `u32`.
pub fn ticked_events(track: &Vec<TrackEvent>) -> (r: Option<Vec<(u32, EventKind)>>)
    ensures
        r is None <==> !ticks_fit(track@),
        r matches Some(v) ==> v@ == ticked(track@),
{
    let mut ticks: u32 = 0;
    let mut out: Vec<(u32, EventKind)> = Vec::new();
    let n = track.len();
    for k in 0..n
        invariant
            n == track@.len(),
            ticks == ticks_at(track@, k as int),
            out@ == ticked(track@).take(k as int),
    {
        let d = track[k].delta;
        if ticks > u32::MAX - d {
            proof {
                lemma_ticks_monotonic(track@, k + 1, n as int);
            }
            return None;
        }
        ticks = ticks + d;
        out.push((ticks, track[k].kind));
        assert(out@ =~= ticked(track@).take(k + 1));
    }
    assert(out@ =~= ticked(track@));
    Some(out)
}

/// An event of the merged list: its track, its absolute tick (later: time), and its kind.
pub type IndexedEvent = (usize, u32, EventKind);

/// The view of a list of ticked tracks.
pub open spec fn ticked_view(tracks: Seq<Vec<(u32, EventKind)>>) -> Seq<Seq<(u32, EventKind)>> {
    tracks.map_values(|t: Vec<(u32, EventKind)>| t@)
}

/// Position `(i, j)` names event `j` of track `i`.
pub open spec fn valid_pos(tracks: Seq<Seq<(u32, EventKind)>>, i: int, j: int) -> bool {
    0 <= i < tracks.len() && 0 <= j < tracks[i].len()
}

/// The order of the merged list: by tick, then by track, then by place in the track.
pub open spec fn key_lt(t1: int, i1: int, j1: int, t2: int, i2: int, j2: int) -> bool {
    t1 < t2 || (t1 == t2 && (i1 < i2 || (i1 == i2 && j1 < j2)))
}

/// The ticks of each track never decrease.
pub open spec fn tracks_sorted(tracks: Seq<Seq<(u32, EventKind)>>) -> bool {
    forall|i: int, j1: int, j2: int|
        0 <= i < tracks.len() && 0 <= j1 <= j2 < tracks[i].len() ==> #[trigger] tracks[i][j1].0
            <= #[trigger] tracks[i][j2].0
}

/// `out` lists the events of `tracks` through `origin` (where each entry of
/// `out` comes from) and `place` (where each event of a track went).
pub open spec fn listing_via(
    tracks: Seq<Seq<(u32, EventKind)>>,
    out: Seq<IndexedEvent>,
    origin: Seq<(int, int)>,
    place: Seq<Seq<int>>,
) -> bool {
    &&& origin.len() == out.len()
    &&& forall|k: int|
        0 <= k < out.len() ==> {
            let i = (#[trigger] origin[k]).0;
            let j = origin[k].1;
            &&& valid_pos(tracks, i, j)
            &&& out[k] == (i as usize, tracks[i][j].0, tracks[i][j].1)
        }
    &&& forall|k: int, l: int|
        0 <= k < l < out.len() ==> key_lt(
            (#[trigger] out[k]).1 as int,
            origin[k].0,
            origin[k].1,
            (#[trigger] out[l]).1 as int,
            origin[l].0,
            origin[l].1,
        )
    &&& place.len() == tracks.len()
    &&& forall|i: int| 0 <= i < tracks.len() ==> (#[trigger] place[i]).len() == tracks[i].len()
    &&& forall|i: int, j: int|
        valid_pos(tracks, i, j) ==> 0 <= #[trigger] place[i][j] < out.len() && origin[place[i][j]]
            == (i, j)
}

/// `out` lists every event of every track exactly once, tagged with its track,
/// ordered by tick, then by track, then by place in the track: the list that a
/// stable sort by tick makes of the tracks laid end to end.
pub open spec fn is_tick_ordered_listing(
    tracks: Seq<Seq<(u32, EventKind)>>,
    out: Seq<IndexedEvent>,
) -> bool {
    exists|origin: Seq<(int, int)>, place: Seq<Seq<int>>| listing_via(tracks, out, origin, place)
}

/// The number of events not yet taken from the first `m` tracks.
pub open spec fn remaining(tracks: Seq<Seq<(u32, EventKind)>>, c: Seq<usize>, m: int) -> int
    decreases m,
{
    if m <= 0 {
        0
    } else {
        remaining(tracks, c, m - 1) + (tracks[m - 1].len() - c[m - 1])
    }
}

proof fn lemma_remaining_step(tracks: Seq<Seq<(u32, EventKind)>>, c: Seq<usize>, b: int, m: int)
    requires
        0 <= b < c.len(),
        c.len() == tracks.len(),
        0 <= m <= c.len(),
        c[b] < tracks[b].len(),
        tracks[b].len() <= usize::MAX,
    ensures
        remaining(tracks, c.update(b, (c[b] + 1) as usize), m) == remaining(tracks, c, m) - (if b
            < m {
            1int
        } else {
            0int
        }),
    decreases m,
{
    if m > 0 {
        lemma_remaining_step(tracks, c, b, m - 1);
    }
}

proof fn lemma_remaining_nonneg(tracks: Seq<Seq<(u32, EventKind)>>, c: Seq<usize>, m: int)
    requires
        c.len() == tracks.len(),
        0 <= m <= c.len(),
        forall|i: int| 0 <= i < c.len() ==> c[i] <= tracks[i].len(),
    ensures
        remaining(tracks, c, m) >= 0,
    decreases m,
{
    if m > 0 {
        lemma_remaining_nonneg(tracks, c, m - 1);
    }
}

/// Merges tracks whose ticks never decrease into one list ordered by tick,
/// then by track, then by place in the track.
pub fn merge_tracks(tracks: &Vec<Vec<(u32, EventKind)>>) -> (out: Vec<IndexedEvent>)
    requires
        tracks_sorted(ticked_view(tracks@)),
    ensures
        is_tick_ordered_listing(ticked_view(tracks@), out@),
{
    let ghost ts = ticked_view(tracks@);
    let n = tracks.len();
    let mut cursors: Vec<usize> = Vec::new();
    let mut z: usize = 0;
    while z < n
        invariant
            z <= n,
            cursors@.len() == z,
            forall|i: int| 0 <= i < z ==> cursors@[i] == 0,
        decreases n - z,
    {
        cursors.push(0);
        z = z + 1;
    }
    let mut out: Vec<IndexedEvent> = Vec::new();
    let ghost mut origin: Seq<(int, int)> = Seq::empty();
    let ghost mut place: Seq<Seq<int>> = Seq::new(n as nat, |i: int| Seq::<int>::empty());
    proof {
        lemma_remaining_nonneg(ts, cursors@, n as int);
    }
    let mut done = false;
    while !done
        invariant
            n == tracks@.len(),
            ts == ticked_view(tracks@),
            tracks_sorted(ts),
            cursors@.len() == n,
            forall|i: int| 0 <= i < n ==> #[trigger] cursors@[i] <= ts[i].len(),
            origin.len() == out@.len(),
            place.len() == n,
            forall|i: int| 0 <= i < n ==> (#[trigger] place[i]).len() == cursors@[i],
            forall|k: int|
                0 <= k < out@.len() ==> {
                    let i = (#[trigger] origin[k]).0;
                    let j = origin[k].1;
                    &&& valid_pos(ts, i, j)
                    &&& j < cursors@[i]
                    &&& out@[k] == (i as usize, ts[i][j].0, ts[i][j].1)
                },
            forall|i: int, j: int|
                0 <= i < n && 0 <= j < cursors@[i] ==> 0 <= #[trigger] place[i][j] < out@.len()
                    && origin[place[i][j]] == (i, j),
            forall|k: int, l: int|
                0 <= k < l < out@.len() ==> key_lt(
                    (#[trigger] out@[k]).1 as int,
                    origin[k].0,
                    origin[k].1,
                    (#[trigger] out@[l]).1 as int,
                    origin[l].0,
                    origin[l].1,
                ),
            forall|k: int, i: int, j: int|
                0 <= k < out@.len() && 0 <= i < n && cursors@[i] <= j < ts[i].len() ==> key_lt(
                    (#[trigger] out@[k]).1 as int,
                    origin[k].0,
                    origin[k].1,
                    (#[trigger] ts[i][j]).0 as int,
                    i,
                    j,
                ),
            done ==> forall|i: int| 0 <= i < n ==> #[trigger] cursors@[i] == ts[i].len(),
            remaining(ts, cursors@, n as int) >= 0,
        decreases remaining(ts, cursors@, n as int) + (if done { 0int } else { 1int }),
    {
        let mut best: usize = n;
        let mut i: usize = 0;
        while i < n
            invariant
                n == tracks@.len(),
                ts == ticked_view(tracks@),
                cursors@.len() == n,
                forall|i: int| 0 <= i < n ==> #[trigger] cursors@[i] <= ts[i].len(),
                i <= n,
                best == n || (best < i && cursors@[best as int] < ts[best as int].len()),
                best == n ==> forall|i2: int| 0 <= i2 < i ==> #[trigger] cursors@[i2] == ts[i2].len(),
                best < n ==> forall|i2: int|
                    0 <= i2 < i && #[trigger] cursors@[i2] < ts[i2].len() ==> ts[best as int][cursors@[best as int] as int].0
                        < ts[i2][cursors@[i2] as int].0 || (ts[best as int][cursors@[best as int] as int].0
                        == ts[i2][cursors@[i2] as int].0 && best <= i2),
            decreases n - i,
        {
            assert(tracks@[i as int]@ == ts[i as int]);
            if cursors[i] < tracks[i].len() {
                if best == n {
                    best = i;
                } else {
                    assert(tracks@[best as int]@ == ts[best as int]);
                    if tracks[i][cursors[i]].0 < tracks[best][cursors[best]].0 {
                        best = i;
                    }
                }
            }
            i = i + 1;
        }
        if best == n {
            done = true;
        } else {
            let b = best;
            let j = cursors[b];
            assert(tracks@[b as int]@ == ts[b as int]);
            let lb = tracks[b].len();
            assert(j < lb);
            let e = tracks[b][j];
            let ghost old_out = out@;
            let ghost old_c = cursors@;
            let ghost old_origin = origin;
            out.push((b, e.0, e.1));
            cursors.set(b, j + 1);
            proof {
                lemma_remaining_step(ts, old_c, b as int, n as int);
                lemma_remaining_nonneg(ts, cursors@, n as int);
                let k_new = old_out.len() as int;
                origin = origin.push((b as int, j as int));
                place = place.update(b as int, place[b as int].push(k_new));
                assert forall|k: int|
                    0 <= k < out@.len() implies {
                        let i = (#[trigger] origin[k]).0;
                        let j = origin[k].1;
                        &&& valid_pos(ts, i, j)
                        &&& j < cursors@[i]
                        &&& out@[k] == (i as usize, ts[i][j].0, ts[i][j].1)
                    } by {
                    if k < k_new {
                        assert(old_origin[k] == origin[k]);
                        assert(out@[k] == old_out[k]);
                    }
                }
                assert forall|i2: int, j2: int|
                    0 <= i2 < n && 0 <= j2 < cursors@[i2] implies 0 <= #[trigger] place[i2][j2]
                    < out@.len() && origin[place[i2][j2]] == (i2, j2) by {
                    if i2 == b && j2 == j {
                    } else {
                        assert(j2 < old_c[i2]);
                        assert(origin[place[i2][j2]] == old_origin[place[i2][j2]]);
                    }
                }
                assert forall|k: int, l: int|
                    0 <= k < l < out@.len() implies key_lt(
                        (#[trigger] out@[k]).1 as int,
                        origin[k].0,
                        origin[k].1,
                        (#[trigger] out@[l]).1 as int,
                        origin[l].0,
                        origin[l].1,
                    ) by {
                    assert(out@[k] == old_out[k]);
                    assert(origin[k] == old_origin[k]);
                    if l < k_new {
                        assert(out@[l] == old_out[l]);
                        assert(origin[l] == old_origin[l]);
                    } else {
                        assert(ts[b as int][j as int].0 == e.0);
                        assert(key_lt(
                            old_out[k].1 as int,
                            old_origin[k].0,
                            old_origin[k].1,
                            ts[b as int][j as int].0 as int,
                            b as int,
                            j as int,
                        ));
                    }
                }
                assert forall|k: int, i2: int, j2: int|
                    0 <= k < out@.len() && 0 <= i2 < n && cursors@[i2] <= j2 < ts[i2].len()
                        implies key_lt(
                        (#[trigger] out@[k]).1 as int,
                        origin[k].0,
                        origin[k].1,
                        (#[trigger] ts[i2][j2]).0 as int,
                        i2,
                        j2,
                    ) by {
                    assert(old_c[i2] <= j2);
                    if k < k_new {
                        assert(out@[k] == old_out[k]);
                        assert(origin[k] == old_origin[k]);
                    } else {
                        assert(ts[b as int][j as int].0 == e.0);
                        if i2 == b {
                            assert(ts[b as int][j as int].0 <= ts[b as int][j2].0);
                        } else {
                            assert(old_c[i2] < ts[i2].len());
                            assert(ts[i2][old_c[i2] as int].0 <= ts[i2][j2].0);
                        }
                    }
                }
            }
        }
    }
    proof {
        assert(listing_via(ts, out@, origin, place));
    }
    out
}

/// The state of the clock while the merged events are timed: the timing in
/// force, and the tick and time (in microseconds) of the last event.
#[derive(Clone, Copy, Debug, PartialEq, Eq, Structural)]
pub struct Clock {
    pub timing: SafeTiming,
    pub ticks: u32,
    pub time: u32,
}

/// Times one event: the ticks since the last event (none if the event's tick
/// is smaller) last as many microseconds per tick as the timing in force
/// says; a tempo event then changes the timing for the events after it.
pub open spec fn clock_step(c: Clock, e: IndexedEvent) -> Result<(Clock, IndexedEvent), LoadError> {
    if !c.timing.well_formed() {
        Err(LoadError::ZeroDivisor)
    } else {
        let delta: int = if e.1 >= c.ticks {
            e.1 - c.ticks
        } else {
            0
        };
        let time: int = c.time + delta * c.timing.spec_microsecs_per_tick();
        if time > u32::MAX {
            Err(LoadError::TimeOverflow)
        } else {
            let timing = match e.2 {
                EventKind::Tempo(t) => c.timing.spec_set_microsecs_per_beat(t),
                _ => c.timing,
            };
            Ok((Clock { timing, ticks: e.1, time: time as u32 }, (e.0, time as u32, e.2)))
        }
    }
}

/// Times the first `n` events, starting from the clock `start`.
pub open spec fn timed_prefix(events: Seq<IndexedEvent>, start: Clock, n: int) -> Result<
    (Clock, Seq<IndexedEvent>),
    LoadError,
>
    decreases n,
{
    if n <= 0 {
        Ok((start, Seq::empty()))
    } else {
        match timed_prefix(events, start, n - 1) {
            Err(e) => Err(e),
            Ok((c, out)) => match clock_step(c, events[n - 1]) {
                Err(e) => Err(e),
                Ok((c2, x)) => Ok((c2, out.push(x))),
            },
        }
    }
}

/// Times a merged list of events, from tick 0 at time 0 with the given timing:
/// each event's tick is replaced by its time in microseconds.
pub open spec fn timed(events: Seq<IndexedEvent>, timing: SafeTiming) -> Result<
    Seq<IndexedEvent>,
    LoadError,
> {
    match timed_prefix(events, Clock { timing, ticks: 0, time: 0 }, events.len() as int) {
        Ok((_, out)) => Ok(out),
        Err(e) => Err(e),
    }
}

/// An executable result stands for a result of the specification.
pub open spec fn result_is(r: Result<Vec<IndexedEvent>, LoadError>, s: Result<Seq<IndexedEvent>, LoadError>) -> bool {
    match (r, s) {
        (Ok(v), Ok(w)) => v@ == w,
        (Err(a), Err(b)) => a == b,
        _ => false,
    }
}

/// Replaces the tick of each merged event by its time in microseconds.
pub fn time_events(events: &Vec<IndexedEvent>, timing: SafeTiming) -> (r: Result<
    Vec<IndexedEvent>,
    LoadError,
>)
    ensures
        result_is(r, timed(events@, timing)),
{
    let mut clock = Clock { timing, ticks: 0, time: 0 };
    let mut out: Vec<IndexedEvent> = Vec::new();
    let n = events.len();
    for k in 0..n
        invariant
            n == events@.len(),
            timed_prefix(events@, Clock { timing, ticks: 0, time: 0 }, k as int) == Ok::<
                (Clock, Seq<IndexedEvent>),
                LoadError,
            >((clock, out@)),
    {
        let e = events[k];
        let ghost prev = clock;
        match clock.timing {
            SafeTiming::Metrical(_, ticks_per_beat) => {
                if ticks_per_beat == 0 {
                    proof {
                        lemma_timed_prefix_err_stays(events@, Clock { timing, ticks: 0, time: 0 }, k + 1, n as int);
                    }
                    return Err(LoadError::ZeroDivisor);
                }
            },
            SafeTiming::Explicit(_) => {},
        }
        let delta = e.1.checked_sub(clock.ticks).unwrap_or(0);
        let per_tick = clock.timing.microsecs_per_tick();
        let step = delta.checked_mul(per_tick);
        let t = match step {
            Some(x) => clock.time.checked_add(x),
            None => None,
        };
        match t {
            None => {
                proof {
                    assert(delta * per_tick >= 0) by (nonlinear_arith)
                        requires delta >= 0, per_tick >= 0;
                    lemma_timed_prefix_err_stays(events@, Clock { timing, ticks: 0, time: 0 }, k + 1, n as int);
                }
                return Err(LoadError::TimeOverflow);
            },
            Some(time) => {
                match e.2 {
                    EventKind::Tempo(tempo) => {
                        let _ = clock.timing.set_microsecs_per_beat(tempo);
                    },
                    _ => {},
                }
                clock.ticks = e.1;
                clock.time = time;
                out.push((e.0, time, e.2));
            },
        }
    }
    Ok(out)
}

/// Once timing fails, it fails with the same error however many more events follow.
pub proof fn lemma_timed_prefix_err_stays(events: Seq<IndexedEvent>, start: Clock, a: int, b: int)
    requires
        0 <= a <= b,
        timed_prefix(events, start, a) is Err,
    ensures
        timed_prefix(events, start, b) == timed_prefix(events, start, a),
    decreases b - a,
{
    if a < b {
        lemma_timed_prefix_err_stays(events, start, a, b - 1);
    }
}

/// The view of a list of tracks.
pub open spec fn tracks_view(tracks: Seq<Vec<TrackEvent>>) -> Seq<Seq<TrackEvent>> {
    tracks.map_values(|t: Vec<TrackEvent>| t@)
}

/// Each track with the absolute tick of each of its events.
pub open spec fn all_ticked(tracks: Seq<Seq<TrackEvent>>) -> Seq<Seq<(u32, EventKind)>> {
    tracks.map_values(|t: Seq<TrackEvent>| ticked(t))
}

/// What turning a header and its tracks into one timed list gives:
/// the tracks must be meant for parallel playback, their absolute ticks must
/// fit in a `u32` and the divisors of a timecode header must be non-zero; the
/// events of all tracks are then merged by tick (then by track, then by place
/// in the track), and each tick is replaced by the time in microseconds that
/// the header's timing and the tempo events before it give.
pub open spec fn indexed_timed_events_spec(
    header: Header,
    tracks: Seq<Seq<TrackEvent>>,
    r: Result<Vec<IndexedEvent>, LoadError>,
) -> bool {
    if header.format != Format::Parallel {
        r == Err::<Vec<IndexedEvent>, LoadError>(LoadError::NotParallel)
    } else if exists|i: int| 0 <= i < tracks.len() && !ticks_fit(#[trigger] tracks[i]) {
        r == Err::<Vec<IndexedEvent>, LoadError>(LoadError::TickOverflow)
    } else if !SafeTiming::header_divisors_nonzero(header) {
        r == Err::<Vec<IndexedEvent>, LoadError>(LoadError::ZeroDivisor)
    } else {
        exists|sorted: Seq<IndexedEvent>|
            is_tick_ordered_listing(all_ticked(tracks), sorted) && result_is(
                r,
                timed(sorted, SafeTiming::spec_from_header(header)),
            )
    }
}

proof fn lemma_ticked_sorted(track: Seq<TrackEvent>)
    requires
        ticks_fit(track),
    ensures
        forall|j1: int, j2: int|
            0 <= j1 <= j2 < track.len() ==> #[trigger] ticked(track)[j1].0 <= #[trigger] ticked(
                track,
            )[j2].0,
{
    assert forall|j1: int, j2: int| 0 <= j1 <= j2 < track.len() implies #[trigger] ticked(
        track,
    )[j1].0 <= #[trigger] ticked(track)[j2].0 by {
        lemma_ticks_monotonic(track, j1 + 1, j2 + 1);
        lemma_ticks_monotonic(track, j2 + 1, track.len() as int);
        lemma_ticks_monotonic(track, 0, j1 + 1);
    }
}

/// Turns the header and the tracks of a file into one list of
/// `(track, time in microseconds, kind)`, ordered by time.
pub fn indexed_timed_events(header: &Header, tracks: &Vec<Vec<TrackEvent>>) -> (r: Result<
    Vec<IndexedEvent>,
    LoadError,
>)
    ensures
        indexed_timed_events_spec(*header, tracks_view(tracks@), r),
{
    let ghost tv = tracks_view(tracks@);
    if header.format != Format::Parallel {
        return Err(LoadError::NotParallel);
    }
    let n = tracks.len();
    let mut ticked_tracks: Vec<Vec<(u32, EventKind)>> = Vec::new();
    for i in 0..n
        invariant
            n == tracks@.len(),
            tv == tracks_view(tracks@),
            header.format == Format::Parallel,
            ticked_tracks@.len() == i,
            forall|i2: int| 0 <= i2 < i ==> ticks_fit(#[trigger] tv[i2]),
            forall|i2: int| 0 <= i2 < i ==> (#[trigger] ticked_tracks@[i2])@ == ticked(tv[i2]),
    {
        assert(tracks@[i as int]@ == tv[i as int]);
        match ticked_events(&tracks[i]) {
            None => {
                assert(!ticks_fit(tv[i as int]));
                assert(exists|i2: int| 0 <= i2 < tv.len() && !ticks_fit(#[trigger] tv[i2]));
                return Err(LoadError::TickOverflow);
            },
            Some(v) => {
                ticked_tracks.push(v);
            },
        }
    }
    let ghost tt = ticked_view(ticked_tracks@);
    assert(tt =~= all_ticked(tv));
    assert(tracks_sorted(tt)) by {
        assert forall|i: int, j1: int, j2: int|
            0 <= i < tt.len() && 0 <= j1 <= j2 < tt[i].len() implies #[trigger] tt[i][j1].0
            <= #[trigger] tt[i][j2].0 by {
            lemma_ticked_sorted(tv[i]);
            assert(tt[i] == ticked(tv[i]));
        }
    }
    let sorted = merge_tracks(&ticked_tracks);
    let divisors_ok = match header.timing {
        Timing::Metrical(_) => true,
        Timing::Timecode(fps, subframe) => fps != 0 && subframe != 0,
    };
    if !divisors_ok {
        return Err(LoadError::ZeroDivisor);
    }
    let timing = SafeTiming::from_header(header);
    let r = time_events(&sorted, timing);
    assert(is_tick_ordered_listing(all_ticked(tv), sorted@));
    r
}

/// Parses a Standard MIDI File and turns it into one list of
/// `(track, time in microseconds, kind)`, ordered by time.
pub fn parse_to_indexed_timed_events(bytes: &[u8]) -> (r: Result<Vec<IndexedEvent>, LoadError>)
    ensures
        decoded_smf(bytes@) is None ==> r == Err::<Vec<IndexedEvent>, LoadError>(LoadError::Parse),
        decoded_smf(bytes@) matches Some(m) ==> indexed_timed_events_spec(
            m.header,
            model_events(m),
            r,
        ),
{
    match decode_tracks(bytes) {
        Err(e) => Err(e),
        Ok((header, tracks)) => indexed_timed_events(&header, &tracks),
    }
}

/// A channel message with its track and its time in microseconds.
pub type TimedMessage = (usize, u32, MidiMessage);

/// The channel messages of a timed list, in order, without their channel.
pub open spec fn midi_messages(events: Seq<IndexedEvent>) -> Seq<TimedMessage>
    decreases events.len(),
{
    if events.len() == 0 {
        Seq::empty()
    } else {
        let rest = midi_messages(events.drop_last());
        let e = events.last();
        match e.2 {
            EventKind::Midi { message, .. } => rest.push((e.0, e.1, message)),
            _ => rest,
        }
    }
}

/// Keeps the channel messages of a timed list, in order, without their channel.
pub fn timed_messages(events: &Vec<IndexedEvent>) -> (r: Vec<TimedMessage>)
    ensures
        r@ == midi_messages(events@),
{
    let mut out: Vec<TimedMessage> = Vec::new();
    let n = events.len();
    for k in 0..n
        invariant
            n == events@.len(),
            out@ == midi_messages(events@.take(k as int)),
    {
        let e = events[k];
        assert(events@.take(k + 1).drop_last() =~= events@.take(k as int));
        match e.2 {
            EventKind::Midi { message, .. } => out.push((e.0, e.1, message)),
            _ => {},
        }
    }
    assert(events@.take(n as int) =~= events@);
    out
}

/// Parses a Standard MIDI File into the list of its channel messages, with
/// their track and time in microseconds, ordered by time.
pub fn parse_to_indexed_timed_messages(bytes: &[u8]) -> (r: Result<Vec<TimedMessage>, LoadError>)
    ensures
        decoded_smf(bytes@) is None ==> r == Err::<Vec<TimedMessage>, LoadError>(LoadError::Parse),
        decoded_smf(bytes@) matches Some(m) ==> exists|events: Result<Vec<IndexedEvent>, LoadError>|
            indexed_timed_events_spec(m.header, model_events(m), events) && match (events, r) {
                (Ok(v), Ok(w)) => w@ == midi_messages(v@),
                (Err(a), Err(b)) => a == b,
                _ => false,
            },
{
    let events = parse_to_indexed_timed_events(bytes);
    match events {
        Err(e) => Err(e),
        Ok(v) => Ok(timed_messages(&v)),
    }
}

/// Timing keeps every event, with its track and kind, in its place, and the
/// times it gives never decrease (nor fall below the starting time).
pub proof fn lemma_timed_prefix_ordered(events: Seq<IndexedEvent>, start: Clock, n: int)
    requires
        0 <= n <= events.len(),
        timed_prefix(events, start, n) is Ok,
    ensures
        ({
            let (c, out) = timed_prefix(events, start, n).unwrap();
            &&& out.len() == n
            &&& forall|k: int|
                0 <= k < n ==> (#[trigger] out[k]).0 == events[k].0 && out[k].2 == events[k].2
            &&& forall|a: int, b: int| 0 <= a <= b < n ==> #[trigger] out[a].1 <= #[trigger] out[b].1
            &&& forall|k: int| 0 <= k < n ==> start.time <= (#[trigger] out[k]).1 <= c.time
            &&& start.time <= c.time
        }),
    decreases n,
{
    if n > 0 {
        lemma_timed_prefix_ordered(events, start, n - 1);
        let (c, out) = timed_prefix(events, start, n - 1).unwrap();
        let e = events[n - 1];
        let delta: int = if e.1 >= c.ticks {
            e.1 - c.ticks
        } else {
            0
        };
        assert(delta * c.timing.spec_microsecs_per_tick() >= 0) by (nonlinear_arith)
            requires
                delta >= 0,
        ;
    }
}

/// The timed list of a file is ordered by time, and it keeps the track and
/// the kind of every merged event in its place.
pub proof fn law_timed_events_ordered(
    header: Header,
    tracks: Seq<Seq<TrackEvent>>,
    r: Result<Vec<IndexedEvent>, LoadError>,
)
    requires
        indexed_timed_events_spec(header, tracks, r),
        r is Ok,
    ensures
        exists|sorted: Seq<IndexedEvent>|
            is_tick_ordered_listing(all_ticked(tracks), sorted) && sorted.len() == r->Ok_0@.len()
                && forall|k: int|
                0 <= k < sorted.len() ==> (#[trigger] r->Ok_0@[k]).0 == sorted[k].0 && r->Ok_0@[k].2
                    == sorted[k].2,
        forall|a: int, b: int|
            0 <= a <= b < r->Ok_0@.len() ==> #[trigger] r->Ok_0@[a].1 <= #[trigger] r->Ok_0@[b].1,
{
    let sorted = choose|sorted: Seq<IndexedEvent>|
        is_tick_ordered_listing(all_ticked(tracks), sorted) && result_is(
            r,
            timed(sorted, SafeTiming::spec_from_header(header)),
        );
    let start = Clock { timing: SafeTiming::spec_from_header(header), ticks: 0, time: 0 };
    lemma_timed_prefix_ordered(sorted, start, sorted.len() as int);
}

/// Keeping the channel messages of a list ordered by time gives a list
/// ordered by time, none of whose times exceeds the last of the list.
proof fn lemma_midi_messages_ordered(e: Seq<IndexedEvent>)
    requires
        forall|a: int, b: int| 0 <= a <= b < e.len() ==> #[trigger] e[a].1 <= #[trigger] e[b].1,
    ensures
        forall|a: int, b: int|
            0 <= a <= b < midi_messages(e).len() ==> #[trigger] midi_messages(e)[a].1
                <= #[trigger] midi_messages(e)[b].1,
        e.len() > 0 ==> forall|k: int|
            0 <= k < midi_messages(e).len() ==> #[trigger] midi_messages(e)[k].1 <= e.last().1,
        e.len() == 0 ==> midi_messages(e).len() == 0,
    decreases e.len(),
{
    if e.len() > 0 {
        let d = e.drop_last();
        assert forall|a: int, b: int| 0 <= a <= b < d.len() implies #[trigger] d[a].1
            <= #[trigger] d[b].1 by {
            assert(d[a] == e[a] && d[b] == e[b]);
        }
        lemma_midi_messages_ordered(d);
        let rest = midi_messages(d);
        let mm = midi_messages(e);
        assert(forall|k: int| 0 <= k < rest.len() ==> #[trigger] rest[k].1 <= e.last().1) by {
            if d.len() > 0 {
                assert(d.last() == e[e.len() - 2]);
            }
        }
        match e.last().2 {
            EventKind::Midi { message, .. } => {
                assert(mm == rest.push((e.last().0, e.last().1, message)));
                assert forall|a: int, b: int| 0 <= a <= b < mm.len() implies #[trigger] mm[a].1
                    <= #[trigger] mm[b].1 by {
                    if b == rest.len() {
                        if a < rest.len() {
                            assert(mm[a] == rest[a]);
                        }
                    } else {
                        assert(mm[a] == rest[a] && mm[b] == rest[b]);
                    }
                }
                assert forall|k: int| 0 <= k < mm.len() implies #[trigger] mm[k].1 <= e.last().1 by {
                    if k < rest.len() {
                        assert(mm[k] == rest[k]);
                    }
                }
            },
            _ => {
                assert(mm == rest);
            },
        }
    }
}

/// The channel messages that a file gives are ordered by time.
pub proof fn law_timed_messages_ordered(
    header: Header,
    tracks: Seq<Seq<TrackEvent>>,
    events: Result<Vec<IndexedEvent>, LoadError>,
)
    requires
        indexed_timed_events_spec(header, tracks, events),
        events is Ok,
    ensures
        forall|a: int, b: int|
            0 <= a <= b < midi_messages(events->Ok_0@).len() ==> #[trigger] midi_messages(
                events->Ok_0@,
            )[a].1 <= #[trigger] midi_messages(events->Ok_0@)[b].1,
{
    law_timed_events_ordered(header, tracks, events);
    lemma_midi_messages_ordered(events->Ok_0@);
}

proof fn lemma_listing_prefix_agrees(
    tracks: Seq<Seq<(u32, EventKind)>>,
    out1: Seq<IndexedEvent>,
    o1: Seq<(int, int)>,
    p1: Seq<Seq<int>>,
    out2: Seq<IndexedEvent>,
    o2: Seq<(int, int)>,
    p2: Seq<Seq<int>>,
    n: int,
)
    requires
        listing_via(tracks, out1, o1, p1),
        listing_via(tracks, out2, o2, p2),
        0 <= n <= out1.len(),
        n <= out2.len(),
    ensures
        forall|k: int| 0 <= k < n ==> #[trigger] o1[k] == o2[k],
    decreases n,
{
    if n > 0 {
        lemma_listing_prefix_agrees(tracks, out1, o1, p1, out2, o2, p2, n - 1);
        let k = n - 1;
        let a = o1[k];
        let b = o2[k];
        if a != b {
            // where each of the two events stands in the other list
            let ma = p2[a.0][a.1];
            let mb = p1[b.0][b.1];
            assert(o2[ma] == a);
            assert(o1[mb] == b);
            if ma < k {
                assert(o1[ma] == o2[ma]);
                assert(key_lt(out1[ma].1 as int, o1[ma].0, o1[ma].1, out1[k].1 as int, a.0, a.1));
                assert(false);
            }
            if mb < k {
                assert(o1[mb] == o2[mb]);
                assert(key_lt(out2[mb].1 as int, o2[mb].0, o2[mb].1, out2[k].1 as int, b.0, b.1));
                assert(false);
            }
            // both lists put the other's event later, so each event comes before the other
            assert(key_lt(out2[k].1 as int, b.0, b.1, out2[ma].1 as int, a.0, a.1));
            assert(key_lt(out1[k].1 as int, a.0, a.1, out1[mb].1 as int, b.0, b.1));
            assert(false);
        }
    }
}

/// The merged list is unique: two lists that both list the events of the
/// same tracks by tick, then by track, then by place, are the same list.
pub proof fn law_tick_ordered_listing_unique(
    tracks: Seq<Seq<(u32, EventKind)>>,
    out1: Seq<IndexedEvent>,
    out2: Seq<IndexedEvent>,
)
    requires
        is_tick_ordered_listing(tracks, out1),
        is_tick_ordered_listing(tracks, out2),
    ensures
        out1 == out2,
{
    let (o1, p1) = choose|o: Seq<(int, int)>, p: Seq<Seq<int>>| listing_via(tracks, out1, o, p);
    let (o2, p2) = choose|o: Seq<(int, int)>, p: Seq<Seq<int>>| listing_via(tracks, out2, o, p);
    if out1.len() < out2.len() {
        let n = out1.len() as int;
        lemma_listing_prefix_agrees(tracks, out1, o1, p1, out2, o2, p2, n);
        let b = o2[n];
        let mb = p1[b.0][b.1];
        assert(o1[mb] == b);
        assert(o2[mb] == b);
        assert(key_lt(out2[mb].1 as int, o2[mb].0, o2[mb].1, out2[n].1 as int, b.0, b.1));
        assert(false);
    } else if out2.len() < out1.len() {
        let n = out2.len() as int;
        lemma_listing_prefix_agrees(tracks, out2, o2, p2, out1, o1, p1, n);
        let a = o1[n];
        let ma = p2[a.0][a.1];
        assert(o2[ma] == a);
        assert(o1[ma] == a);
        assert(key_lt(out1[ma].1 as int, o1[ma].0, o1[ma].1, out1[n].1 as int, a.0, a.1));
        assert(false);
    }
    lemma_listing_prefix_agrees(tracks, out1, o1, p1, out2, o2, p2, out1.len() as int);
    assert forall|k: int| 0 <= k < out1.len() implies out1[k] == out2[k] by {
        assert(o1[k] == o2[k]);
    }
    assert(out1 =~= out2);
}

/// The number of tempo events in a list.
pub open spec fn count_tempo(events: Seq<IndexedEvent>) -> nat
    decreases events.len(),
{
    if events.len() == 0 {
        0
    } else {
        count_tempo(events.drop_last()) + (if events.last().2 is Tempo {
            1nat
        } else {
            0nat
        })
    }
}

/// How many tempo events the timing of a header ignores: a timecode header
/// has no beat, so every tempo event of the timed list is ignored (and calls
/// for a warning); a metrical header ignores none.
pub open spec fn spec_ignored_tempo_events(header: Header, events: Seq<IndexedEvent>) -> nat {
    if header.timing is Timecode {
        count_tempo(events)
    } else {
        0
    }
}

/// Counts the tempo events of a timed list that the header's timing ignores.
pub fn ignored_tempo_events(header: &Header, events: &Vec<IndexedEvent>) -> (r: usize)
    ensures
        r == spec_ignored_tempo_events(*header, events@),
{
    let is_timecode = match header.timing {
        Timing::Timecode(_, _) => true,
        Timing::Metrical(_) => false,
    };
    if !is_timecode {
        return 0;
    }
    let n = events.len();
    let mut count: usize = 0;
    for k in 0..n
        invariant
            n == events@.len(),
            count == count_tempo(events@.take(k as int)),
            count <= k,
    {
        assert(events@.take(k + 1).drop_last() =~= events@.take(k as int));
        match events[k].2 {
            EventKind::Tempo(_) => {
                count = count + 1;
            },
            _ => {},
        }
    }
    assert(events@.take(n as int) =~= events@);
    count
}

/// The timing in force for event `k` of a list: the starting timing, changed
/// by every tempo event before `k`, in order.
pub open spec fn timing_in_force(timing: SafeTiming, events: Seq<IndexedEvent>, k: int) -> SafeTiming
    decreases k,
{
    if k <= 0 {
        timing
    } else {
        let t = timing_in_force(timing, events, k - 1);
        match events[k - 1].2 {
            EventKind::Tempo(p) => t.spec_set_microsecs_per_beat(p),
            _ => t,
        }
    }
}

/// The ticks from the event before `k` (from tick 0 for the first) to event
/// `k`; none when event `k` comes at a smaller tick.
pub open spec fn tick_gap(events: Seq<IndexedEvent>, k: int) -> int {
    let prev: int = if k == 0 {
        0
    } else {
        events[k - 1].1 as int
    };
    if events[k].1 >= prev {
        events[k].1 - prev
    } else {
        0
    }
}

proof fn lemma_timed_prefix_clock(events: Seq<IndexedEvent>, timing: SafeTiming, n: int)
    requires
        0 <= n <= events.len(),
        timed_prefix(events, Clock { timing, ticks: 0, time: 0 }, n) is Ok,
    ensures
        ({
            let (c, out) = timed_prefix(events, Clock { timing, ticks: 0, time: 0 }, n).unwrap();
            &&& out.len() == n
            &&& c.timing == timing_in_force(timing, events, n)
            &&& c.ticks == (if n == 0 {
                0
            } else {
                events[n - 1].1
            })
            &&& c.time == (if n == 0 {
                0
            } else {
                out[n - 1].1
            })
            &&& forall|k: int|
                0 <= k < n ==> (#[trigger] out[k]).1 == (if k == 0 {
                    0
                } else {
                    out[k - 1].1 as int
                }) + tick_gap(events, k) * timing_in_force(timing, events, k).spec_microsecs_per_tick()
        }),
    decreases n,
{
    if n > 0 {
        let start = Clock { timing, ticks: 0, time: 0 };
        lemma_timed_prefix_clock(events, timing, n - 1);
        let (c, out) = timed_prefix(events, start, n - 1).unwrap();
        let (c2, x) = clock_step(c, events[n - 1]).unwrap();
        let out2 = out.push(x);
        assert(timed_prefix(events, start, n).unwrap() == (c2, out2));
        assert forall|k: int| 0 <= k < n implies (#[trigger] out2[k]).1 == (if k == 0 {
            0
        } else {
            out2[k - 1].1 as int
        }) + tick_gap(events, k) * timing_in_force(timing, events, k).spec_microsecs_per_tick() by {
            if k < n - 1 {
                assert(out2[k] == out[k]);
                if k > 0 {
                    assert(out2[k - 1] == out[k - 1]);
                }
            } else {
                if k > 0 {
                    assert(out2[k - 1] == out[k - 1]);
                }
            }
        }
    }
}

/// Every tempo event sets the tick length for the events after it: the time
/// of each event is the time of the event before it (0 for the first) plus
/// the ticks between them times the tick length that the latest tempo event
/// before it left in force.
pub proof fn law_tempo_sets_later_tick_lengths(events: Seq<IndexedEvent>, timing: SafeTiming)
    requires
        timed(events, timing) is Ok,
    ensures
        ({
            let out = timed(events, timing)->Ok_0;
            &&& out.len() == events.len()
            &&& forall|k: int|
                0 <= k < events.len() ==> (#[trigger] out[k]).1 == (if k == 0 {
                    0
                } else {
                    out[k - 1].1 as int
                }) + tick_gap(events, k) * timing_in_force(timing, events, k).spec_microsecs_per_tick()
        }),
{
    lemma_timed_prefix_clock(events, timing, events.len() as int);
}

/// The number of channel events among the first `n` events of a list.
pub open spec fn count_midi(events: Seq<IndexedEvent>, n: int) -> int
    decreases n,
{
    if n <= 0 {
        0
    } else {
        count_midi(events, n - 1) + (if events[n - 1].2 is Midi {
            1int
        } else {
            0int
        })
    }
}

proof fn lemma_count_midi_prefix(a: Seq<IndexedEvent>, b: Seq<IndexedEvent>, n: int)
    requires
        0 <= n <= a.len(),
        n <= b.len(),
        forall|i: int| 0 <= i < n ==> a[i] == b[i],
    ensures
        count_midi(a, n) == count_midi(b, n),
        0 <= count_midi(a, n) <= n,
    decreases n,
{
    if n > 0 {
        lemma_count_midi_prefix(a, b, n - 1);
    }
}

/// Every channel event of a timed list is kept, in order, whatever its
/// message: there is one message per channel event, and the message of the
/// channel event at position `j` stands after those of the channel events
/// before it, with its track, time and message.
pub proof fn law_every_channel_event_kept(events: Seq<IndexedEvent>)
    ensures
        midi_messages(events).len() == count_midi(events, events.len() as int),
        forall|j: int|
            0 <= j < events.len() && (#[trigger] events[j]).2 is Midi ==> midi_messages(
                events,
            )[count_midi(events, j)] == (events[j].0, events[j].1, events[j].2->message),
    decreases events.len(),
{
    if events.len() > 0 {
        let d = events.drop_last();
        let n = events.len() - 1;
        law_every_channel_event_kept(d);
        lemma_count_midi_prefix(d, events, n);
        let rest = midi_messages(d);
        let mm = midi_messages(events);
        assert forall|j: int|
            0 <= j < events.len() && (#[trigger] events[j]).2 is Midi implies mm[count_midi(
                events,
                j,
            )] == (events[j].0, events[j].1, events[j].2->message) by {
            lemma_count_midi_prefix(d, events, j);
            if j < n {
                assert(d[j] == events[j]);
                assert(rest[count_midi(d, j)] == (d[j].0, d[j].1, d[j].2->message));
                lemma_count_midi_prefix(d, d, j + 1);
                assert(count_midi(d, j + 1) == count_midi(d, j) + 1);
                lemma_count_midi_prefix(d, d, n);
                assert(count_midi(d, j + 1) <= count_midi(d, n)) by {
                    lemma_count_midi_mono(d, j + 1, n);
                }
                if events.last().2 is Midi {
                    assert(mm == rest.push((events.last().0, events.last().1, events.last().2->message)));
                } else {
                    assert(mm == rest);
                }
            } else {
                assert(mm == rest.push((events.last().0, events.last().1, events.last().2->message)));
            }
        }
    }
}

proof fn lemma_count_midi_mono(e: Seq<IndexedEvent>, a: int, b: int)
    requires
        0 <= a <= b,
    ensures
        count_midi(e, a) <= count_midi(e, b),
    decreases b - a,
{
    if a < b {
        lemma_count_midi_mono(e, a, b - 1);
    }
}

/// The absolute tick of each event is the absolute tick of the event before
/// it in the same track (0 for the first) plus its own delta time.
pub proof fn law_ticks_accumulate_deltas(track: Seq<TrackEvent>)
    requires
        ticks_fit(track),
    ensures
        ticked(track).len() == track.len(),
        forall|k: int|
            0 <= k < track.len() ==> (#[trigger] ticked(track)[k]).0 == (if k == 0 {
                0
            } else {
                ticked(track)[k - 1].0 as int
            }) + track[k].delta && ticked(track)[k].1 == track[k].kind,
{
    assert forall|k: int| 0 <= k < track.len() implies (#[trigger] ticked(track)[k]).0 == (if k
        == 0 {
        0
    } else {
        ticked(track)[k - 1].0 as int
    }) + track[k].delta && ticked(track)[k].1 == track[k].kind by {
        lemma_ticks_monotonic(track, k + 1, track.len() as int);
        lemma_ticks_monotonic(track, 0, k);
    }
}

} // verus!
