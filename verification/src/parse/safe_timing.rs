use vstd::prelude::*;
use crate::parse::{Header, Timing};

verus! {

/// How long a MIDI tick lasts.
///
/// `Metrical(microsecs_per_beat, ticks_per_beat)`: a tick is a fraction of a
/// beat, whose length the tempo events of the file set.
/// `Explicit(microsecs_per_tick)`: the file fixes the length of a tick.
#[derive(Clone, Copy, Debug, PartialEq, Eq, Structural)]
pub enum SafeTiming {
    Metrical(u32, u32),
    Explicit(u32),
}

impl SafeTiming {
    /// The timing is usable: a metrical timing has a non-zero number of ticks per beat.
    pub open spec fn well_formed(self) -> bool {
        match self {
            SafeTiming::Metrical(_, ticks_per_beat) => ticks_per_beat != 0,
            SafeTiming::Explicit(_) => true,
        }
    }

    /// Microseconds per tick, rounded down.
    pub open spec fn spec_microsecs_per_tick(self) -> u32 {
        match self {
            SafeTiming::Metrical(microsecs_per_beat, ticks_per_beat) => (microsecs_per_beat
                / ticks_per_beat) as u32,
            SafeTiming::Explicit(microsecs_per_tick) => microsecs_per_tick,
        }
    }

    /// Microseconds per tick, rounded down.
    pub fn microsecs_per_tick(&self) -> (r: u32)
        requires
            self.well_formed(),
        ensures
            r == self.spec_microsecs_per_tick(),
    {
        match self {
            SafeTiming::Metrical(microsecs_per_beat, ticks_per_beat) => *microsecs_per_beat
                / *ticks_per_beat,
            SafeTiming::Explicit(microsecs_per_tick) => *microsecs_per_tick,
        }
    }

    /// The timing of a header: a metrical header starts at 1 000 000
    /// microseconds per beat (a tempo of 60 beats per minute) until a tempo
    /// event says otherwise; a timecode header fixes the tick at
    /// `1 000 000 / fps / ticks_per_frame` microseconds, each division rounded down.
    pub open spec fn spec_from_header(header: Header) -> SafeTiming {
        match header.timing {
            Timing::Metrical(ticks_per_beat) => SafeTiming::Metrical(1_000_000, ticks_per_beat as u32),
            Timing::Timecode(fps, subframe) => SafeTiming::Explicit(
                ((1_000_000u32 / (fps as u32)) / (subframe as u32)) as u32,
            ),
        }
    }

    /// The divisors of a timecode header are non-zero.
    pub open spec fn header_divisors_nonzero(header: Header) -> bool {
        match header.timing {
            Timing::Metrical(_) => true,
            Timing::Timecode(fps, subframe) => fps != 0 && subframe != 0,
        }
    }

    /// The timing that a header gives.
    pub fn from_header(header: &Header) -> (r: SafeTiming)
        requires
            Self::header_divisors_nonzero(*header),
        ensures
            r == Self::spec_from_header(*header),
    {
        match header.timing {
            Timing::Metrical(ticks_per_beat) => SafeTiming::Metrical(1_000_000, ticks_per_beat as u32),
            Timing::Timecode(fps, subframe) => SafeTiming::Explicit(
                1_000_000 / (fps as u32) / (subframe as u32),
            ),
        }
    }

    /// The timing after a tempo event: a metrical timing takes the new number
    /// of microseconds per beat; an explicit timing has no beat and is kept.
    pub open spec fn spec_set_microsecs_per_beat(self, new_microsecs_per_beat: u32) -> SafeTiming {
        match self {
            SafeTiming::Metrical(_, ticks_per_beat) => SafeTiming::Metrical(
                new_microsecs_per_beat,
                ticks_per_beat,
            ),
            SafeTiming::Explicit(microsecs_per_tick) => SafeTiming::Explicit(microsecs_per_tick),
        }
    }

    /// Applies a tempo event; `false` where the timing has no beat, so the
    /// tempo event is ignored (the case that calls for a warning).
    pub fn set_microsecs_per_beat(&mut self, new_microsecs_per_beat: u32) -> (applied: bool)
        ensures
            *final(self) == old(self).spec_set_microsecs_per_beat(new_microsecs_per_beat),
            applied == (*old(self) is Metrical),
    {
        match self {
            SafeTiming::Metrical(microsecs_per_beat, _) => {
                *microsecs_per_beat = new_microsecs_per_beat;
                true
            },
            SafeTiming::Explicit(_) => false,
        }
    }
}

/// After a tempo event, a metrical tick lasts the new number of microseconds
/// per beat divided by the ticks per beat; an explicit tick is unchanged.
pub proof fn law_tempo_sets_tick_length(timing: SafeTiming, tempo: u32)
    requires
        timing.well_formed(),
    ensures
        timing.spec_set_microsecs_per_beat(tempo).well_formed(),
        timing matches SafeTiming::Metrical(_, tpb) ==> timing.spec_set_microsecs_per_beat(
            tempo,
        ).spec_microsecs_per_tick() == tempo / tpb,
        timing is Explicit ==> timing.spec_set_microsecs_per_beat(tempo).spec_microsecs_per_tick()
            == timing.spec_microsecs_per_tick(),
{
}

/// A metrical file plays at 1 000 000 microseconds per beat until its first
/// tempo event: a tick lasts 1 000 000 divided by the ticks per beat.
pub proof fn law_metrical_default_tempo(header: Header, ticks_per_beat: u16)
    requires
        header.timing == Timing::Metrical(ticks_per_beat),
        ticks_per_beat != 0,
    ensures
        SafeTiming::spec_from_header(header).well_formed(),
        SafeTiming::spec_from_header(header).spec_microsecs_per_tick() == 1_000_000u32 / (
        ticks_per_beat as u32),
{
}

} // verus!
