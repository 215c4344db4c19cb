use stemmefil::parse::safe_timing::SafeTiming;
use stemmefil::parse::{Format, Header, Timing};

#[test]
fn metrical_tick_length_rounds_down() {
    assert_eq!(SafeTiming::Metrical(1_000_000, 480).microsecs_per_tick(), 2083);
    assert_eq!(SafeTiming::Metrical(500_000, 96).microsecs_per_tick(), 5208);
}

#[test]
fn explicit_tick_length_is_kept() {
    assert_eq!(SafeTiming::Explicit(417).microsecs_per_tick(), 417);
}

#[test]
fn metrical_header_starts_at_one_second_per_beat() {
    let h = Header { format: Format::Parallel, timing: Timing::Metrical(96) };
    assert_eq!(SafeTiming::from_header(&h), SafeTiming::Metrical(1_000_000, 96));
}

#[test]
fn timecode_header_fixes_the_tick() {
    let h = Header { format: Format::Parallel, timing: Timing::Timecode(25, 40) };
    assert_eq!(SafeTiming::from_header(&h), SafeTiming::Explicit(1000));
    let h = Header { format: Format::Parallel, timing: Timing::Timecode(29, 80) };
    assert_eq!(SafeTiming::from_header(&h), SafeTiming::Explicit(1_000_000 / 29 / 80));
}

#[test]
fn tempo_changes_a_metrical_timing_only() {
    let mut t = SafeTiming::Metrical(1_000_000, 96);
    assert!(t.set_microsecs_per_beat(500_000));
    assert_eq!(t, SafeTiming::Metrical(500_000, 96));
    assert_eq!(t.microsecs_per_tick(), 5208);
    let mut e = SafeTiming::Explicit(1000);
    assert!(!e.set_microsecs_per_beat(500_000));
    assert_eq!(e, SafeTiming::Explicit(1000));
}
