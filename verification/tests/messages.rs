use stemmefil::conn::{
    aftertouch, channel_aftertouch, controller, note_off, note_on, pan, pitch_bend,
    program_change, select_port, silence, silence_all, volume, PortError,
};

#[test]
fn channel_messages_carry_the_channel_in_the_status_byte() {
    assert_eq!(note_off(0, 60, 64), vec![128, 60, 64]);
    assert_eq!(note_on(3, 60, 100), vec![147, 60, 100]);
    assert_eq!(aftertouch(15, 61, 20), vec![175, 61, 20]);
    assert_eq!(controller(2, 64, 127), vec![178, 64, 127]);
    assert_eq!(program_change(9, 5), vec![201, 5]);
    assert_eq!(channel_aftertouch(1, 33), vec![209, 33]);
}

#[test]
fn note_on_reaches_the_last_status_byte() {
    assert_eq!(note_on(111, 1, 2), vec![255, 1, 2]);
}

#[test]
fn pitch_bend_sends_low_then_high_seven_bits() {
    assert_eq!(pitch_bend(0, 100), vec![224, 100, 0]);
    assert_eq!(pitch_bend(1, 8192), vec![225, 0, 64]);
    assert_eq!(pitch_bend(2, 0x2001), vec![226, 1, 64]);
    assert_eq!(pitch_bend(31, 16383), vec![255, 127, 127]);
}

#[test]
fn control_changes_of_the_mixer() {
    assert_eq!(silence(4), vec![180, 120, 0]);
    assert_eq!(pan(4, 10), vec![180, 10, 10]);
    assert_eq!(volume(4, 90), vec![180, 7, 90]);
}

#[test]
fn silence_all_covers_sixteen_channels() {
    let all = silence_all();
    assert_eq!(all.len(), 16);
    for (c, m) in all.iter().enumerate() {
        assert_eq!(m, &vec![176 + c as u8, 120, 0]);
    }
}

#[test]
fn no_port_no_choice() {
    assert_eq!(select_port(0, "0"), Err(PortError::NoPorts));
}

#[test]
fn a_single_port_is_chosen_whatever_the_answer() {
    assert_eq!(select_port(1, "nonsense"), Ok(0));
}

#[test]
fn answer_is_trimmed_and_parsed() {
    assert_eq!(select_port(3, " 2\n"), Ok(2));
    assert_eq!(select_port(3, "\t+1 "), Ok(1));
    assert_eq!(select_port(3, "0"), Ok(0));
    assert_eq!(select_port(3, "007"), Err(PortError::InvalidPort));
    assert_eq!(select_port(12, "011"), Ok(11));
}

#[test]
fn unicode_white_space_is_trimmed() {
    assert_eq!(select_port(8, "\u{3000}5\u{85}"), Ok(5));
    assert_eq!(select_port(8, "\u{a0}\u{2028}7\r\n"), Ok(7));
    assert_eq!(select_port(8, "\u{200b}5"), Err(PortError::InvalidDigit));
}

#[test]
fn bad_answers_are_refused() {
    assert_eq!(select_port(3, "3"), Err(PortError::InvalidPort));
    assert_eq!(select_port(3, "x"), Err(PortError::InvalidDigit));
    assert_eq!(select_port(3, ""), Err(PortError::Empty));
    assert_eq!(select_port(3, " \n"), Err(PortError::Empty));
    assert_eq!(select_port(3, "+"), Err(PortError::InvalidDigit));
    assert_eq!(select_port(3, "-"), Err(PortError::InvalidDigit));
    assert_eq!(select_port(3, "-1"), Err(PortError::InvalidDigit));
    assert_eq!(select_port(3, "+-1"), Err(PortError::InvalidDigit));
    assert_eq!(select_port(3, "1 2"), Err(PortError::InvalidDigit));
    assert_eq!(select_port(3, "99999999999999999999999"), Err(PortError::PosOverflow));
    assert_eq!(select_port(3, "99999999999999999999999x"), Err(PortError::PosOverflow));
    assert_eq!(select_port(3, "x99999999999999999999999"), Err(PortError::InvalidDigit));
    assert_eq!(select_port(3, "18446744073709551616"), Err(PortError::PosOverflow));
    assert_eq!(select_port(3, "18446744073709551615"), Err(PortError::InvalidPort));
    assert_eq!(select_port(3, "\u{0661}"), Err(PortError::InvalidDigit));
}

#[test]
fn errors_are_those_of_usize_from_str() {
    for answer in ["", "+", "-", "x", "-1", "12a", "99999999999999999999999", "99999999999999999999999x"] {
        let ours = select_port(2, answer);
        let std_kind = answer.trim().parse::<usize>().unwrap_err().kind().clone();
        let expected = match std_kind {
            std::num::IntErrorKind::Empty => PortError::Empty,
            std::num::IntErrorKind::InvalidDigit => PortError::InvalidDigit,
            std::num::IntErrorKind::PosOverflow => PortError::PosOverflow,
            _ => panic!("unexpected kind"),
        };
        assert_eq!(ours, Err(expected));
    }
}
