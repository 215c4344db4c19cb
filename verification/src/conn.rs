//! The MIDI channel messages that the player sends, and the choice of the
//! output port.
use vstd::prelude::*;
use vstd::utf8::encode_utf8;

verus! {

// https://www.midi.org/specifications-old/item/table-3-control-change-messages-data-bytes-2
// https://www.midi.org/specifications-old/item/table-2-expanded-messages-list-status-bytes
/// Status byte of a note-off message on channel 0.
pub const NOTE_OFF_CHAN_BASE: u8 = 128;
/// Status byte of a note-on message on channel 0.
pub const NOTE_ON_CHAN_BASE: u8 = 144;
/// Status byte of a polyphonic aftertouch message on channel 0.
pub const AFTERTOUCH_CHAN_BASE: u8 = 160;
/// Status byte of a control change message on channel 0.
pub const CONTROL_MODE_CHANGE_CHAN_BASE: u8 = 176;
/// Status byte of a program change message on channel 0.
pub const PROGRAM_CHANGE_CHAN_BASE: u8 = 192;
/// Status byte of a channel aftertouch message on channel 0.
pub const CHANNEL_AFTERTOUCH_CHAN_BASE: u8 = 208;
/// Status byte of a pitch bend message on channel 0.
pub const PITCH_BEND_CHAN_BASE: u8 = 224;

/// Controller number of "all sound off".
pub const ALL_SOUND_OFF_MSG: u8 = 120;
/// Controller number of the pan position.
pub const PAN_MSG: u8 = 10;
/// Controller number of the channel volume.
pub const VOLUME_MSG: u8 = 7;

/// `base + chan` is a byte: the status byte of a message for `chan` exists.
pub open spec fn status_fits(base: u8, chan: u8) -> bool {
    base + chan <= u8::MAX
}

/// The bytes of a message: its status byte `base + chan`, then its data bytes.
pub open spec fn spec_msg3(base: u8, chan: u8, d1: u8, d2: u8) -> Seq<u8> {
    seq![(base + chan) as u8, d1, d2]
}

/// The bytes of a message with one data byte.
pub open spec fn spec_msg2(base: u8, chan: u8, d1: u8) -> Seq<u8> {
    seq![(base + chan) as u8, d1]
}

/// A note-off message.
pub fn note_off(chan: u8, key: u8, vel: u8) -> (msg: Vec<u8>)
    requires
        status_fits(NOTE_OFF_CHAN_BASE, chan),
    ensures
        msg@ == spec_msg3(NOTE_OFF_CHAN_BASE, chan, key, vel),
{
    vec![NOTE_OFF_CHAN_BASE + chan, key, vel]
}

/// A note-on message.
pub fn note_on(chan: u8, key: u8, vel: u8) -> (msg: Vec<u8>)
    requires
        status_fits(NOTE_ON_CHAN_BASE, chan),
    ensures
        msg@ == spec_msg3(NOTE_ON_CHAN_BASE, chan, key, vel),
{
    vec![NOTE_ON_CHAN_BASE + chan, key, vel]
}

/// A polyphonic aftertouch message.
pub fn aftertouch(chan: u8, key: u8, vel: u8) -> (msg: Vec<u8>)
    requires
        status_fits(AFTERTOUCH_CHAN_BASE, chan),
    ensures
        msg@ == spec_msg3(AFTERTOUCH_CHAN_BASE, chan, key, vel),
{
    vec![AFTERTOUCH_CHAN_BASE + chan, key, vel]
}

/// A control change message.
pub fn controller(chan: u8, number: u8, val: u8) -> (msg: Vec<u8>)
    requires
        status_fits(CONTROL_MODE_CHANGE_CHAN_BASE, chan),
    ensures
        msg@ == spec_msg3(CONTROL_MODE_CHANGE_CHAN_BASE, chan, number, val),
{
    vec![CONTROL_MODE_CHANGE_CHAN_BASE + chan, number, val]
}

/// A program change message.
pub fn program_change(chan: u8, val: u8) -> (msg: Vec<u8>)
    requires
        status_fits(PROGRAM_CHANGE_CHAN_BASE, chan),
    ensures
        msg@ == spec_msg2(PROGRAM_CHANGE_CHAN_BASE, chan, val),
{
    vec![PROGRAM_CHANGE_CHAN_BASE + chan, val]
}

/// A channel aftertouch message.
pub fn channel_aftertouch(chan: u8, vel: u8) -> (msg: Vec<u8>)
    requires
        status_fits(CHANNEL_AFTERTOUCH_CHAN_BASE, chan),
    ensures
        msg@ == spec_msg2(CHANNEL_AFTERTOUCH_CHAN_BASE, chan, vel),
{
    vec![CHANNEL_AFTERTOUCH_CHAN_BASE + chan, vel]
}

/// A pitch bend message: the 14-bit value is sent as its low 7 bits, then
/// its high 7 bits.
pub fn pitch_bend(chan: u8, vel: u16) -> (msg: Vec<u8>)
    requires
        status_fits(PITCH_BEND_CHAN_BASE, chan),
        vel < 16384,
    ensures
        msg@ == spec_msg3(PITCH_BEND_CHAN_BASE, chan, (vel % 128) as u8, (vel / 128) as u8),
{
    let low: u16 = vel % 128;
    let high: u16 = vel / 128;
    vec![PITCH_BEND_CHAN_BASE + chan, low as u8, high as u8]
}

/// The "all sound off" message of a channel.
pub fn silence(chan: u8) -> (msg: Vec<u8>)
    requires
        status_fits(CONTROL_MODE_CHANGE_CHAN_BASE, chan),
    ensures
        msg@ == spec_msg3(CONTROL_MODE_CHANGE_CHAN_BASE, chan, ALL_SOUND_OFF_MSG, 0),
{
    controller(chan, ALL_SOUND_OFF_MSG, 0)
}

/// The "all sound off" messages of the sixteen channels, channel 0 first.
pub fn silence_all() -> (msgs: Vec<Vec<u8>>)
    ensures
        msgs@.len() == 16,
        forall|c: int|
            0 <= c < 16 ==> (#[trigger] msgs@[c])@ == spec_msg3(
                CONTROL_MODE_CHANGE_CHAN_BASE,
                c as u8,
                ALL_SOUND_OFF_MSG,
                0,
            ),
{
    // Omni mode and then silence doesn't work...
    let mut msgs: Vec<Vec<u8>> = Vec::new();
    for chan in 0..16u8
        invariant
            msgs@.len() == chan,
            forall|c: int|
                0 <= c < chan ==> (#[trigger] msgs@[c])@ == spec_msg3(
                    CONTROL_MODE_CHANGE_CHAN_BASE,
                    c as u8,
                    ALL_SOUND_OFF_MSG,
                    0,
                ),
    {
        msgs.push(silence(chan));
    }
    msgs
}

/// The pan message of a channel.
pub fn pan(chan: u8, val: u8) -> (msg: Vec<u8>)
    requires
        status_fits(CONTROL_MODE_CHANGE_CHAN_BASE, chan),
    ensures
        msg@ == spec_msg3(CONTROL_MODE_CHANGE_CHAN_BASE, chan, PAN_MSG, val),
{
    controller(chan, PAN_MSG, val)
}

/// The volume message of a channel.
pub fn volume(chan: u8, val: u8) -> (msg: Vec<u8>)
    requires
        status_fits(CONTROL_MODE_CHANGE_CHAN_BASE, chan),
    ensures
        msg@ == spec_msg3(CONTROL_MODE_CHANGE_CHAN_BASE, chan, VOLUME_MSG, val),
{
    controller(chan, VOLUME_MSG, val)
}

/// For each of the sixteen MIDI channels, the status byte of a message keeps
/// the message type in its high four bits and the channel in its low four.
pub proof fn law_status_byte_carries_channel(base: u8, chan: u8)
    requires
        base % 16 == 0,
        base >= 128,
        chan < 16,
    ensures
        status_fits(base, chan),
        ((base + chan) as u8) / 16 == base / 16,
        ((base + chan) as u8) % 16 == chan,
{
}

/// A 14-bit pitch-bend value is recovered from the two data bytes of its
/// message, each of which is a 7-bit MIDI data byte.
pub proof fn law_pitch_bend_bytes_recombine(chan: u8, vel: u16)
    requires
        status_fits(PITCH_BEND_CHAN_BASE, chan),
        vel < 16384,
    ensures
        ({
            let m = spec_msg3(PITCH_BEND_CHAN_BASE, chan, (vel % 128) as u8, (vel / 128) as u8);
            &&& m[1] < 128
            &&& m[2] < 128
            &&& m[1] + 128 * m[2] == vel
        }),
{
}

/// Why no output port was chosen. The middle three are the kinds of error
/// of `usize::from_str`.
#[derive(Clone, Copy, Debug, PartialEq, Eq, Structural)]
pub enum PortError {
    /// There is no output port.
    NoPorts,
    /// The answer is empty.
    Empty,
    /// The answer holds something else than a decimal digit (after an optional `+`).
    InvalidDigit,
    /// The number does not fit in a `usize`.
    PosOverflow,
    /// The number names no port.
    InvalidPort,
}

/// The characters that `char::is_whitespace` accepts: those of the Unicode
/// `White_Space` property.
pub open spec fn is_white_space(c: char) -> bool {
    let u = c as u32;
    (0x09 <= u <= 0x0d) || u == 0x20 || u == 0x85 || u == 0xa0 || u == 0x1680 || (0x2000 <= u
        <= 0x200a) || u == 0x2028 || u == 0x2029 || u == 0x202f || u == 0x205f || u == 0x3000
}

/// The text without its leading white space.
pub open spec fn trim_start(s: Seq<char>) -> Seq<char>
    decreases s.len(),
{
    if s.len() > 0 && is_white_space(s[0]) {
        trim_start(s.drop_first())
    } else {
        s
    }
}

/// The text without its trailing white space.
pub open spec fn trim_end(s: Seq<char>) -> Seq<char>
    decreases s.len(),
{
    if s.len() > 0 && is_white_space(s.last()) {
        trim_end(s.drop_last())
    } else {
        s
    }
}

/// The text without its leading and trailing white space.
pub open spec fn trimmed(s: Seq<char>) -> Seq<char> {
    trim_end(trim_start(s))
}

/// Calls `str::trim`, which removes the leading and trailing characters for
/// which `char::is_whitespace` holds.
#[verifier::external_body]
fn trim(s: &str) -> (r: &str)
    ensures
        r@ == trimmed(s@),
{
    s.trim()
}

/// Reads the first `k` bytes as decimal digits, from the left, as
/// `usize::from_str` does: the first byte that is not a digit, or the first
/// digit after which the value no longer fits in a `usize`, decides the error.
pub open spec fn scan_digits(d: Seq<u8>, k: int) -> Result<int, PortError>
    decreases k,
{
    if k <= 0 {
        Ok(0)
    } else {
        match scan_digits(d, k - 1) {
            Err(e) => Err(e),
            Ok(v) => if !(48 <= d[k - 1] <= 57) {
                Err(PortError::InvalidDigit)
            } else if v * 10 + (d[k - 1] - 48) > usize::MAX {
                Err(PortError::PosOverflow)
            } else {
                Ok(v * 10 + (d[k - 1] - 48))
            },
        }
    }
}

/// What `usize::from_str` makes of the bytes of a text: an optional `+`
/// (not alone) followed by decimal digits whose value fits in a `usize`.
pub open spec fn spec_parse_usize(b: Seq<u8>) -> Result<usize, PortError> {
    if b.len() == 0 {
        Err(PortError::Empty)
    } else if b.len() == 1 && (b[0] == 43 || b[0] == 45) {
        Err(PortError::InvalidDigit)
    } else {
        let digits = if b[0] == 43 {
            b.drop_first()
        } else {
            b
        };
        match scan_digits(digits, digits.len() as int) {
            Ok(v) => Ok(v as usize),
            Err(e) => Err(e),
        }
    }
}

/// Parses a decimal number as `usize::from_str` does.
fn parse_usize(b: &[u8]) -> (r: Result<usize, PortError>)
    ensures
        r == spec_parse_usize(b@),
{
    let n = b.len();
    if n == 0 {
        return Err(PortError::Empty);
    }
    if n == 1 && (b[0] == 43 || b[0] == 45) {
        return Err(PortError::InvalidDigit);
    }
    let start: usize = if b[0] == 43 {
        1
    } else {
        0
    };
    let ghost digits = if b@[0] == 43 {
        b@.drop_first()
    } else {
        b@
    };
    assert(digits =~= b@.subrange(start as int, n as int));
    let mut value: usize = 0;
    let mut k: usize = start;
    while k < n
        invariant
            start <= k <= n,
            n == b@.len(),
            digits == b@.subrange(start as int, n as int),
            b@.len() > 0,
            !(b@.len() == 1 && (b@[0] == 43 || b@[0] == 45)),
            digits == (if b@[0] == 43 {
                b@.drop_first()
            } else {
                b@
            }),
            scan_digits(digits, k - start) == Ok::<int, PortError>(value as int),
        decreases n - k,
    {
        let c = b[k];
        let ghost i = k - start;
        assert(digits[i] == c);
        if c < 48 || c > 57 {
            proof {
                lemma_scan_err_stays(digits, i + 1, digits.len() as int);
            }
            return Err(PortError::InvalidDigit);
        }
        let d = (c - 48) as usize;
        let next = match value.checked_mul(10) {
            Some(x) => x.checked_add(d),
            None => None,
        };
        match next {
            None => {
                proof {
                    lemma_scan_err_stays(digits, i + 1, digits.len() as int);
                }
                return Err(PortError::PosOverflow);
            },
            Some(v) => {
                value = v;
            },
        }
        k = k + 1;
    }
    Ok(value)
}

proof fn lemma_scan_err_stays(d: Seq<u8>, a: int, b: int)
    requires
        0 <= a <= b,
        scan_digits(d, a) is Err,
    ensures
        scan_digits(d, b) == scan_digits(d, a),
    decreases b - a,
{
    if a < b {
        lemma_scan_err_stays(d, a, b - 1);
    }
}

/// The port that the user's answer selects among `n_ports` output ports:
/// with no port there is none to choose; with one port it is chosen whatever
/// the answer; otherwise the answer, without surrounding white space, must be
/// the decimal number of a port.
pub open spec fn spec_select_port(n_ports: usize, answer: Seq<char>) -> Result<usize, PortError> {
    if n_ports == 0 {
        Err(PortError::NoPorts)
    } else if n_ports == 1 {
        Ok(0)
    } else {
        match spec_parse_usize(encode_utf8(trimmed(answer))) {
            Err(e) => Err(e),
            Ok(i) => if i < n_ports {
                Ok(i)
            } else {
                Err(PortError::InvalidPort)
            },
        }
    }
}

/// Chooses the output port among `n_ports` ports from the user's answer.
pub fn select_port(n_ports: usize, answer: &str) -> (r: Result<usize, PortError>)
    ensures
        r == spec_select_port(n_ports, answer@),
        r matches Ok(i) ==> i < n_ports,
{
    if n_ports == 0 {
        return Err(PortError::NoPorts);
    }
    if n_ports == 1 {
        return Ok(0);
    }
    let t = trim(answer);
    match parse_usize(t.as_bytes()) {
        Err(e) => Err(e),
        Ok(i) => if i < n_ports {
            Ok(i)
        } else {
            Err(PortError::InvalidPort)
        },
    }
}

} // verus!
