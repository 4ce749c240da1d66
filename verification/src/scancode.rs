//! Decoding of keyboard scan codes (set 1): status and response bytes of the keyboard, and
//! presses and releases of keys.
use vstd::prelude::*;

verus! {

/// What a scan code byte reports.
#[derive(Clone, Copy, Debug)]
pub enum ScancodeEvent {
    /// A status or response byte of the keyboard, with its meaning.
    Status(&'static str),
    /// A key went down (`released` is false) or up (`released` is true).
    Key { name: &'static str, released: bool },
    /// A byte that stands for no key.
    Unknown,
}

/// Bit of a scan code that marks a release.
pub const RELEASE_BIT: u8 = 0x80;

/// The meaning of a status or response byte.
pub open spec fn status_message(b: u8) -> Option<&'static str> {
    match b {
        0x00 => Some("Key detection error or internal buffer overrun"),
        0xaa => Some("Self test passed (sent after \"0xFF (reset)\" command or keyboard power up)"),
        0xee => Some("Response to \"0xEE (echo)\" command"),
        0xfa => Some("Command acknowledged (ACK)"),
        0xfc => Some("Self test failed (sent after \"0xFF (reset)\" command or keyboard power up"),
        0xfd => Some("Self test failed (sent after \"0xFF (reset)\" command or keyboard power up"),
        0xfe => Some("Resend (keyboard wants controller to repeat last command it sent"),
        0xff => Some("Key detection error or internal buffer overrun"),
        _ => None,
    }
}

/// The name of the key whose press has scan code `code`.
pub open spec fn key_name(code: u8) -> Option<&'static str> {
    match code {
        0x01 => Some("escape"),
        0x02 => Some("1"),
        0x03 => Some("2"),
        0x04 => Some("3"),
        0x05 => Some("4"),
        0x06 => Some("5"),
        0x07 => Some("6"),
        0x08 => Some("7"),
        0x09 => Some("8"),
        0x0a => Some("9"),
        0x0b => Some("0"),
        0x0c => Some("-"),
        0x0d => Some("="),
        0x0e => Some("backspace"),
        0x0f => Some("tab"),
        0x10 => Some("q"),
        0x11 => Some("w"),
        0x12 => Some("e"),
        0x13 => Some("r"),
        0x14 => Some("t"),
        0x15 => Some("y"),
        0x16 => Some("u"),
        0x17 => Some("i"),
        0x18 => Some("o"),
        0x19 => Some("p"),
        0x1a => Some("["),
        0x1b => Some("]"),
        0x1c => Some("enter"),
        0x1d => Some("left ctrl"),
        0x1e => Some("a"),
        0x1f => Some("s"),
        0x20 => Some("d"),
        0x21 => Some("f"),
        0x22 => Some("g"),
        0x23 => Some("h"),
        0x24 => Some("j"),
        0x25 => Some("k"),
        0x26 => Some("l"),
        0x27 => Some(";"),
        0x28 => Some("'"),
        0x29 => Some("`"),
        0x2a => Some("left shift"),
        0x2b => Some("\\"),
        0x2c => Some("z"),
        0x2d => Some("x"),
        0x2e => Some("c"),
        0x2f => Some("v"),
        0x30 => Some("b"),
        0x31 => Some("n"),
        0x32 => Some("m"),
        0x33 => Some(","),
        0x34 => Some("."),
        0x35 => Some("/"),
        0x36 => Some("right shift"),
        0x37 => Some("(keypad) *"),
        0x38 => Some("left alt"),
        0x39 => Some("space"),
        0x3a => Some("caps"),
        0x3b => Some("f1"),
        0x3c => Some("f2"),
        0x3d => Some("f3"),
        0x3e => Some("f4"),
        0x3f => Some("f5"),
        0x40 => Some("f6"),
        0x41 => Some("f7"),
        0x42 => Some("f8"),
        0x43 => Some("f9"),
        0x44 => Some("f10"),
        0x45 => Some("num lock"),
        0x46 => Some("scroll lock"),
        0x47 => Some("(keypad) 7"),
        0x48 => Some("(keypad) 8"),
        0x49 => Some("(keypad) 9"),
        0x4a => Some("(keypad) -"),
        0x4b => Some("(keypad) 4"),
        0x4c => Some("(keypad) 5"),
        0x4d => Some("(keypad) 6"),
        0x4e => Some("(keypad) +"),
        0x4f => Some("(keypad) 0"),
        0x50 => Some("(keypad) 1"),
        0x51 => Some("(keypad) 2"),
        0x52 => Some("(keypad) 3"),
        0x53 => Some("(keypad) ."),
        0x57 => Some("f11"),
        0x58 => Some("f12"),
        _ => None,
    }
}

/// What the byte `b` reports: a status byte first; otherwise the key named by its low seven
/// bits, released when the top bit is set.
pub open spec fn scancode_event(b: u8) -> ScancodeEvent {
    match status_message(b) {
        Some(m) => ScancodeEvent::Status(m),
        None => match key_name((b % 128) as u8) {
            Some(name) => ScancodeEvent::Key { name, released: b >= 128 },
            None => ScancodeEvent::Unknown,
        },
    }
}

/// The meaning of a status or response byte, if `b` is one.
pub fn status_message_of(b: u8) -> (r: Option<&'static str>)
    ensures
        r == status_message(b),
{
    match b {
        0x00 => Some("Key detection error or internal buffer overrun"),
        0xaa => Some("Self test passed (sent after \"0xFF (reset)\" command or keyboard power up)"),
        0xee => Some("Response to \"0xEE (echo)\" command"),
        0xfa => Some("Command acknowledged (ACK)"),
        0xfc => Some("Self test failed (sent after \"0xFF (reset)\" command or keyboard power up"),
        0xfd => Some("Self test failed (sent after \"0xFF (reset)\" command or keyboard power up"),
        0xfe => Some("Resend (keyboard wants controller to repeat last command it sent"),
        0xff => Some("Key detection error or internal buffer overrun"),
        _ => None,
    }
}

/// The name of the key whose press has scan code `code`, if there is one.
pub fn key_name_of(code: u8) -> (r: Option<&'static str>)
    ensures
        r == key_name(code),
{
    match code {
        0x01 => Some("escape"),
        0x02 => Some("1"),
        0x03 => Some("2"),
        0x04 => Some("3"),
        0x05 => Some("4"),
        0x06 => Some("5"),
        0x07 => Some("6"),
        0x08 => Some("7"),
        0x09 => Some("8"),
        0x0a => Some("9"),
        0x0b => Some("0"),
        0x0c => Some("-"),
        0x0d => Some("="),
        0x0e => Some("backspace"),
        0x0f => Some("tab"),
        0x10 => Some("q"),
        0x11 => Some("w"),
        0x12 => Some("e"),
        0x13 => Some("r"),
        0x14 => Some("t"),
        0x15 => Some("y"),
        0x16 => Some("u"),
        0x17 => Some("i"),
        0x18 => Some("o"),
        0x19 => Some("p"),
        0x1a => Some("["),
        0x1b => Some("]"),
        0x1c => Some("enter"),
        0x1d => Some("left ctrl"),
        0x1e => Some("a"),
        0x1f => Some("s"),
        0x20 => Some("d"),
        0x21 => Some("f"),
        0x22 => Some("g"),
        0x23 => Some("h"),
        0x24 => Some("j"),
        0x25 => Some("k"),
        0x26 => Some("l"),
        0x27 => Some(";"),
        0x28 => Some("'"),
        0x29 => Some("`"),
        0x2a => Some("left shift"),
        0x2b => Some("\\"),
        0x2c => Some("z"),
        0x2d => Some("x"),
        0x2e => Some("c"),
        0x2f => Some("v"),
        0x30 => Some("b"),
        0x31 => Some("n"),
        0x32 => Some("m"),
        0x33 => Some(","),
        0x34 => Some("."),
        0x35 => Some("/"),
        0x36 => Some("right shift"),
        0x37 => Some("(keypad) *"),
        0x38 => Some("left alt"),
        0x39 => Some("space"),
        0x3a => Some("caps"),
        0x3b => Some("f1"),
        0x3c => Some("f2"),
        0x3d => Some("f3"),
        0x3e => Some("f4"),
        0x3f => Some("f5"),
        0x40 => Some("f6"),
        0x41 => Some("f7"),
        0x42 => Some("f8"),
        0x43 => Some("f9"),
        0x44 => Some("f10"),
        0x45 => Some("num lock"),
        0x46 => Some("scroll lock"),
        0x47 => Some("(keypad) 7"),
        0x48 => Some("(keypad) 8"),
        0x49 => Some("(keypad) 9"),
        0x4a => Some("(keypad) -"),
        0x4b => Some("(keypad) 4"),
        0x4c => Some("(keypad) 5"),
        0x4d => Some("(keypad) 6"),
        0x4e => Some("(keypad) +"),
        0x4f => Some("(keypad) 0"),
        0x50 => Some("(keypad) 1"),
        0x51 => Some("(keypad) 2"),
        0x52 => Some("(keypad) 3"),
        0x53 => Some("(keypad) ."),
        0x57 => Some("f11"),
        0x58 => Some("f12"),
        _ => None,
    }
}

/// A key's release code is its press code with the top bit set: both decode to the same
/// key, pressed and released, unless a status byte shadows one of them.
pub proof fn lemma_release_mirrors_press(code: u8)
    requires
        code < 128,
        key_name(code) is Some,
        status_message(code) is None,
        status_message((code + 128) as u8) is None,
    ensures
        scancode_event(code) == (ScancodeEvent::Key { name: key_name(code)->Some_0, released: false }),
        scancode_event((code + 128) as u8) == (ScancodeEvent::Key { name: key_name(code)->Some_0, released: true }),
{
    assert(((code + 128) as u8 % 128) as u8 == code);
    assert((code % 128) as u8 == code);
}

/// Scan code set 1, as the keyboard's key caps read: the key that the press code `code`
/// names, for every code. The digit row, the three letter rows, the function keys and the
/// keypad each run in consecutive codes, left to right; codes past 0x58 name no key.
pub proof fn lemma_scan_code_set_1(code: u8)
    ensures
        key_name(code) == if code < 0x59 {
            seq![
                None,
                Some("escape"),
                Some("1"),
                Some("2"),
                Some("3"),
                Some("4"),
                Some("5"),
                Some("6"),
                Some("7"),
                Some("8"),
                Some("9"),
                Some("0"),
                Some("-"),
                Some("="),
                Some("backspace"),
                Some("tab"),
                Some("q"),
                Some("w"),
                Some("e"),
                Some("r"),
                Some("t"),
                Some("y"),
                Some("u"),
                Some("i"),
                Some("o"),
                Some("p"),
                Some("["),
                Some("]"),
                Some("enter"),
                Some("left ctrl"),
                Some("a"),
                Some("s"),
                Some("d"),
                Some("f"),
                Some("g"),
                Some("h"),
                Some("j"),
                Some("k"),
                Some("l"),
                Some(";"),
                Some("'"),
                Some("`"),
                Some("left shift"),
                Some("\\"),
                Some("z"),
                Some("x"),
                Some("c"),
                Some("v"),
                Some("b"),
                Some("n"),
                Some("m"),
                Some(","),
                Some("."),
                Some("/"),
                Some("right shift"),
                Some("(keypad) *"),
                Some("left alt"),
                Some("space"),
                Some("caps"),
                Some("f1"),
                Some("f2"),
                Some("f3"),
                Some("f4"),
                Some("f5"),
                Some("f6"),
                Some("f7"),
                Some("f8"),
                Some("f9"),
                Some("f10"),
                Some("num lock"),
                Some("scroll lock"),
                Some("(keypad) 7"),
                Some("(keypad) 8"),
                Some("(keypad) 9"),
                Some("(keypad) -"),
                Some("(keypad) 4"),
                Some("(keypad) 5"),
                Some("(keypad) 6"),
                Some("(keypad) +"),
                Some("(keypad) 0"),
                Some("(keypad) 1"),
                Some("(keypad) 2"),
                Some("(keypad) 3"),
                Some("(keypad) ."),
                None,
                None,
                None,
                Some("f11"),
                Some("f12"),
            ][code as int]
        } else {
            None
        },
{
}

/// The keyboard's status and response bytes: 0x00 and 0xff report a detection error or an
/// overrun, 0xaa a passed self test, 0xee an echo, 0xfa an acknowledged command, 0xfc and
/// 0xfd a failed self test, 0xfe a resend request; every other byte is a key code.
pub proof fn lemma_status_bytes(b: u8)
    ensures
        status_message(b) == if b == 0x00 || b == 0xff {
            Some("Key detection error or internal buffer overrun")
        } else if b == 0xaa {
            Some("Self test passed (sent after \"0xFF (reset)\" command or keyboard power up)")
        } else if b == 0xee {
            Some("Response to \"0xEE (echo)\" command")
        } else if b == 0xfa {
            Some("Command acknowledged (ACK)")
        } else if b == 0xfc || b == 0xfd {
            Some("Self test failed (sent after \"0xFF (reset)\" command or keyboard power up")
        } else if b == 0xfe {
            Some("Resend (keyboard wants controller to repeat last command it sent")
        } else {
            None::<&'static str>
        },
{
}

/// Decodes the scan code byte `b`.
pub fn decode_scancode(b: u8) -> (r: ScancodeEvent)
    ensures
        r == scancode_event(b),
{
    if let Some(m) = status_message_of(b) {
        return ScancodeEvent::Status(m);
    }
    proof {
        assert(b & 0x7f == (b % 128) as u8) by (bit_vector);
        assert((b & RELEASE_BIT != 0) == (b >= 128)) by (bit_vector);
    }
    match key_name_of(b & 0x7f) {
        Some(name) => ScancodeEvent::Key { name, released: b & RELEASE_BIT != 0 },
        None => ScancodeEvent::Unknown,
    }
}

} // verus!
