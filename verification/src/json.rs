//! The canonical JSON form of an input event: the self-describing text the
//! length-prefixed protocol carries.
//!
//! Numbers are written from the micro fixed-point values: an integer part,
//! a decimal point, and the fractional digits with trailing zeros trimmed
//! (at least one digit, so a whole number ends in `.0`).  Strings escape
//! the quote, the backslash and control characters as JSON requires.  The
//! encoder is pinned character by character by the `spec_json_*`
//! functions.

use vstd::prelude::*;
use vstd::string::StringExecFns;
use crate::events::{
    EventDuration, InputEvent, Key, KeyboardAction, KeyboardEvent, MouseButton, MouseButtonAction,
    MouseButtonEvent, MouseEvent, MouseMoveEvent, MouseMoveOrigin, MouseScrollDir,
    MouseScrollEvent,
};
use crate::volume::VolumeLevel;

verus! {

/// The decimal digit character for a value below ten.
pub open spec fn spec_digit(d: nat) -> char {
    if d == 0 {
        '0'
    } else if d == 1 {
        '1'
    } else if d == 2 {
        '2'
    } else if d == 3 {
        '3'
    } else if d == 4 {
        '4'
    } else if d == 5 {
        '5'
    } else if d == 6 {
        '6'
    } else if d == 7 {
        '7'
    } else if d == 8 {
        '8'
    } else {
        '9'
    }
}

/// The decimal digits of an unsigned number, most significant first.
pub open spec fn spec_json_u64(n: nat) -> Seq<char>
    decreases n,
{
    if n < 10 {
        seq![spec_digit(n)]
    } else {
        spec_json_u64(n / 10) + seq![spec_digit(n % 10)]
    }
}

/// The decimal digits of a signed number, with a leading minus when negative.
pub open spec fn spec_json_i64(n: int) -> Seq<char> {
    if n < 0 {
        seq!['-'] + spec_json_u64((-n) as nat)
    } else {
        spec_json_u64(n as nat)
    }
}

/// Ten to the `k`.
pub open spec fn spec_pow10(k: nat) -> nat
    decreases k,
{
    if k == 0 {
        1
    } else {
        10 * spec_pow10((k - 1) as nat)
    }
}

/// The first `k` fractional digits of `fp < 10^k`, trailing zeros trimmed:
/// empty once the remaining value is zero.
pub open spec fn spec_frac_digits(fp: nat, k: nat) -> Seq<char>
    decreases k,
{
    if fp == 0 || k == 0 {
        Seq::empty()
    } else {
        seq![spec_digit(fp / spec_pow10((k - 1) as nat))] + spec_frac_digits(
            fp % spec_pow10((k - 1) as nat),
            (k - 1) as nat,
        )
    }
}

/// A micro fixed-point value as a decimal number: sign, integer part,
/// decimal point, fractional digits with trailing zeros trimmed (a whole
/// number ends in `.0`).
pub open spec fn spec_json_micro(n: int) -> Seq<char> {
    let sign: Seq<char> = if n < 0 {
        seq!['-']
    } else {
        Seq::empty()
    };
    let mag = if n < 0 {
        -n
    } else {
        n
    };
    let ip = mag / 1_000_000;
    let fp = mag % 1_000_000;
    let fracs: Seq<char> = if fp == 0 {
        seq!['0']
    } else {
        spec_frac_digits(fp as nat, 6)
    };
    sign + spec_json_u64(ip as nat) + seq!['.'] + fracs
}

/// The hexadecimal digit character for a value below sixteen.
pub open spec fn spec_hex_digit(d: nat) -> char {
    if d < 10 {
        spec_digit(d)
    } else if d == 10 {
        'a'
    } else if d == 11 {
        'b'
    } else if d == 12 {
        'c'
    } else if d == 13 {
        'd'
    } else if d == 14 {
        'e'
    } else {
        'f'
    }
}

/// A character inside a JSON string: the quote, the backslash and control
/// characters are escaped, everything else stands for itself.
pub open spec fn spec_json_char(c: char) -> Seq<char> {
    if c == '"' {
        "\\\""@
    } else if c == '\\' {
        "\\\\"@
    } else if c == '\u{8}' {
        "\\b"@
    } else if c == '\t' {
        "\\t"@
    } else if c == '\n' {
        "\\n"@
    } else if c == '\u{c}' {
        "\\f"@
    } else if c == '\r' {
        "\\r"@
    } else if (c as u32) < 32 {
        "\\u00"@ + seq![
            spec_hex_digit(((c as u32) / 16) as nat),
            spec_hex_digit(((c as u32) % 16) as nat),
        ]
    } else {
        seq![c]
    }
}

/// A wire duration: `{"secs":s,"nanos":n}`.
pub open spec fn spec_json_duration(d: EventDuration) -> Seq<char> {
    "{\"secs\":"@ + spec_json_u64(d.secs as nat) + ",\"nanos\":"@ + spec_json_u64(d.nanos as nat)
        + "}"@
}

/// A key name as the wire carries it.
pub open spec fn spec_json_key(k: Key) -> Seq<char> {
    match k {
        Key::Alt => "\"Alt\""@,
        Key::Backspace => "\"Backspace\""@,
        Key::CapsLock => "\"CapsLock\""@,
        Key::Command => "\"Command\""@,
        Key::Control => "\"Control\""@,
        Key::Delete => "\"Delete\""@,
        Key::DownArrow => "\"DownArrow\""@,
        Key::End => "\"End\""@,
        Key::Escape => "\"Escape\""@,
        Key::F1 => "\"F1\""@,
        Key::F10 => "\"F10\""@,
        Key::F11 => "\"F11\""@,
        Key::F12 => "\"F12\""@,
        Key::F2 => "\"F2\""@,
        Key::F3 => "\"F3\""@,
        Key::F4 => "\"F4\""@,
        Key::F5 => "\"F5\""@,
        Key::F6 => "\"F6\""@,
        Key::F7 => "\"F7\""@,
        Key::F8 => "\"F8\""@,
        Key::F9 => "\"F9\""@,
        Key::Home => "\"Home\""@,
        Key::LeftArrow => "\"LeftArrow\""@,
        Key::Meta => "\"Meta\""@,
        Key::OptionKey => "\"Option\""@,
        Key::PageDown => "\"PageDown\""@,
        Key::PageUp => "\"PageUp\""@,
        Key::Return => "\"Return\""@,
        Key::RightArrow => "\"RightArrow\""@,
        Key::Shift => "\"Shift\""@,
        Key::Space => "\"Space\""@,
        Key::Super => "\"Super\""@,
        Key::Tab => "\"Tab\""@,
        Key::UpArrow => "\"UpArrow\""@,
        Key::Windows => "\"Windows\""@,
        Key::Layout(c) => "{\"Layout\":\""@ + spec_json_char(c) + "\"}"@,
        Key::Raw(v) => "{\"Raw\":"@ + spec_json_u64(v as nat) + "}"@,
    }
}

/// A mouse button name as the wire carries it.
pub open spec fn spec_json_button(b: MouseButton) -> Seq<char> {
    match b {
        MouseButton::Left => "\"Left\""@,
        MouseButton::Middle => "\"Middle\""@,
        MouseButton::Right => "\"Right\""@,
        MouseButton::ScrollUp => "\"ScrollUp\""@,
        MouseButton::ScrollDown => "\"ScrollDown\""@,
        MouseButton::ScrollLeft => "\"ScrollLeft\""@,
        MouseButton::ScrollRight => "\"ScrollRight\""@,
    }
}

/// A keyboard action: a plain name, or `{"Click":duration}`.
pub open spec fn spec_json_kb_action(a: KeyboardAction) -> Seq<char> {
    match a {
        KeyboardAction::Up => "\"Up\""@,
        KeyboardAction::Down => "\"Down\""@,
        KeyboardAction::Click(d) => "{\"Click\":"@ + spec_json_duration(d) + "}"@,
    }
}

/// A mouse-button action: a plain name, or `{"Click":duration}`.
pub open spec fn spec_json_mb_action(a: MouseButtonAction) -> Seq<char> {
    match a {
        MouseButtonAction::Down => "\"Down\""@,
        MouseButtonAction::Up => "\"Up\""@,
        MouseButtonAction::Click(d) => "{\"Click\":"@ + spec_json_duration(d) + "}"@,
    }
}

/// A keyboard event: `{"action":…,"key":…}`.
pub open spec fn spec_json_keyboard(e: KeyboardEvent) -> Seq<char> {
    "{\"action\":"@ + spec_json_kb_action(e.action) + ",\"key\":"@ + spec_json_key(e.key) + "}"@
}

/// A mouse event: the variant name wrapping its fields.
pub open spec fn spec_json_mouse(e: MouseEvent) -> Seq<char> {
    match e {
        MouseEvent::Button(be) => "{\"Button\":{\"action\":"@ + spec_json_mb_action(be.action)
            + ",\"button\":"@ + spec_json_button(be.button) + "}}"@,
        MouseEvent::Move(me) => {
            let origin: Seq<char> = match me.origin {
                MouseMoveOrigin::Rel => "\"Rel\""@,
                MouseMoveOrigin::Abs => "\"Abs\""@,
            };
            "{\"Move\":{\"origin\":"@ + origin + ",\"x\":"@ + spec_json_i64(me.x as int)
                + ",\"y\":"@ + spec_json_i64(me.y as int) + "}}"@
        },
        MouseEvent::Scroll(se) => {
            let dir: Seq<char> = match se.dir {
                MouseScrollDir::Ver => "\"Ver\""@,
                MouseScrollDir::Hor => "\"Hor\""@,
            };
            "{\"Scroll\":{\"dir\":"@ + dir + ",\"len\":"@ + spec_json_i64(se.len as int) + "}}"@
        },
    }
}

/// A volume level: the unit name wrapping its micro value as a decimal.
pub open spec fn spec_json_level(l: VolumeLevel) -> Seq<char> {
    match l {
        VolumeLevel::Log(db) => "{\"Log\":"@ + spec_json_micro(db.0 as int) + "}"@,
        VolumeLevel::Lin(v) => "{\"Lin\":"@ + spec_json_micro(v.0 as int) + "}"@,
        VolumeLevel::Frac(f) => "{\"Frac\":"@ + spec_json_micro(f as int) + "}"@,
    }
}

/// An input event: the variant name wrapping its payload.
pub open spec fn spec_json_event(e: InputEvent) -> Seq<char> {
    match e {
        InputEvent::Mouse(me) => "{\"Mouse\":"@ + spec_json_mouse(me) + "}"@,
        InputEvent::Keyboard(ke) => "{\"Keyboard\":"@ + spec_json_keyboard(ke) + "}"@,
        InputEvent::Volume(l) => "{\"Volume\":"@ + spec_json_level(l) + "}"@,
    }
}

/// Relies on `String::push`: appends the given character to the end of
/// this `String`.
#[verifier::external_body]
fn push_char(s: &mut String, c: char)
    ensures
        final(s)@ == old(s)@ + seq![c],
{
    s.push(c);
}

/// The decimal digit for a value below ten.
fn digit_str(d: u64) -> (r: &'static str)
    requires
        d < 10,
    ensures
        r@ == seq![spec_digit(d as nat)],
{
    proof {
        reveal_strlit("0");
        reveal_strlit("1");
        reveal_strlit("2");
        reveal_strlit("3");
        reveal_strlit("4");
        reveal_strlit("5");
        reveal_strlit("6");
        reveal_strlit("7");
        reveal_strlit("8");
        reveal_strlit("9");
    }
    let r = match d {
        0 => "0",
        1 => "1",
        2 => "2",
        3 => "3",
        4 => "4",
        5 => "5",
        6 => "6",
        7 => "7",
        8 => "8",
        _ => "9",
    };
    proof {
        assert(r@ =~= seq![spec_digit(d as nat)]);
    }
    r
}

/// The hexadecimal digit for a value below sixteen.
fn hex_digit_str(d: u64) -> (r: &'static str)
    requires
        d < 16,
    ensures
        r@ == seq![spec_hex_digit(d as nat)],
{
    if d < 10 {
        digit_str(d)
    } else {
        proof {
            reveal_strlit("a");
            reveal_strlit("b");
            reveal_strlit("c");
            reveal_strlit("d");
            reveal_strlit("e");
            reveal_strlit("f");
        }
        let r = match d {
            10 => "a",
            11 => "b",
            12 => "c",
            13 => "d",
            14 => "e",
            _ => "f",
        };
        proof {
            assert(r@ =~= seq![spec_hex_digit(d as nat)]);
        }
        r
    }
}

/// Append the decimal digits of `n`.
fn append_u64(out: &mut String, n: u64)
    ensures
        final(out)@ == old(out)@ + spec_json_u64(n as nat),
    decreases n,
{
    if n < 10 {
        out.append(digit_str(n));
    } else {
        append_u64(out, n / 10);
        out.append(digit_str(n % 10));
        proof {
            assert(final(out)@ =~= old(out)@ + spec_json_u64(n as nat));
        }
    }
}

/// Append the decimal digits of `n`, with a minus sign when negative.
fn append_i64(out: &mut String, n: i64)
    ensures
        final(out)@ == old(out)@ + spec_json_i64(n as int),
{
    if n < 0 {
        proof {
            reveal_strlit("-");
        }
        out.append("-");
        let mag: u64 = (-(n as i128)) as u64;
        append_u64(out, mag);
        proof {
            assert(final(out)@ =~= old(out)@ + spec_json_i64(n as int));
        }
    } else {
        append_u64(out, n as u64);
    }
}

/// Ten to the `k`, for `k` at most six.
fn pow10u(k: u64) -> (r: u64)
    requires
        k <= 6,
    ensures
        r == spec_pow10(k as nat),
        r >= 1,
        r <= 1_000_000,
        k <= 5 ==> r <= 100_000,
{
    proof {
        reveal_with_fuel(spec_pow10, 8);
    }
    match k {
        0 => 1,
        1 => 10,
        2 => 100,
        3 => 1_000,
        4 => 10_000,
        5 => 100_000,
        _ => 1_000_000,
    }
}

/// Append the first `k` fractional digits of `fp`, trailing zeros trimmed.
fn append_frac_digits(out: &mut String, fp: u64, k: u64)
    requires
        k <= 6,
        fp < spec_pow10(k as nat),
    ensures
        final(out)@ == old(out)@ + spec_frac_digits(fp as nat, k as nat),
    decreases k,
{
    if fp == 0 || k == 0 {
        return ;
    }
    let p = pow10u(k - 1);
    proof {
        vstd::arithmetic::div_mod::lemma_fundamental_div_mod(fp as int, p as int);
        assert(spec_pow10(k as nat) == 10 * spec_pow10((k - 1) as nat));
        let q = (fp as int) / (p as int);
        let rm = (fp as int) % (p as int);
        assert(0 <= q < 10) by (nonlinear_arith)
            requires
                p >= 1,
                (fp as int) < 10 * (p as int),
                (p as int) * q + rm == fp as int,
                0 <= rm < p as int,
                0 <= fp,
        ;
    }
    let d = fp / p;
    let rest = fp % p;
    out.append(digit_str(d));
    append_frac_digits(out, rest, k - 1);
    proof {
        assert(final(out)@ =~= old(out)@ + spec_frac_digits(fp as nat, k as nat));
    }
}

/// Append a micro fixed-point value as a decimal number.
fn append_micro(out: &mut String, n: i64)
    ensures
        final(out)@ == old(out)@ + spec_json_micro(n as int),
{
    let mag: u64 = if n < 0 {
        out.append("-");
        (-(n as i128)) as u64
    } else {
        n as u64
    };
    let ip = mag / 1_000_000;
    let fp = mag % 1_000_000;
    append_u64(out, ip);
    out.append(".");
    proof {
        reveal_with_fuel(spec_pow10, 8);
        reveal_strlit(".");
        reveal_strlit("-");
    }
    if fp == 0 {
        out.append("0");
        proof {
            reveal_strlit("0");
            assert(final(out)@ =~= old(out)@ + spec_json_micro(n as int));
        }
    } else {
        append_frac_digits(out, fp, 6);
        proof {
            assert(final(out)@ =~= old(out)@ + spec_json_micro(n as int));
        }
    }
}

/// Append one JSON string character, escaped as JSON requires.
fn append_json_char(out: &mut String, c: char)
    ensures
        final(out)@ == old(out)@ + spec_json_char(c),
{
    if c == '"' {
        out.append("\\\"");
    } else if c == '\\' {
        out.append("\\\\");
    } else if c == '\u{8}' {
        out.append("\\b");
    } else if c == '\t' {
        out.append("\\t");
    } else if c == '\n' {
        out.append("\\n");
    } else if c == '\u{c}' {
        out.append("\\f");
    } else if c == '\r' {
        out.append("\\r");
    } else if (c as u32) < 32 {
        out.append("\\u00");
        let v = c as u32;
        out.append(hex_digit_str((v / 16) as u64));
        out.append(hex_digit_str((v % 16) as u64));
        proof {
            assert(final(out)@ =~= old(out)@ + spec_json_char(c));
        }
    } else {
        push_char(out, c);
    }
}

/// Append a wire duration.
fn append_duration(out: &mut String, d: &EventDuration)
    ensures
        final(out)@ == old(out)@ + spec_json_duration(*d),
{
    out.append("{\"secs\":");
    append_u64(out, d.secs);
    out.append(",\"nanos\":");
    append_u64(out, d.nanos as u64);
    out.append("}");
    proof {
        assert(final(out)@ =~= old(out)@ + spec_json_duration(*d));
    }
}

/// Append a key name.
fn append_key(out: &mut String, k: &Key)
    ensures
        final(out)@ == old(out)@ + spec_json_key(*k),
{
    match k {
        Key::Alt => out.append("\"Alt\""),
        Key::Backspace => out.append("\"Backspace\""),
        Key::CapsLock => out.append("\"CapsLock\""),
        Key::Command => out.append("\"Command\""),
        Key::Control => out.append("\"Control\""),
        Key::Delete => out.append("\"Delete\""),
        Key::DownArrow => out.append("\"DownArrow\""),
        Key::End => out.append("\"End\""),
        Key::Escape => out.append("\"Escape\""),
        Key::F1 => out.append("\"F1\""),
        Key::F10 => out.append("\"F10\""),
        Key::F11 => out.append("\"F11\""),
        Key::F12 => out.append("\"F12\""),
        Key::F2 => out.append("\"F2\""),
        Key::F3 => out.append("\"F3\""),
        Key::F4 => out.append("\"F4\""),
        Key::F5 => out.append("\"F5\""),
        Key::F6 => out.append("\"F6\""),
        Key::F7 => out.append("\"F7\""),
        Key::F8 => out.append("\"F8\""),
        Key::F9 => out.append("\"F9\""),
        Key::Home => out.append("\"Home\""),
        Key::LeftArrow => out.append("\"LeftArrow\""),
        Key::Meta => out.append("\"Meta\""),
        Key::OptionKey => out.append("\"Option\""),
        Key::PageDown => out.append("\"PageDown\""),
        Key::PageUp => out.append("\"PageUp\""),
        Key::Return => out.append("\"Return\""),
        Key::RightArrow => out.append("\"RightArrow\""),
        Key::Shift => out.append("\"Shift\""),
        Key::Space => out.append("\"Space\""),
        Key::Super => out.append("\"Super\""),
        Key::Tab => out.append("\"Tab\""),
        Key::UpArrow => out.append("\"UpArrow\""),
        Key::Windows => out.append("\"Windows\""),
        Key::Layout(c) => {
            out.append("{\"Layout\":\"");
            append_json_char(out, *c);
            out.append("\"}");
            proof {
                assert(final(out)@ =~= old(out)@ + spec_json_key(*k));
            }
        },
        Key::Raw(v) => {
            out.append("{\"Raw\":");
            append_u64(out, *v as u64);
            out.append("}");
            proof {
                assert(final(out)@ =~= old(out)@ + spec_json_key(*k));
            }
        },
    }
}

/// Append a mouse button name.
fn append_button(out: &mut String, b: &MouseButton)
    ensures
        final(out)@ == old(out)@ + spec_json_button(*b),
{
    match b {
        MouseButton::Left => out.append("\"Left\""),
        MouseButton::Middle => out.append("\"Middle\""),
        MouseButton::Right => out.append("\"Right\""),
        MouseButton::ScrollUp => out.append("\"ScrollUp\""),
        MouseButton::ScrollDown => out.append("\"ScrollDown\""),
        MouseButton::ScrollLeft => out.append("\"ScrollLeft\""),
        MouseButton::ScrollRight => out.append("\"ScrollRight\""),
    }
}

/// Append a keyboard action.
fn append_kb_action(out: &mut String, a: &KeyboardAction)
    ensures
        final(out)@ == old(out)@ + spec_json_kb_action(*a),
{
    match a {
        KeyboardAction::Up => out.append("\"Up\""),
        KeyboardAction::Down => out.append("\"Down\""),
        KeyboardAction::Click(d) => {
            out.append("{\"Click\":");
            append_duration(out, d);
            out.append("}");
            proof {
                assert(final(out)@ =~= old(out)@ + spec_json_kb_action(*a));
            }
        },
    }
}

/// Append a mouse-button action.
fn append_mb_action(out: &mut String, a: &MouseButtonAction)
    ensures
        final(out)@ == old(out)@ + spec_json_mb_action(*a),
{
    match a {
        MouseButtonAction::Down => out.append("\"Down\""),
        MouseButtonAction::Up => out.append("\"Up\""),
        MouseButtonAction::Click(d) => {
            out.append("{\"Click\":");
            append_duration(out, d);
            out.append("}");
            proof {
                assert(final(out)@ =~= old(out)@ + spec_json_mb_action(*a));
            }
        },
    }
}

/// Append a mouse event.
fn append_mouse(out: &mut String, e: &MouseEvent)
    ensures
        final(out)@ == old(out)@ + spec_json_mouse(*e),
{
    match e {
        MouseEvent::Button(be) => {
            out.append("{\"Button\":{\"action\":");
            append_mb_action(out, &be.action);
            out.append(",\"button\":");
            append_button(out, &be.button);
            out.append("}}");
            proof {
                assert(final(out)@ =~= old(out)@ + spec_json_mouse(*e));
            }
        },
        MouseEvent::Move(me) => {
            out.append("{\"Move\":{\"origin\":");
            match me.origin {
                MouseMoveOrigin::Rel => out.append("\"Rel\""),
                MouseMoveOrigin::Abs => out.append("\"Abs\""),
            }
            out.append(",\"x\":");
            append_i64(out, me.x as i64);
            out.append(",\"y\":");
            append_i64(out, me.y as i64);
            out.append("}}");
            proof {
                assert(final(out)@ =~= old(out)@ + spec_json_mouse(*e));
            }
        },
        MouseEvent::Scroll(se) => {
            out.append("{\"Scroll\":{\"dir\":");
            match se.dir {
                MouseScrollDir::Ver => out.append("\"Ver\""),
                MouseScrollDir::Hor => out.append("\"Hor\""),
            }
            out.append(",\"len\":");
            append_i64(out, se.len as i64);
            out.append("}}");
            proof {
                assert(final(out)@ =~= old(out)@ + spec_json_mouse(*e));
            }
        },
    }
}

/// Append a keyboard event.
fn append_keyboard(out: &mut String, e: &KeyboardEvent)
    ensures
        final(out)@ == old(out)@ + spec_json_keyboard(*e),
{
    out.append("{\"action\":");
    append_kb_action(out, &e.action);
    out.append(",\"key\":");
    append_key(out, &e.key);
    out.append("}");
    proof {
        assert(final(out)@ =~= old(out)@ + spec_json_keyboard(*e));
    }
}

/// Append a volume level.
fn append_level(out: &mut String, l: &VolumeLevel)
    ensures
        final(out)@ == old(out)@ + spec_json_level(*l),
{
    match l {
        VolumeLevel::Log(db) => {
            out.append("{\"Log\":");
            append_micro(out, db.0);
            out.append("}");
            proof {
                assert(final(out)@ =~= old(out)@ + spec_json_level(*l));
            }
        },
        VolumeLevel::Lin(v) => {
            out.append("{\"Lin\":");
            append_micro(out, v.0);
            out.append("}");
            proof {
                assert(final(out)@ =~= old(out)@ + spec_json_level(*l));
            }
        },
        VolumeLevel::Frac(f) => {
            out.append("{\"Frac\":");
            append_micro(out, *f);
            out.append("}");
            proof {
                assert(final(out)@ =~= old(out)@ + spec_json_level(*l));
            }
        },
    }
}

impl InputEvent {
    /// The canonical JSON text of this event, exactly `spec_json_event`.
    pub fn to_json(&self) -> (s: String)
        ensures
            s@ == spec_json_event(*self),
    {
        let mut out = String::new();
        match self {
            InputEvent::Mouse(me) => {
                out.append("{\"Mouse\":");
                append_mouse(&mut out, me);
                out.append("}");
            },
            InputEvent::Keyboard(ke) => {
                out.append("{\"Keyboard\":");
                append_keyboard(&mut out, ke);
                out.append("}");
            },
            InputEvent::Volume(l) => {
                out.append("{\"Volume\":");
                append_level(&mut out, l);
                out.append("}");
            },
        }
        proof {
            assert(out@ =~= spec_json_event(*self));
        }
        out
    }

    /// Decode the canonical JSON text of an event.  The candidate the
    /// parser builds is accepted only if it re-encodes to exactly the
    /// input, so whatever comes back is pinned by the encoder's
    /// specification, and on the canonical text of any decodable event
    /// (see `spec_event_decodable`) decoding is guaranteed to succeed;
    /// anything else — malformed, non-canonical, or outside the decoder's
    /// domain — yields `None`, never a panic.
    pub fn from_json(s: &str) -> (r: Option<InputEvent>)
        ensures
            match r {
                Some(e) => s@ == spec_json_event(e),
                None => forall|e: InputEvent|
                    #![trigger spec_json_event(e)]
                    spec_event_decodable(e) ==> s@ != spec_json_event(e),
            },
    {
        let n = s.unicode_len();
        match parse_event(s) {
            Some((event, end)) => {
                if end != n {
                    return None;
                }
                let encoded = event.to_json();
                if str_eq(s, encoded.as_str()) {
                    Some(event)
                } else {
                    proof {
                        assert forall|e: InputEvent|
                            #![trigger spec_json_event(e)]
                            spec_event_decodable(e) implies s@ != spec_json_event(e) by {
                            if s@ == spec_json_event(e) {
                                assert(event == e);
                            }
                        }
                    }
                    None
                }
            },
            None => None,
        }
    }
}

/// Compare two strings character by character.
fn str_eq(a: &str, b: &str) -> (r: bool)
    ensures
        r == (a@ == b@),
{
    let n = a.unicode_len();
    let m = b.unicode_len();
    if n != m {
        return false;
    }
    let mut i: usize = 0;
    while i < n
        invariant
            i <= n,
            n == a@.len(),
            n == b@.len(),
            forall|j: int| 0 <= j < i ==> a@[j] == b@[j],
        decreases n - i,
    {
        if a.get_char(i) != b.get_char(i) {
            return false;
        }
        i = i + 1;
    }
    proof {
        assert(a@ =~= b@);
    }
    true
}

/// The literal stands at this position of the text.
pub open spec fn spec_lit_at(s: Seq<char>, pos: int, lit: Seq<char>) -> bool {
    pos + lit.len() <= s.len() && s.subrange(pos, pos + lit.len()) == lit
}

/// Match a literal at a position: the position after it exactly when the
/// literal stands there.
fn expect_lit(s: &str, pos: usize, lit: &str) -> (r: Option<usize>)
    ensures
        match r {
            Some(np) => np == pos + lit@.len() && spec_lit_at(s@, pos as int, lit@),
            None => !spec_lit_at(s@, pos as int, lit@),
        },
{
    let n = s.unicode_len();
    let m = lit.unicode_len();
    if pos > n || m > n - pos {
        return None;
    }
    let mut i: usize = 0;
    while i < m
        invariant
            i <= m,
            n == s@.len(),
            m == lit@.len(),
            pos + m <= n,
            forall|j: int| 0 <= j < i ==> s@[pos + j] == lit@[j],
        decreases m - i,
    {
        if s.get_char(pos + i) != lit.get_char(i) {
            proof {
                if spec_lit_at(s@, pos as int, lit@) {
                    assert(s@.subrange(pos as int, pos + lit@.len())[i as int] == lit@[i as int]);
                }
            }
            return None;
        }
        i = i + 1;
    }
    proof {
        assert(s@.subrange(pos as int, pos + lit@.len()) =~= lit@);
    }
    Some(pos + m)
}

/// The numeric value of a digit character; ten for any other character.
pub open spec fn spec_char_digit(c: char) -> nat {
    if c == '0' {
        0
    } else if c == '1' {
        1
    } else if c == '2' {
        2
    } else if c == '3' {
        3
    } else if c == '4' {
        4
    } else if c == '5' {
        5
    } else if c == '6' {
        6
    } else if c == '7' {
        7
    } else if c == '8' {
        8
    } else if c == '9' {
        9
    } else {
        10
    }
}

/// The character is a decimal digit.
pub open spec fn spec_is_digit(c: char) -> bool {
    spec_char_digit(c) < 10
}

/// The number a run of digit characters writes, most significant first.
pub open spec fn spec_digits_value(ds: Seq<char>) -> nat
    decreases ds.len(),
{
    if ds.len() == 0 {
        0
    } else {
        spec_digits_value(ds.drop_last()) * 10 + spec_char_digit(ds.last())
    }
}

/// Every character of the run is a decimal digit.
pub open spec fn spec_all_digits(ds: Seq<char>) -> bool {
    forall|i: int| 0 <= i < ds.len() ==> spec_is_digit(ds[i])
}

/// The decimal run stops at this position: the end of the text, or a
/// character that is no digit.
pub open spec fn spec_digit_run_ends(s: Seq<char>, p: int) -> bool {
    p == s.len() || !spec_is_digit(s[p])
}

/// The decimal text of `v` is a nonempty digit run that writes `v` back.
proof fn lemma_u64_digits_value(v: nat)
    ensures
        spec_digits_value(spec_json_u64(v)) == v,
        spec_all_digits(spec_json_u64(v)),
        spec_json_u64(v).len() >= 1,
    decreases v,
{
    if v < 10 {
        let ds = spec_json_u64(v);
        assert(ds.last() == spec_digit(v));
        assert(ds.drop_last() =~= Seq::<char>::empty());
        assert(spec_digits_value(ds.drop_last()) == 0);
        assert(spec_char_digit(spec_digit(v)) == v);
        assert(spec_digits_value(ds) == 0 * 10 + spec_char_digit(ds.last()));
    } else {
        lemma_u64_digits_value(v / 10);
        let a = spec_json_u64(v / 10);
        let ds = spec_json_u64(v);
        assert(ds.drop_last() =~= a);
        assert(ds.last() == spec_digit(v % 10));
        assert(spec_char_digit(spec_digit(v % 10)) == v % 10);
        assert forall|i: int| 0 <= i < ds.len() implies spec_is_digit(ds[i]) by {
            if i < a.len() {
                assert(ds[i] == a[i]);
            } else {
                assert(ds[i] == spec_digit(v % 10));
            }
        }
    }
}

/// A prefix of a digit run writes no more than the whole run.
proof fn lemma_digits_value_take(ds: Seq<char>, i: int)
    requires
        0 <= i <= ds.len(),
    ensures
        spec_digits_value(ds.take(i)) <= spec_digits_value(ds),
    decreases ds.len() - i,
{
    if i == ds.len() {
        assert(ds.take(i) =~= ds);
    } else {
        lemma_digits_value_take(ds, i + 1);
        assert(ds.take(i + 1).drop_last() =~= ds.take(i));
        assert(ds.take(i + 1).last() == ds[i]);
    }
}

/// A greedy digit scan that stopped with these facts has read exactly the
/// decimal text of any value that stands at `pos` with its run ending.
proof fn lemma_digit_scan_complete(s: Seq<char>, pos: int, p: int, acc: nat)
    requires
        0 <= pos <= p <= s.len(),
        acc == spec_digits_value(s.subrange(pos, p)),
        spec_all_digits(s.subrange(pos, p)),
        spec_digit_run_ends(s, p),
    ensures
        forall|v: u64|
            #![trigger spec_json_u64(v as nat)]
            spec_lit_at(s, pos, spec_json_u64(v as nat)) && spec_digit_run_ends(
                s,
                pos + spec_json_u64(v as nat).len(),
            ) ==> p == pos + spec_json_u64(v as nat).len() && acc == v,
{
    assert forall|v: u64|
        spec_lit_at(s, pos, spec_json_u64(v as nat)) && spec_digit_run_ends(
            s,
            pos + spec_json_u64(v as nat).len(),
        ) implies p == pos + spec_json_u64(v as nat).len() && acc == v by {
        lemma_u64_digits_value(v as nat);
        let ds = spec_json_u64(v as nat);
        let le = ds.len() as int;
        if p < pos + le {
            assert(s.subrange(pos, pos + le)[p - pos] == s[p]);
            assert(spec_is_digit(ds[p - pos]));
            assert(false);
        }
        if p > pos + le {
            assert(s.subrange(pos, p)[le] == s[pos + le]);
            assert(spec_is_digit(s.subrange(pos, p)[le]));
            assert(false);
        }
        assert(s.subrange(pos, p) == ds);
    }
}

/// A greedy digit scan whose accumulator has already reached `10^17` is
/// not reading the decimal text of any value below `10^17`.
proof fn lemma_digit_scan_overflow(s: Seq<char>, pos: int, p: int, acc: nat)
    requires
        0 <= pos <= p <= s.len(),
        acc == spec_digits_value(s.subrange(pos, p)),
        spec_all_digits(s.subrange(pos, p)),
        acc >= 100_000_000_000_000_000,
    ensures
        forall|v: u64|
            #![trigger spec_json_u64(v as nat)]
            v < 100_000_000_000_000_000 && spec_lit_at(s, pos, spec_json_u64(v as nat))
                && spec_digit_run_ends(s, pos + spec_json_u64(v as nat).len()) ==> false,
{
    assert forall|v: u64|
        v < 100_000_000_000_000_000 && spec_lit_at(s, pos, spec_json_u64(v as nat))
            && spec_digit_run_ends(s, pos + spec_json_u64(v as nat).len()) implies false by {
        lemma_u64_digits_value(v as nat);
        let ds = spec_json_u64(v as nat);
        let le = ds.len() as int;
        if p > pos + le {
            assert(s.subrange(pos, p)[le] == s[pos + le]);
            assert(spec_is_digit(s.subrange(pos, p)[le]));
            assert(false);
        }
        assert(s.subrange(pos, p) =~= ds.take(p - pos));
        lemma_digits_value_take(ds, p - pos);
    }
}

/// The value of a decimal digit character, exactly.
fn digit_val(c: char) -> (r: Option<u64>)
    ensures
        match r {
            Some(d) => d < 10 && spec_char_digit(c) == d,
            None => !spec_is_digit(c),
        },
{
    match c {
        '0' => Some(0),
        '1' => Some(1),
        '2' => Some(2),
        '3' => Some(3),
        '4' => Some(4),
        '5' => Some(5),
        '6' => Some(6),
        '7' => Some(7),
        '8' => Some(8),
        '9' => Some(9),
        _ => None,
    }
}

/// Parse a run of decimal digits into a value below `10^18`.  On the
/// decimal text of any value below `10^17` whose run then ends, it
/// returns exactly that value and the position after its text.
fn parse_u64_digits(s: &str, pos: usize) -> (r: Option<(u64, usize)>)
    ensures
        forall|v: u64|
            #![trigger spec_json_u64(v as nat)]
            v < 100_000_000_000_000_000 && spec_lit_at(s@, pos as int, spec_json_u64(v as nat))
                && spec_digit_run_ends(s@, pos + spec_json_u64(v as nat).len()) ==> r == Some(
                (v, (pos + spec_json_u64(v as nat).len()) as usize),
            ),
{
    let n = s.unicode_len();
    if pos > n {
        return None;
    }
    let mut p = pos;
    let mut acc: u64 = 0;
    let mut any = false;
    loop
        invariant
            n == s@.len(),
            pos <= p <= n,
            acc < 1_000_000_000_000_000_000,
            acc as nat == spec_digits_value(s@.subrange(pos as int, p as int)),
            spec_all_digits(s@.subrange(pos as int, p as int)),
            any == (p > pos),
        decreases n - p,
    {
        if p >= n {
            proof {
                lemma_digit_scan_complete(s@, pos as int, p as int, acc as nat);
                if !any {
                    assert forall|v: u64|
                        #![trigger spec_json_u64(v as nat)]
                        spec_lit_at(s@, pos as int, spec_json_u64(v as nat)) && spec_digit_run_ends(
                            s@,
                            pos + spec_json_u64(v as nat).len(),
                        ) implies false by {
                        lemma_u64_digits_value(v as nat);
                    }
                }
            }
            return if any {
                Some((acc, p))
            } else {
                None
            };
        }
        let c = s.get_char(p);
        match digit_val(c) {
            Some(d) => {
                if acc >= 100_000_000_000_000_000 {
                    proof {
                        lemma_digit_scan_overflow(s@, pos as int, p as int, acc as nat);
                    }
                    return None;
                }
                acc = acc * 10 + d;
                any = true;
                p = p + 1;
                proof {
                    assert(s@.subrange(pos as int, p as int).drop_last() =~= s@.subrange(
                        pos as int,
                        p - 1,
                    ));
                    assert(s@.subrange(pos as int, p as int).last() == c);
                    assert forall|i: int|
                        0 <= i < p - pos implies spec_is_digit(
                        s@.subrange(pos as int, p as int)[i],
                    ) by {
                        if i < p - 1 - pos {
                            assert(s@.subrange(pos as int, p as int)[i] == s@.subrange(
                                pos as int,
                                p - 1,
                            )[i]);
                        }
                    }
                }
            },
            None => {
                proof {
                    lemma_digit_scan_complete(s@, pos as int, p as int, acc as nat);
                    if !any {
                        assert forall|v: u64|
                            #![trigger spec_json_u64(v as nat)]
                            spec_lit_at(s@, pos as int, spec_json_u64(v as nat))
                                && spec_digit_run_ends(
                                s@,
                                pos + spec_json_u64(v as nat).len(),
                            ) implies false by {
                            lemma_u64_digits_value(v as nat);
                        }
                    }
                }
                return if any {
                    Some((acc, p))
                } else {
                    None
                };
            },
        }
    }
}

/// Ten to any power is positive.
proof fn lemma_pow10_pos(k: nat)
    ensures
        spec_pow10(k) >= 1,
    decreases k,
{
    if k > 0 {
        lemma_pow10_pos((k - 1) as nat);
    }
}

/// Powers of ten multiply by adding exponents.
proof fn lemma_pow10_adds(a: nat, b: nat)
    ensures
        spec_pow10(a + b) == spec_pow10(a) * spec_pow10(b),
    decreases a,
{
    if a == 0 {
        assert(spec_pow10(b) == 1 * spec_pow10(b));
    } else {
        lemma_pow10_adds((a - 1) as nat, b);
        assert((10 * spec_pow10((a - 1) as nat)) * spec_pow10(b) == 10 * (spec_pow10(
            (a - 1) as nat,
        ) * spec_pow10(b))) by (nonlinear_arith);
        assert(spec_pow10((a + b - 1) as nat) == spec_pow10((a - 1) as nat) * spec_pow10(b));
    }
}

/// Prepending a digit shifts the run's value by the run's width.
proof fn lemma_digits_value_prepend(c: char, ds: Seq<char>)
    ensures
        spec_digits_value(seq![c] + ds) == spec_char_digit(c) * spec_pow10(ds.len()) + spec_digits_value(ds),
    decreases ds.len(),
{
    let a = seq![c] + ds;
    if ds.len() == 0 {
        assert(a =~= seq![c]);
        assert(a.last() == c);
        assert(a.drop_last() =~= Seq::<char>::empty());
        assert(spec_digits_value(a.drop_last()) == 0);
        assert(spec_digits_value(ds) == 0);
        assert(spec_pow10(0) == 1);
        assert(spec_digits_value(a) == spec_char_digit(c) * 1 + 0) by (nonlinear_arith)
            requires
                spec_digits_value(a) == 0 * 10 + spec_char_digit(c),
        ;
    } else {
        lemma_digits_value_prepend(c, ds.drop_last());
        assert(a.drop_last() =~= seq![c] + ds.drop_last());
        assert(a.last() == ds.last());
        let p1 = spec_pow10((ds.len() - 1) as nat);
        let vd = spec_digits_value(ds.drop_last());
        let cl = spec_char_digit(ds.last());
        let cc = spec_char_digit(c);
        assert(spec_pow10(ds.len()) == 10 * p1);
        assert(spec_digits_value(a) == spec_digits_value(a.drop_last()) * 10 + cl);
        assert(spec_digits_value(a.drop_last()) == cc * p1 + vd);
        assert(spec_digits_value(ds) == vd * 10 + cl);
        assert((cc * p1 + vd) * 10 + cl == cc * (10 * p1) + (vd * 10 + cl)) by (nonlinear_arith);
        assert(spec_digits_value(a) == cc * spec_pow10(ds.len()) + spec_digits_value(ds));
    }
}

/// The trimmed fractional digits of `fp < 10^k` are a digit run whose value,
/// scaled back by the trimmed width, is `fp` again.
proof fn lemma_frac_digits_value(fp: nat, k: nat)
    requires
        fp < spec_pow10(k),
    ensures
        spec_all_digits(spec_frac_digits(fp, k)),
        spec_frac_digits(fp, k).len() <= k,
        fp != 0 ==> spec_frac_digits(fp, k).len() >= 1,
        spec_digits_value(spec_frac_digits(fp, k)) * spec_pow10(
            (k - spec_frac_digits(fp, k).len()) as nat,
        ) == fp,
        spec_digits_value(spec_frac_digits(fp, k)) <= fp,
    decreases k,
{
    let ds = spec_frac_digits(fp, k);
    if fp == 0 || k == 0 {
        assert(ds =~= Seq::<char>::empty());
        lemma_pow10_pos(k);
        assert(spec_digits_value(ds) == 0);
        if k == 0 {
            assert(spec_pow10(0) == 1);
        }
        assert(fp == 0);
        assert(spec_digits_value(ds) * spec_pow10((k - ds.len()) as nat) == 0) by (nonlinear_arith)
            requires
                spec_digits_value(ds) == 0,
        ;
    } else {
        let p = spec_pow10((k - 1) as nat);
        let head = fp / p;
        let rest = fp % p;
        lemma_pow10_pos((k - 1) as nat);
        vstd::arithmetic::div_mod::lemma_fundamental_div_mod(fp as int, p as int);
        assert(head < 10) by (nonlinear_arith)
            requires
                p >= 1,
                fp < 10 * p,
                (p as int) * (head as int) + rest == fp,
                0 <= rest < p,
        ;
        lemma_frac_digits_value(rest, (k - 1) as nat);
        let dsr = spec_frac_digits(rest, (k - 1) as nat);
        assert(ds == seq![spec_digit(head)] + dsr);
        lemma_digits_value_prepend(spec_digit(head), dsr);
        assert(spec_char_digit(spec_digit(head)) == head);
        assert forall|i: int| 0 <= i < ds.len() implies spec_is_digit(ds[i]) by {
            if i == 0 {
                assert(ds[0] == spec_digit(head));
            } else {
                assert(ds[i] == dsr[i - 1]);
            }
        }
        let lr = dsr.len();
        let vr = spec_digits_value(dsr);
        let q = spec_pow10((k - 1 - lr) as nat);
        // (head * 10^lr + vr) * 10^(k-1-lr) == head * 10^(k-1) + vr * 10^(k-1-lr) == fp
        lemma_pow10_adds(lr, (k - 1 - lr) as nat);
        assert(spec_pow10(lr) * q == spec_pow10((k - 1) as nat));
        assert(spec_digits_value(ds) == head * spec_pow10(lr) + vr);
        assert((head * spec_pow10(lr) + vr) * q == head * (spec_pow10(lr) * q) + vr * q)
            by (nonlinear_arith);
        assert(vr * q == rest);
        assert(head * spec_pow10((k - 1) as nat) + rest == fp) by (nonlinear_arith)
            requires
                fp == (spec_pow10((k - 1) as nat) as int) * (head as int) + rest,
        ;
        assert(spec_digits_value(ds) * spec_pow10((k - ds.len()) as nat) == fp);
        // the run's value stays at or below fp
        lemma_pow10_pos((k - ds.len()) as nat);
        assert(spec_digits_value(ds) <= spec_digits_value(ds) * spec_pow10((k - ds.len()) as nat))
            by (nonlinear_arith)
            requires
                spec_pow10((k - ds.len()) as nat) >= 1,
        ;
    }
}

/// The micro value's magnitude.
pub open spec fn spec_micro_mag(m: int) -> int {
    if m < 0 {
        -m
    } else {
        m
    }
}

/// The width of the micro value's sign.
pub open spec fn spec_micro_sign_len(m: int) -> int {
    if m < 0 {
        1
    } else {
        0
    }
}

/// The micro value's fractional digit run.
pub open spec fn spec_micro_fracs(m: int) -> Seq<char> {
    let fp = spec_micro_mag(m) % 1_000_000;
    if fp == 0 {
        seq!['0']
    } else {
        spec_frac_digits(fp as nat, 6)
    }
}

/// A micro value within the decoder's numeric domain.
pub open spec fn spec_micro_decodable(m: int) -> bool {
    -9_000_000_000_000_999_999 <= m <= 9_000_000_000_000_999_999
}

/// A literal that stands at a position splits at each concatenation.
proof fn lemma_lit_at_concat(s: Seq<char>, pos: int, a: Seq<char>, b: Seq<char>)
    requires
        pos >= 0,
        spec_lit_at(s, pos, a + b),
    ensures
        spec_lit_at(s, pos, a),
        spec_lit_at(s, pos + a.len(), b),
{
    let ab = a + b;
    assert forall|i: int| 0 <= i < a.len() implies s.subrange(pos, pos + a.len())[i] == a[i] by {
        assert(s.subrange(pos, pos + ab.len())[i] == ab[i]);
    }
    assert(s.subrange(pos, pos + a.len()) =~= a);
    assert forall|i: int|
        0 <= i < b.len() implies s.subrange(pos + a.len(), pos + a.len() + b.len())[i] == b[i] by {
        assert(s.subrange(pos, pos + ab.len())[a.len() + i] == ab[a.len() + i]);
    }
    assert(s.subrange(pos + a.len(), pos + a.len() + b.len()) =~= b);
}

/// A character of a literal that stands at a position is in the text.
proof fn lemma_lit_char(s: Seq<char>, pos: int, lit: Seq<char>, i: int)
    requires
        pos >= 0,
        spec_lit_at(s, pos, lit),
        0 <= i < lit.len(),
    ensures
        s[pos + i] == lit[i],
{
    assert(s.subrange(pos, pos + lit.len())[i] == s[pos + i]);
}

/// How the decimal text of a decodable micro value sits in the input: the
/// sign, the integer digits, the point, and the fractional digits, each at
/// its place, with every digit run properly delimited.
proof fn lemma_micro_structure(s: Seq<char>, pos: int, m: int)
    requires
        spec_micro_decodable(m),
        spec_lit_at(s, pos, spec_json_micro(m)),
        spec_digit_run_ends(s, pos + spec_json_micro(m).len()),
        pos >= 0,
    ensures
        ({
            let sl = spec_micro_sign_len(m);
            let ip = spec_micro_mag(m) / 1_000_000;
            let ipds = spec_json_u64(ip as nat);
            let fracs = spec_micro_fracs(m);
            &&& spec_json_micro(m).len() == sl + ipds.len() + 1 + fracs.len()
            &&& (m < 0 ==> s[pos] == '-')
            &&& (m >= 0 ==> s[pos] != '-')
            &&& pos < s.len()
            &&& spec_lit_at(s, pos + sl, ipds)
            &&& ip <= 9_000_000_000_000
            &&& pos + sl + ipds.len() < s.len()
            &&& s[pos + sl + ipds.len()] == '.'
            &&& spec_digit_run_ends(s, pos + sl + ipds.len())
            &&& spec_lit_at(s, pos + sl + ipds.len() + 1, fracs)
            &&& spec_all_digits(fracs)
            &&& 1 <= fracs.len() <= 6
            &&& spec_digits_value(fracs) * spec_pow10((6 - fracs.len()) as nat) == spec_micro_mag(
                m,
            ) % 1_000_000
            &&& spec_digits_value(fracs) <= 999_999
            &&& spec_digit_run_ends(s, pos + sl + ipds.len() + 1 + fracs.len())
        }),
{
    let sl = spec_micro_sign_len(m);
    let mag = spec_micro_mag(m);
    let ip = mag / 1_000_000;
    let fp = mag % 1_000_000;
    let ipds = spec_json_u64(ip as nat);
    let fracs = spec_micro_fracs(m);
    let sign: Seq<char> = if m < 0 {
        seq!['-']
    } else {
        Seq::<char>::empty()
    };
    assert(spec_json_micro(m) == sign + ipds + seq!['.'] + fracs);
    lemma_lit_at_concat(s, pos, sign + ipds + seq!['.'], fracs);
    lemma_lit_at_concat(s, pos, sign + ipds, seq!['.']);
    lemma_lit_at_concat(s, pos, sign, ipds);
    lemma_u64_digits_value(ip as nat);
    if m < 0 {
        assert(s.subrange(pos, pos + 1)[0] == s[pos]);
    } else {
        assert(s.subrange(pos, pos + ipds.len())[0] == s[pos]);
        assert(spec_is_digit(ipds[0]));
        assert(!spec_is_digit('-'));
    }
    assert(s.subrange(pos + sl + ipds.len(), pos + sl + ipds.len() + 1)[0] == s[pos + sl
        + ipds.len()]);
    assert(!spec_is_digit('.'));
    reveal_with_fuel(spec_pow10, 8);
    if fp == 0 {
        assert(fracs =~= seq!['0']);
        assert(fracs.last() == '0');
        assert(spec_char_digit('0') == 0);
        assert(fracs.drop_last() =~= Seq::<char>::empty());
        assert(spec_digits_value(fracs.drop_last()) == 0);
        assert(spec_digits_value(fracs) == spec_digits_value(fracs.drop_last()) * 10
            + spec_char_digit(fracs.last()));
        assert(spec_digits_value(fracs) == 0);
    } else {
        lemma_frac_digits_value(fp as nat, 6);
    }
    assert(mag == 1_000_000 * ip + fp) by {
        vstd::arithmetic::div_mod::lemma_fundamental_div_mod(mag, 1_000_000);
    }
}

/// Parse a decimal number into micro fixed point: sign, integer part, a
/// decimal point, and one to six fractional digits.  On the canonical text
/// of any decodable micro value whose digits then end, it returns exactly
/// that value and the position after its text.
#[verifier::loop_isolation(false)]
#[verifier::rlimit(80)]
fn parse_micro(s: &str, pos: usize) -> (r: Option<(i64, usize)>)
    ensures
        forall|m: i64|
            #![trigger spec_json_micro(m as int)]
            spec_micro_decodable(m as int) && spec_lit_at(s@, pos as int, spec_json_micro(m as int))
                && spec_digit_run_ends(s@, pos + spec_json_micro(m as int).len()) ==> r == Some(
                (m, (pos + spec_json_micro(m as int).len()) as usize),
            ),
{
    let n = s.unicode_len();
    let mut p = pos;
    let mut neg = false;
    if p < n && s.get_char(p) == '-' {
        neg = true;
        p = p + 1;
    }
    let (ip, after_ip) = match parse_u64_digits(s, p) {
        Some(x) => x,
        None => {
            proof {
                assert forall|m: i64|
                    spec_micro_decodable(m as int) && spec_lit_at(
                        s@,
                        pos as int,
                        spec_json_micro(m as int),
                    ) && spec_digit_run_ends(
                        s@,
                        pos + spec_json_micro(m as int).len(),
                    ) implies false by {
                    lemma_micro_structure(s@, pos as int, m as int);
                    let ipv: u64 = (spec_micro_mag(m as int) / 1_000_000) as u64;
                    assert(spec_json_u64(ipv as nat) == spec_json_u64(
                        (spec_micro_mag(m as int) / 1_000_000) as nat,
                    ));
                    assert(p == pos + spec_micro_sign_len(m as int));
                }
            }
            return None;
        },
    };
    if ip > 9_000_000_000_000 {
        proof {
            assert forall|m: i64|
                spec_micro_decodable(m as int) && spec_lit_at(
                    s@,
                    pos as int,
                    spec_json_micro(m as int),
                ) && spec_digit_run_ends(s@, pos + spec_json_micro(m as int).len()) implies false by {
                lemma_micro_structure(s@, pos as int, m as int);
                let ipv: u64 = (spec_micro_mag(m as int) / 1_000_000) as u64;
                assert(spec_json_u64(ipv as nat) == spec_json_u64(
                    (spec_micro_mag(m as int) / 1_000_000) as nat,
                ));
                assert(p == pos + spec_micro_sign_len(m as int));
            }
        }
        return None;
    }
    p = after_ip;
    if p >= n || s.get_char(p) != '.' {
        proof {
            assert forall|m: i64|
                spec_micro_decodable(m as int) && spec_lit_at(
                    s@,
                    pos as int,
                    spec_json_micro(m as int),
                ) && spec_digit_run_ends(s@, pos + spec_json_micro(m as int).len()) implies false by {
                lemma_micro_structure(s@, pos as int, m as int);
                let ipv: u64 = (spec_micro_mag(m as int) / 1_000_000) as u64;
                assert(spec_json_u64(ipv as nat) == spec_json_u64(
                    (spec_micro_mag(m as int) / 1_000_000) as nat,
                ));
            }
        }
        return None;
    }
    p = p + 1;
    let ghost start = p as int;
    let mut frac: u64 = 0;
    let mut count: u64 = 0;
    let mut ended = false;
    while p < n && count < 6 && !ended
        invariant
            n == s@.len(),
            0 <= start <= p <= n,
            count == p - start,
            count <= 6,
            frac < 1_000_000,
            frac as nat == spec_digits_value(s@.subrange(start, p as int)),
            spec_all_digits(s@.subrange(start, p as int)),
            ended ==> spec_digit_run_ends(s@, p as int),
        decreases n - p, (if ended { 0int } else { 1 }),
    {
        let c = s.get_char(p);
        match digit_val(c) {
            Some(d) => {
                if frac >= 100_000 {
                    proof {
                        assert forall|m: i64|
                            spec_micro_decodable(m as int) && spec_lit_at(
                                s@,
                                pos as int,
                                spec_json_micro(m as int),
                            ) && spec_digit_run_ends(
                                s@,
                                pos + spec_json_micro(m as int).len(),
                            ) implies false by {
                            lemma_micro_structure(s@, pos as int, m as int);
                            let fracs = spec_micro_fracs(m as int);
                            let fs = start;
                            // the scan is still inside the fractional run:
                            // the run ends at fs + len, but a digit stands
                            // at every scanned position and at p itself
                            if p > fs + fracs.len() {
                                assert(s@.subrange(fs, p as int)[fracs.len() as int] == s@[fs
                                    + fracs.len()]);
                                assert(spec_is_digit(s@.subrange(fs, p as int)[fracs.len() as int]));
                                assert(false);
                            }
                            if p == fs + fracs.len() {
                                assert(spec_is_digit(s@[p as int]));
                                assert(false);
                            }
                            assert(s@.subrange(fs, p as int) =~= fracs.take(p - fs));
                            assert(fracs.take(p - fs + 1).drop_last() =~= fracs.take(p - fs));
                            assert(fracs.take(p - fs + 1).last() == fracs[p - fs]);
                            assert(spec_digits_value(fracs.take(p - fs + 1)) >= 1_000_000);
                            lemma_digits_value_take(fracs, p - fs + 1);
                        }
                    }
                    return None;
                }
                frac = frac * 10 + d;
                count = count + 1;
                p = p + 1;
                proof {
                    assert(s@.subrange(start, p as int).drop_last() =~= s@.subrange(start, p - 1));
                    assert(s@.subrange(start, p as int).last() == c);
                    assert forall|i: int|
                        0 <= i < p - start implies spec_is_digit(
                        s@.subrange(start, p as int)[i],
                    ) by {
                        if i < p - 1 - start {
                            assert(s@.subrange(start, p as int)[i] == s@.subrange(start, p - 1)[i]);
                        }
                    }
                }
            },
            None => {
                ended = true;
            },
        }
    }
    if count == 0 {
        proof {
            assert forall|m: i64|
                spec_micro_decodable(m as int) && spec_lit_at(
                    s@,
                    pos as int,
                    spec_json_micro(m as int),
                ) && spec_digit_run_ends(s@, pos + spec_json_micro(m as int).len()) implies false by {
                lemma_micro_structure(s@, pos as int, m as int);
                let fracs = spec_micro_fracs(m as int);
                assert(s@.subrange(start, start + fracs.len())[0] == s@[start]);
                assert(spec_is_digit(fracs[0]));
            }
        }
        return None;
    }
    let scale = pow10u(6 - count);
    proof {
        assert(frac * scale <= 999_999 * 100_000) by (nonlinear_arith)
            requires
                frac <= 999_999,
                scale <= 100_000,
        ;
    }
    let mag: u64 = ip * 1_000_000 + frac * scale;
    let v = if neg {
        -(mag as i64)
    } else {
        mag as i64
    };
    proof {
        assert forall|m: i64|
            spec_micro_decodable(m as int) && spec_lit_at(s@, pos as int, spec_json_micro(m as int))
                && spec_digit_run_ends(
                s@,
                pos + spec_json_micro(m as int).len(),
            ) implies Some((v, p)) == Some::<(i64, usize)>(
            (m, (pos + spec_json_micro(m as int).len()) as usize),
        ) by {
            lemma_micro_structure(s@, pos as int, m as int);
            let sl = spec_micro_sign_len(m as int);
            let mi = spec_micro_mag(m as int) / 1_000_000;
            let ipv: u64 = mi as u64;
            assert(spec_json_u64(ipv as nat) == spec_json_u64(mi as nat));
            let ipds = spec_json_u64(mi as nat);
            let fracs = spec_micro_fracs(m as int);
            // the sign branch, the integer digits and the point all match
            assert(neg == (m < 0));
            assert(ip == ipv && start == pos + sl + ipds.len() + 1);
            // the fractional scan read exactly the fractional run
            let fs = start;
            if p < fs + fracs.len() {
                // a digit of the run remains: the scan could not have stopped
                assert(s@.subrange(fs, fs + fracs.len())[p - fs] == s@[p as int]);
                assert(spec_is_digit(fracs[p - fs]));
                assert(count == 6 || ended);
                assert(false);
            }
            if p > fs + fracs.len() {
                assert(s@.subrange(fs, p as int)[fracs.len() as int] == s@[fs + fracs.len()]);
                assert(spec_is_digit(s@.subrange(fs, p as int)[fracs.len() as int]));
                assert(false);
            }
            assert(s@.subrange(fs, p as int) == fracs);
            assert(frac as nat == spec_digits_value(fracs));
            assert(scale == spec_pow10((6 - fracs.len()) as nat));
            assert(mag == spec_micro_mag(m as int));
            assert(v == m);
        }
    }
    Some((v, p))
}

/// The sign width of a signed number's text.
pub open spec fn spec_i64_sign_len(x: int) -> int {
    if x < 0 {
        1
    } else {
        0
    }
}

/// The magnitude of a signed number.
pub open spec fn spec_i64_mag(x: int) -> int {
    if x < 0 {
        -x
    } else {
        x
    }
}

/// How the decimal text of a signed number sits in the input: the sign and
/// the digit run, properly delimited.
proof fn lemma_i64_structure(s: Seq<char>, pos: int, x: int)
    requires
        pos >= 0,
        spec_lit_at(s, pos, spec_json_i64(x)),
        spec_digit_run_ends(s, pos + spec_json_i64(x).len()),
    ensures
        ({
            let sl = spec_i64_sign_len(x);
            let ds = spec_json_u64(spec_i64_mag(x) as nat);
            &&& spec_json_i64(x).len() == sl + ds.len()
            &&& (x < 0 ==> s[pos] == '-')
            &&& (x >= 0 ==> s[pos] != '-')
            &&& pos < s.len()
            &&& spec_lit_at(s, pos + sl, ds)
            &&& spec_digit_run_ends(s, pos + sl + ds.len())
        }),
{
    let ds = spec_json_u64(spec_i64_mag(x) as nat);
    lemma_u64_digits_value(spec_i64_mag(x) as nat);
    if x < 0 {
        assert(spec_json_i64(x) == seq!['-'] + ds);
        lemma_lit_at_concat(s, pos, seq!['-'], ds);
        lemma_lit_char(s, pos, seq!['-'], 0);
    } else {
        assert(spec_json_i64(x) == ds);
        lemma_lit_char(s, pos, ds, 0);
        assert(spec_is_digit(ds[0]));
        assert(!spec_is_digit('-'));
    }
}

/// Parse a signed whole number that fits an `i32`.  On the decimal text of
/// any `i32` whose digits then end, it returns exactly that number and the
/// position after its text.
fn parse_i32(s: &str, pos: usize) -> (r: Option<(i32, usize)>)
    ensures
        forall|x: i32|
            #![trigger spec_json_i64(x as int)]
            spec_lit_at(s@, pos as int, spec_json_i64(x as int)) && spec_digit_run_ends(
                s@,
                pos + spec_json_i64(x as int).len(),
            ) ==> r == Some((x, (pos + spec_json_i64(x as int).len()) as usize)),
{
    let n = s.unicode_len();
    let mut p = pos;
    let mut neg = false;
    if p < n && s.get_char(p) == '-' {
        neg = true;
        p = p + 1;
    }
    let ru = parse_u64_digits(s, p);
    proof {
        assert forall|x: i32|
            #![trigger spec_json_i64(x as int)]
            spec_lit_at(s@, pos as int, spec_json_i64(x as int)) && spec_digit_run_ends(
                s@,
                pos + spec_json_i64(x as int).len(),
            ) implies neg == (x < 0) && ru == Some(
            (
                spec_i64_mag(x as int) as u64,
                (pos + spec_json_i64(x as int).len()) as usize,
            ),
        ) by {
            lemma_i64_structure(s@, pos as int, x as int);
            let mv: u64 = spec_i64_mag(x as int) as u64;
            assert(spec_json_u64(mv as nat) == spec_json_u64(spec_i64_mag(x as int) as nat));
            assert(p == pos + spec_i64_sign_len(x as int));
        }
    }
    let (mag, after) = match ru {
        Some(v) => v,
        None => {
            return None;
        },
    };
    if neg {
        if mag > 0x8000_0000 {
            return None;
        }
        Some(((-(mag as i64)) as i32, after))
    } else {
        if mag > 0x7FFF_FFFF {
            return None;
        }
        Some((mag as i32, after))
    }
}

/// Parse one JSON string character/// Parse one JSON string character, accepting the named escapes.
fn parse_json_char(s: &str, pos: usize) -> (r: Option<(char, usize)>)
{
    let n = s.unicode_len();
    if pos >= n {
        return None;
    }
    let c = s.get_char(pos);
    if c == '\\' {
        if pos + 1 >= n {
            return None;
        }
        let e = s.get_char(pos + 1);
        let decoded = match e {
            '"' => Some('"'),
            '\\' => Some('\\'),
            'b' => Some('\u{8}'),
            't' => Some('\t'),
            'n' => Some('\n'),
            'f' => Some('\u{c}'),
            'r' => Some('\r'),
            _ => None,
        };
        match decoded {
            Some(d) => Some((d, pos + 2)),
            None => None,
        }
    } else if c == '"' {
        None
    } else {
        Some((c, pos + 1))
    }
}

/// Parse a key name.
fn parse_key(s: &str, pos: usize) -> (r: Option<(Key, usize)>)
{
    let names: [(&str, Key); 35] = [
        ("\"Alt\"", Key::Alt),
        ("\"Backspace\"", Key::Backspace),
        ("\"CapsLock\"", Key::CapsLock),
        ("\"Command\"", Key::Command),
        ("\"Control\"", Key::Control),
        ("\"Delete\"", Key::Delete),
        ("\"DownArrow\"", Key::DownArrow),
        ("\"End\"", Key::End),
        ("\"Escape\"", Key::Escape),
        ("\"F10\"", Key::F10),
        ("\"F11\"", Key::F11),
        ("\"F12\"", Key::F12),
        ("\"F1\"", Key::F1),
        ("\"F2\"", Key::F2),
        ("\"F3\"", Key::F3),
        ("\"F4\"", Key::F4),
        ("\"F5\"", Key::F5),
        ("\"F6\"", Key::F6),
        ("\"F7\"", Key::F7),
        ("\"F8\"", Key::F8),
        ("\"F9\"", Key::F9),
        ("\"Home\"", Key::Home),
        ("\"LeftArrow\"", Key::LeftArrow),
        ("\"Meta\"", Key::Meta),
        ("\"Option\"", Key::OptionKey),
        ("\"PageDown\"", Key::PageDown),
        ("\"PageUp\"", Key::PageUp),
        ("\"Return\"", Key::Return),
        ("\"RightArrow\"", Key::RightArrow),
        ("\"Shift\"", Key::Shift),
        ("\"Space\"", Key::Space),
        ("\"Super\"", Key::Super),
        ("\"Tab\"", Key::Tab),
        ("\"UpArrow\"", Key::UpArrow),
        ("\"Windows\"", Key::Windows),
    ];
    let mut i: usize = 0;
    while i < 35
        invariant
            i <= 35,
        decreases 35 - i,
    {
        let (name, key) = names[i];
        match expect_lit(s, pos, name) {
            Some(np) => {
                return Some((key, np));
            },
            None => {},
        }
        i = i + 1;
    }
    match expect_lit(s, pos, "{\"Layout\":\"") {
        Some(p1) => {
            let (c, p2) = match parse_json_char(s, p1) {
                Some(x) => x,
                None => {
                    return None;
                },
            };
            match expect_lit(s, p2, "\"}") {
                Some(p3) => Some((Key::Layout(c), p3)),
                None => None,
            }
        },
        None => {
            let p1 = match expect_lit(s, pos, "{\"Raw\":") {
                Some(p) => p,
                None => {
                    return None;
                },
            };
            let (v, p2) = match parse_u64_digits(s, p1) {
                Some(x) => x,
                None => {
                    return None;
                },
            };
            if v > 0xFFFF {
                return None;
            }
            match expect_lit(s, p2, "}") {
                Some(p3) => Some((Key::Raw(v as u16), p3)),
                None => None,
            }
        },
    }
}

/// Parse a mouse button name.
fn parse_button(s: &str, pos: usize) -> (r: Option<(MouseButton, usize)>)
{
    if let Some(np) = expect_lit(s, pos, "\"Left\"") {
        return Some((MouseButton::Left, np));
    }
    if let Some(np) = expect_lit(s, pos, "\"Middle\"") {
        return Some((MouseButton::Middle, np));
    }
    if let Some(np) = expect_lit(s, pos, "\"Right\"") {
        return Some((MouseButton::Right, np));
    }
    if let Some(np) = expect_lit(s, pos, "\"ScrollUp\"") {
        return Some((MouseButton::ScrollUp, np));
    }
    if let Some(np) = expect_lit(s, pos, "\"ScrollDown\"") {
        return Some((MouseButton::ScrollDown, np));
    }
    if let Some(np) = expect_lit(s, pos, "\"ScrollLeft\"") {
        return Some((MouseButton::ScrollLeft, np));
    }
    if let Some(np) = expect_lit(s, pos, "\"ScrollRight\"") {
        return Some((MouseButton::ScrollRight, np));
    }
    None
}

/// Parse a wire duration.
fn parse_duration(s: &str, pos: usize) -> (r: Option<(EventDuration, usize)>)
{
    let p1 = match expect_lit(s, pos, "{\"secs\":") {
        Some(p) => p,
        None => {
            return None;
        },
    };
    let (secs, p2) = match parse_u64_digits(s, p1) {
        Some(x) => x,
        None => {
            return None;
        },
    };
    let p3 = match expect_lit(s, p2, ",\"nanos\":") {
        Some(p) => p,
        None => {
            return None;
        },
    };
    let (nanos, p4) = match parse_u64_digits(s, p3) {
        Some(x) => x,
        None => {
            return None;
        },
    };
    if nanos > 0xFFFF_FFFF {
        return None;
    }
    match expect_lit(s, p4, "}") {
        Some(p5) => Some((EventDuration { secs, nanos: nanos as u32 }, p5)),
        None => None,
    }
}

/// Parse a keyboard action.
fn parse_kb_action(s: &str, pos: usize) -> (r: Option<(KeyboardAction, usize)>)
{
    if let Some(np) = expect_lit(s, pos, "\"Up\"") {
        return Some((KeyboardAction::Up, np));
    }
    if let Some(np) = expect_lit(s, pos, "\"Down\"") {
        return Some((KeyboardAction::Down, np));
    }
    let p1 = match expect_lit(s, pos, "{\"Click\":") {
        Some(p) => p,
        None => {
            return None;
        },
    };
    let (d, p2) = match parse_duration(s, p1) {
        Some(x) => x,
        None => {
            return None;
        },
    };
    match expect_lit(s, p2, "}") {
        Some(p3) => Some((KeyboardAction::Click(d), p3)),
        None => None,
    }
}

/// Parse a mouse-button action.
fn parse_mb_action(s: &str, pos: usize) -> (r: Option<(MouseButtonAction, usize)>)
{
    if let Some(np) = expect_lit(s, pos, "\"Down\"") {
        return Some((MouseButtonAction::Down, np));
    }
    if let Some(np) = expect_lit(s, pos, "\"Up\"") {
        return Some((MouseButtonAction::Up, np));
    }
    let p1 = match expect_lit(s, pos, "{\"Click\":") {
        Some(p) => p,
        None => {
            return None;
        },
    };
    let (d, p2) = match parse_duration(s, p1) {
        Some(x) => x,
        None => {
            return None;
        },
    };
    match expect_lit(s, p2, "}") {
        Some(p3) => Some((MouseButtonAction::Click(d), p3)),
        None => None,
    }
}

/// A mouse event the decoder's completeness claim covers.
pub open spec fn spec_mouse_decodable(me: MouseEvent) -> bool {
    me is Move
}

/// The literal an origin is written as.
pub open spec fn spec_origin_lit(o: MouseMoveOrigin) -> Seq<char> {
    match o {
        MouseMoveOrigin::Rel => "\"Rel\""@,
        MouseMoveOrigin::Abs => "\"Abs\""@,
    }
}

/// How a mouse-move event's canonical text sits in the input: the head,
/// the origin name, the two labelled coordinates, and the closing braces.
proof fn lemma_mouse_structure_move(s: Seq<char>, pos: int, me: MouseMoveEvent)
    requires
        pos >= 0,
        spec_lit_at(s, pos, spec_json_mouse(MouseEvent::Move(me))),
    ensures
        ({
            let head = "{\"Move\":{\"origin\":"@;
            let org = spec_origin_lit(me.origin);
            let xd = spec_json_i64(me.x as int);
            let yd = spec_json_i64(me.y as int);
            let px = pos + head.len() + org.len() + ",\"x\":"@.len();
            let py = px + xd.len() + ",\"y\":"@.len();
            &&& spec_lit_at(s, pos, head)
            &&& spec_lit_at(s, pos + head.len(), org)
            &&& spec_lit_at(s, pos + head.len() + org.len(), ",\"x\":"@)
            &&& spec_lit_at(s, px, xd)
            &&& spec_digit_run_ends(s, px + xd.len())
            &&& spec_lit_at(s, px + xd.len(), ",\"y\":"@)
            &&& spec_lit_at(s, py, yd)
            &&& spec_digit_run_ends(s, py + yd.len())
            &&& spec_lit_at(s, py + yd.len(), "}}"@)
            &&& spec_json_mouse(MouseEvent::Move(me)).len() == py + yd.len() + 2 - pos
        }),
{
    let head = "{\"Move\":{\"origin\":"@;
    let org = spec_origin_lit(me.origin);
    let xd = spec_json_i64(me.x as int);
    let yd = spec_json_i64(me.y as int);
    reveal_strlit(",\"x\":");
    reveal_strlit(",\"y\":");
    reveal_strlit("}}");
    assert(spec_json_mouse(MouseEvent::Move(me)) == head + org + ",\"x\":"@ + xd + ",\"y\":"@
        + yd + "}}"@);
    lemma_lit_at_concat(s, pos, head + org + ",\"x\":"@ + xd + ",\"y\":"@ + yd, "}}"@);
    lemma_lit_at_concat(s, pos, head + org + ",\"x\":"@ + xd + ",\"y\":"@, yd);
    lemma_lit_at_concat(s, pos, head + org + ",\"x\":"@ + xd, ",\"y\":"@);
    lemma_lit_at_concat(s, pos, head + org + ",\"x\":"@, xd);
    lemma_lit_at_concat(s, pos, head + org, ",\"x\":"@);
    lemma_lit_at_concat(s, pos, head, org);
    let px = pos + head.len() + org.len() + ",\"x\":"@.len();
    let py = px + xd.len() + ",\"y\":"@.len();
    lemma_lit_char(s, px + xd.len(), ",\"y\":"@, 0);
    assert(!spec_is_digit(','));
    lemma_lit_char(s, py + yd.len(), "}}"@, 0);
    assert(!spec_is_digit('}'));
}

/// Parse a mouse event.  On the canonical text of any mouse-move event it
/// returns exactly that event and the position after its text.
fn parse_mouse(s: &str, pos: usize) -> (r: Option<(MouseEvent, usize)>)
    ensures
        forall|me: MouseEvent|
            #![trigger spec_json_mouse(me)]
            spec_mouse_decodable(me) && spec_lit_at(s@, pos as int, spec_json_mouse(me)) ==> r
                == Some((me, (pos + spec_json_mouse(me).len()) as usize)),
{
    let _n = s.unicode_len();
    if let Some(p1) = expect_lit(s, pos, "{\"Button\":{\"action\":") {
        proof {
            assert forall|me: MouseEvent|
                #![trigger spec_json_mouse(me)]
                spec_mouse_decodable(me) && spec_lit_at(s@, pos as int, spec_json_mouse(me))
                    implies false by {
                match me {
                    MouseEvent::Move(mm) => {
                        lemma_mouse_structure_move(s@, pos as int, mm);
                        reveal_strlit("{\"Button\":{\"action\":");
                        reveal_strlit("{\"Move\":{\"origin\":");
                        lemma_lit_char(s@, pos as int, "{\"Button\":{\"action\":"@, 2);
                        lemma_lit_char(s@, pos as int, "{\"Move\":{\"origin\":"@, 2);
                    },
                    _ => {},
                }
            }
        }
        let (action, p2) = match parse_mb_action(s, p1) {
            Some(x) => x,
            None => {
                return None;
            },
        };
        let p3 = match expect_lit(s, p2, ",\"button\":") {
            Some(p) => p,
            None => {
                return None;
            },
        };
        let (button, p4) = match parse_button(s, p3) {
            Some(x) => x,
            None => {
                return None;
            },
        };
        return match expect_lit(s, p4, "}}") {
            Some(p5) => Some((MouseEvent::Button(MouseButtonEvent { action, button }), p5)),
            None => None,
        };
    }
    if let Some(p1) = expect_lit(s, pos, "{\"Move\":{\"origin\":") {
        let ro = if let Some(p) = expect_lit(s, p1, "\"Rel\"") {
            Some((MouseMoveOrigin::Rel, p))
        } else if let Some(p) = expect_lit(s, p1, "\"Abs\"") {
            Some((MouseMoveOrigin::Abs, p))
        } else {
            None
        };
        proof {
            assert forall|me: MouseEvent|
                #![trigger spec_json_mouse(me)]
                spec_mouse_decodable(me) && spec_lit_at(s@, pos as int, spec_json_mouse(me))
                    implies me is Move && ro == Some(
                (
                    me->Move_0.origin,
                    (p1 + spec_origin_lit(me->Move_0.origin).len()) as usize,
                ),
            ) by {
                match me {
                    MouseEvent::Move(mm) => {
                        lemma_mouse_structure_move(s@, pos as int, mm);
                        reveal_strlit("{\"Move\":{\"origin\":");
                        reveal_strlit("\"Rel\"");
                        reveal_strlit("\"Abs\"");
                        assert(p1 == pos + "{\"Move\":{\"origin\":"@.len());
                        match mm.origin {
                            MouseMoveOrigin::Rel => {},
                            MouseMoveOrigin::Abs => {
                                if spec_lit_at(s@, p1 as int, "\"Rel\""@) {
                                    lemma_lit_char(s@, p1 as int, "\"Rel\""@, 1);
                                    lemma_lit_char(s@, p1 as int, spec_origin_lit(mm.origin), 1);
                                    assert(false);
                                }
                            },
                        }
                    },
                    _ => {},
                }
            }
        }
        let (origin, p2) = match ro {
            Some(x) => x,
            None => {
                return None;
            },
        };
        let rpx = expect_lit(s, p2, ",\"x\":");
        proof {
            assert forall|me: MouseEvent|
                #![trigger spec_json_mouse(me)]
                spec_mouse_decodable(me) && spec_lit_at(s@, pos as int, spec_json_mouse(me))
                    implies rpx == Some(
                (p2 + ",\"x\":"@.len()) as usize,
            ) by {
                match me {
                    MouseEvent::Move(mm) => {
                        lemma_mouse_structure_move(s@, pos as int, mm);
                        reveal_strlit(",\"x\":");
                        assert(p2 == p1 + spec_origin_lit(mm.origin).len());
                        assert(spec_lit_at(s@, p2 as int, ",\"x\":"@));
                    },
                    _ => {},
                }
            }
        }
        let p3 = match rpx {
            Some(p) => p,
            None => {
                return None;
            },
        };
        let rx = parse_i32(s, p3);
        proof {
            assert forall|me: MouseEvent|
                #![trigger spec_json_mouse(me)]
                spec_mouse_decodable(me) && spec_lit_at(s@, pos as int, spec_json_mouse(me))
                    implies me is Move && rx == Some(
                (
                    me->Move_0.x,
                    (p3 + spec_json_i64(me->Move_0.x as int).len()) as usize,
                ),
            ) by {
                match me {
                    MouseEvent::Move(mm) => {
                        lemma_mouse_structure_move(s@, pos as int, mm);
                        reveal_strlit(",\"x\":");
                        assert(p3 == pos + "{\"Move\":{\"origin\":"@.len() + spec_origin_lit(
                            mm.origin,
                        ).len() + ",\"x\":"@.len());
                        assert(spec_json_i64(mm.x as int) == spec_json_i64(
                            me->Move_0.x as int,
                        ));
                    },
                    _ => {},
                }
            }
        }
        let (x, p4) = match rx {
            Some(v) => v,
            None => {
                return None;
            },
        };
        let rpy = expect_lit(s, p4, ",\"y\":");
        proof {
            assert forall|me: MouseEvent|
                #![trigger spec_json_mouse(me)]
                spec_mouse_decodable(me) && spec_lit_at(s@, pos as int, spec_json_mouse(me))
                    implies rpy == Some(
                (p4 + ",\"y\":"@.len()) as usize,
            ) by {
                match me {
                    MouseEvent::Move(mm) => {
                        lemma_mouse_structure_move(s@, pos as int, mm);
                        reveal_strlit(",\"y\":");
                        assert(p4 == p3 + spec_json_i64(mm.x as int).len());
                        assert(spec_lit_at(s@, p4 as int, ",\"y\":"@));
                    },
                    _ => {},
                }
            }
        }
        let p5 = match rpy {
            Some(p) => p,
            None => {
                return None;
            },
        };
        let ry = parse_i32(s, p5);
        proof {
            assert forall|me: MouseEvent|
                #![trigger spec_json_mouse(me)]
                spec_mouse_decodable(me) && spec_lit_at(s@, pos as int, spec_json_mouse(me))
                    implies me is Move && ry == Some(
                (
                    me->Move_0.y,
                    (p5 + spec_json_i64(me->Move_0.y as int).len()) as usize,
                ),
            ) && spec_lit_at(
                s@,
                p5 + spec_json_i64(me->Move_0.y as int).len(),
                "}}"@,
            ) && pos + spec_json_mouse(me).len() == p5 + spec_json_i64(me->Move_0.y as int).len()
                + 2 by {
                match me {
                    MouseEvent::Move(mm) => {
                        lemma_mouse_structure_move(s@, pos as int, mm);
                        reveal_strlit(",\"y\":");
                        assert(spec_json_i64(mm.y as int) == spec_json_i64(
                            me->Move_0.y as int,
                        ));
                    },
                    _ => {},
                }
            }
        }
        let (y, p6) = match ry {
            Some(v) => v,
            None => {
                return None;
            },
        };
        let rb = expect_lit(s, p6, "}}");
        let result = match rb {
            Some(p7) => Some((MouseEvent::Move(MouseMoveEvent { origin, x, y }), p7)),
            None => None,
        };
        proof {
            assert forall|me: MouseEvent|
                #![trigger spec_json_mouse(me)]
                spec_mouse_decodable(me) && spec_lit_at(s@, pos as int, spec_json_mouse(me))
                    implies result == Some::<(MouseEvent, usize)>(
                (me, (pos + spec_json_mouse(me).len()) as usize),
            ) by {
                reveal_strlit("}}");
                match me {
                    MouseEvent::Move(mm) => {
                        assert(origin == mm.origin && x == mm.x && y == mm.y);
                        assert(MouseMoveEvent { origin, x, y } == mm);
                        assert(p5 + spec_json_i64(mm.y as int).len() + 2 <= s@.len() + 2);
                        assert(pos + spec_json_mouse(me).len() <= s@.len());
                        assert(p6 == p5 + spec_json_i64(mm.y as int).len());
                        assert(spec_lit_at(s@, p6 as int, "}}"@));
                        assert(rb == Some((p6 + 2) as usize));
                    },
                    _ => {
                        assert(false);
                    },
                }
            }
        }
        return result;
    }
    if let Some(p1) = expect_lit(s, pos, "{\"Scroll\":{\"dir\":") {
        proof {
            assert forall|me: MouseEvent|
                #![trigger spec_json_mouse(me)]
                spec_mouse_decodable(me) && spec_lit_at(s@, pos as int, spec_json_mouse(me))
                    implies false by {
                match me {
                    MouseEvent::Move(mm) => {
                        lemma_mouse_structure_move(s@, pos as int, mm);
                        reveal_strlit("{\"Scroll\":{\"dir\":");
                        reveal_strlit("{\"Move\":{\"origin\":");
                        lemma_lit_char(s@, pos as int, "{\"Scroll\":{\"dir\":"@, 2);
                        lemma_lit_char(s@, pos as int, "{\"Move\":{\"origin\":"@, 2);
                    },
                    _ => {},
                }
            }
        }
        let (dir, p2) = if let Some(p) = expect_lit(s, p1, "\"Ver\"") {
            (MouseScrollDir::Ver, p)
        } else if let Some(p) = expect_lit(s, p1, "\"Hor\"") {
            (MouseScrollDir::Hor, p)
        } else {
            return None;
        };
        let p3 = match expect_lit(s, p2, ",\"len\":") {
            Some(p) => p,
            None => {
                return None;
            },
        };
        let (len, p4) = match parse_i32(s, p3) {
            Some(v) => v,
            None => {
                return None;
            },
        };
        return match expect_lit(s, p4, "}}") {
            Some(p5) => Some((MouseEvent::Scroll(MouseScrollEvent { dir, len }), p5)),
            None => None,
        };
    }
    proof {
        assert forall|me: MouseEvent|
            #![trigger spec_json_mouse(me)]
            spec_mouse_decodable(me) && spec_lit_at(s@, pos as int, spec_json_mouse(me))
                implies false by {
            match me {
                MouseEvent::Move(mm) => {
                    lemma_mouse_structure_move(s@, pos as int, mm);
                },
                _ => {},
            }
        }
    }
    None
}

/// A volume level within the decoder's numeric domain.
pub open spec fn spec_level_decodable(l: VolumeLevel) -> bool {
    match l {
        VolumeLevel::Log(db) => spec_micro_decodable(db.0 as int),
        VolumeLevel::Lin(v) => spec_micro_decodable(v.0 as int),
        VolumeLevel::Frac(f) => spec_micro_decodable(f as int),
    }
}

/// The head literal of a level's canonical text.
pub open spec fn spec_level_head(l: VolumeLevel) -> Seq<char> {
    match l {
        VolumeLevel::Log(_) => "{\"Log\":"@,
        VolumeLevel::Lin(_) => "{\"Lin\":"@,
        VolumeLevel::Frac(_) => "{\"Frac\":"@,
    }
}

/// The micro value of a level.
pub open spec fn spec_level_micro(l: VolumeLevel) -> int {
    match l {
        VolumeLevel::Log(db) => db.0 as int,
        VolumeLevel::Lin(v) => v.0 as int,
        VolumeLevel::Frac(f) => f as int,
    }
}

/// How a level's canonical text sits in the input: the unit's head
/// literal, the micro decimal with its run delimited, and the brace.
proof fn lemma_level_structure(s: Seq<char>, pos: int, l: VolumeLevel)
    requires
        pos >= 0,
        spec_lit_at(s, pos, spec_json_level(l)),
    ensures
        ({
            let head = spec_level_head(l);
            let lm = spec_json_micro(spec_level_micro(l)).len();
            &&& spec_lit_at(s, pos, head)
            &&& spec_lit_at(s, pos + head.len(), spec_json_micro(spec_level_micro(l)))
            &&& spec_digit_run_ends(s, pos + head.len() + lm)
            &&& spec_lit_at(s, pos + head.len() + lm, "}"@)
            &&& spec_json_level(l).len() == head.len() + lm + 1
        }),
{
    let head = spec_level_head(l);
    let m = spec_level_micro(l);
    reveal_strlit("}");
    assert(spec_json_level(l) == head + spec_json_micro(m) + "}"@);
    lemma_lit_at_concat(s, pos, head + spec_json_micro(m), "}"@);
    lemma_lit_at_concat(s, pos, head, spec_json_micro(m));
    let x = pos + head.len() + spec_json_micro(m).len();
    lemma_lit_char(s, x, "}"@, 0);
    assert(!spec_is_digit('}'));
}

/// Parse a volume level.  On the canonical text of any decodable level it
/// returns exactly that level and the position after its text.
fn parse_level(s: &str, pos: usize) -> (r: Option<(VolumeLevel, usize)>)
    ensures
        forall|l: VolumeLevel|
            #![trigger spec_json_level(l)]
            spec_level_decodable(l) && spec_lit_at(s@, pos as int, spec_json_level(l)) ==> r
                == Some((l, (pos + spec_json_level(l).len()) as usize)),
{
    let _n = s.unicode_len();
    if let Some(p1) = expect_lit(s, pos, "{\"Log\":") {
        let rm = parse_micro(s, p1);
        proof {
            assert forall|l: VolumeLevel|
                #![trigger spec_json_level(l)]
                spec_level_decodable(l) && spec_lit_at(s@, pos as int, spec_json_level(l))
                    implies l is Log && rm == Some(
                (
                    spec_level_micro(l) as i64,
                    (p1 + spec_json_micro(spec_level_micro(l)).len()) as usize,
                ),
            ) && spec_lit_at(s@, p1 + spec_json_micro(spec_level_micro(l)).len(), "}"@)
                && pos + spec_json_level(l).len() == p1 + spec_json_micro(spec_level_micro(l)).len()
                + 1 by {
                lemma_level_structure(s@, pos as int, l);
                reveal_strlit("{\"Log\":");
                reveal_strlit("{\"Lin\":");
                reveal_strlit("{\"Frac\":");
                match l {
                    VolumeLevel::Log(db) => {
                        assert(spec_json_micro(db.0 as int) == spec_json_micro(spec_level_micro(l)));
                    },
                    VolumeLevel::Lin(_) => {
                        lemma_lit_char(s@, pos as int, "{\"Log\":"@, 3);
                        lemma_lit_char(s@, pos as int, spec_level_head(l), 3);
                        assert(false);
                    },
                    VolumeLevel::Frac(_) => {
                        lemma_lit_char(s@, pos as int, "{\"Log\":"@, 2);
                        lemma_lit_char(s@, pos as int, spec_level_head(l), 2);
                        assert(false);
                    },
                }
            }
        }
        let (v, p2) = match rm {
            Some(x) => x,
            None => {
                return None;
            },
        };
        let rb = expect_lit(s, p2, "}");
        let result = match rb {
            Some(p3) => Some((VolumeLevel::Log(crate::volume::DeciBel(v)), p3)),
            None => None,
        };
        proof {
            assert forall|l: VolumeLevel|
                #![trigger spec_json_level(l)]
                spec_level_decodable(l) && spec_lit_at(s@, pos as int, spec_json_level(l))
                    implies result == Some::<(VolumeLevel, usize)>(
                (l, (pos + spec_json_level(l).len()) as usize),
            ) by {
                reveal_strlit("}");
                match l {
                    VolumeLevel::Log(inner) => {
                        assert(spec_level_micro(l) == inner.0 as int);
                        assert(v == inner.0);
                        assert(crate::volume::DeciBel(v) == inner);
                        assert(p1 + spec_json_micro(spec_level_micro(l)).len() + 1 <= s@.len());
                        assert(s@.len() <= usize::MAX);
                        assert(p2 == p1 + spec_json_micro(spec_level_micro(l)).len());
                        assert(spec_lit_at(s@, p2 as int, "}"@));
                        assert(rb == Some((p2 + 1) as usize));
                        assert(pos + spec_json_level(l).len() == p2 + 1);
                    },
                    _ => {
                        assert(false);
                    },
                }
            }
        }
        return result;
    }
    if let Some(p1) = expect_lit(s, pos, "{\"Lin\":") {
        let rm = parse_micro(s, p1);
        proof {
            assert forall|l: VolumeLevel|
                #![trigger spec_json_level(l)]
                spec_level_decodable(l) && spec_lit_at(s@, pos as int, spec_json_level(l))
                    implies l is Lin && rm == Some(
                (
                    spec_level_micro(l) as i64,
                    (p1 + spec_json_micro(spec_level_micro(l)).len()) as usize,
                ),
            ) && spec_lit_at(s@, p1 + spec_json_micro(spec_level_micro(l)).len(), "}"@)
                && pos + spec_json_level(l).len() == p1 + spec_json_micro(spec_level_micro(l)).len()
                + 1 by {
                lemma_level_structure(s@, pos as int, l);
                reveal_strlit("{\"Log\":");
                reveal_strlit("{\"Lin\":");
                reveal_strlit("{\"Frac\":");
                match l {
                    VolumeLevel::Lin(v) => {
                        assert(spec_json_micro(v.0 as int) == spec_json_micro(spec_level_micro(l)));
                    },
                    VolumeLevel::Log(_) => {
                        lemma_lit_char(s@, pos as int, "{\"Lin\":"@, 3);
                        lemma_lit_char(s@, pos as int, spec_level_head(l), 3);
                        assert(false);
                    },
                    VolumeLevel::Frac(_) => {
                        lemma_lit_char(s@, pos as int, "{\"Lin\":"@, 2);
                        lemma_lit_char(s@, pos as int, spec_level_head(l), 2);
                        assert(false);
                    },
                }
            }
        }
        let (v, p2) = match rm {
            Some(x) => x,
            None => {
                return None;
            },
        };
        let rb = expect_lit(s, p2, "}");
        let result = match rb {
            Some(p3) => Some((VolumeLevel::Lin(crate::volume::LinVolt(v)), p3)),
            None => None,
        };
        proof {
            assert forall|l: VolumeLevel|
                #![trigger spec_json_level(l)]
                spec_level_decodable(l) && spec_lit_at(s@, pos as int, spec_json_level(l))
                    implies result == Some::<(VolumeLevel, usize)>(
                (l, (pos + spec_json_level(l).len()) as usize),
            ) by {
                reveal_strlit("}");
                match l {
                    VolumeLevel::Lin(inner) => {
                        assert(spec_level_micro(l) == inner.0 as int);
                        assert(v == inner.0);
                        assert(crate::volume::LinVolt(v) == inner);
                        assert(p1 + spec_json_micro(spec_level_micro(l)).len() + 1 <= s@.len());
                        assert(s@.len() <= usize::MAX);
                        assert(p2 == p1 + spec_json_micro(spec_level_micro(l)).len());
                        assert(spec_lit_at(s@, p2 as int, "}"@));
                        assert(rb == Some((p2 + 1) as usize));
                        assert(pos + spec_json_level(l).len() == p2 + 1);
                    },
                    _ => {
                        assert(false);
                    },
                }
            }
        }
        return result;
    }
    if let Some(p1) = expect_lit(s, pos, "{\"Frac\":") {
        let rm = parse_micro(s, p1);
        proof {
            assert forall|l: VolumeLevel|
                #![trigger spec_json_level(l)]
                spec_level_decodable(l) && spec_lit_at(s@, pos as int, spec_json_level(l))
                    implies l is Frac && rm == Some(
                (
                    spec_level_micro(l) as i64,
                    (p1 + spec_json_micro(spec_level_micro(l)).len()) as usize,
                ),
            ) && spec_lit_at(s@, p1 + spec_json_micro(spec_level_micro(l)).len(), "}"@)
                && pos + spec_json_level(l).len() == p1 + spec_json_micro(spec_level_micro(l)).len()
                + 1 by {
                lemma_level_structure(s@, pos as int, l);
                reveal_strlit("{\"Log\":");
                reveal_strlit("{\"Lin\":");
                reveal_strlit("{\"Frac\":");
                match l {
                    VolumeLevel::Frac(f) => {
                        assert(spec_json_micro(f as int) == spec_json_micro(spec_level_micro(l)));
                    },
                    VolumeLevel::Log(_) => {
                        lemma_lit_char(s@, pos as int, "{\"Frac\":"@, 2);
                        lemma_lit_char(s@, pos as int, spec_level_head(l), 2);
                        assert(false);
                    },
                    VolumeLevel::Lin(_) => {
                        lemma_lit_char(s@, pos as int, "{\"Frac\":"@, 2);
                        lemma_lit_char(s@, pos as int, spec_level_head(l), 2);
                        assert(false);
                    },
                }
            }
        }
        let (v, p2) = match rm {
            Some(x) => x,
            None => {
                return None;
            },
        };
        let rb = expect_lit(s, p2, "}");
        let result = match rb {
            Some(p3) => Some((VolumeLevel::Frac(v), p3)),
            None => None,
        };
        proof {
            assert forall|l: VolumeLevel|
                #![trigger spec_json_level(l)]
                spec_level_decodable(l) && spec_lit_at(s@, pos as int, spec_json_level(l))
                    implies result == Some::<(VolumeLevel, usize)>(
                (l, (pos + spec_json_level(l).len()) as usize),
            ) by {
                reveal_strlit("}");
                match l {
                    VolumeLevel::Frac(inner) => {
                        assert(spec_level_micro(l) == inner as int);
                        assert(v == inner);
                        assert(p1 + spec_json_micro(spec_level_micro(l)).len() + 1 <= s@.len());
                        assert(s@.len() <= usize::MAX);
                        assert(p2 == p1 + spec_json_micro(spec_level_micro(l)).len());
                        assert(spec_lit_at(s@, p2 as int, "}"@));
                        assert(rb == Some((p2 + 1) as usize));
                        assert(pos + spec_json_level(l).len() == p2 + 1);
                    },
                    _ => {
                        assert(false);
                    },
                }
            }
        }
        return result;
    }
    proof {
        assert forall|l: VolumeLevel|
            #![trigger spec_json_level(l)]
            spec_level_decodable(l) && spec_lit_at(s@, pos as int, spec_json_level(l))
                implies false by {
            lemma_level_structure(s@, pos as int, l);
        }
    }
    None
}

/// An event the decoder's completeness claim covers: its numeric fields
/// lie within the parser's domain.  The claim is made for volume events
/// and mouse-move events; for the other shapes the decoder is checked by
/// its soundness clause and by tests.
pub open spec fn spec_event_decodable(e: InputEvent) -> bool {
    match e {
        InputEvent::Volume(l) => spec_level_decodable(l),
        InputEvent::Mouse(me) => spec_mouse_decodable(me),
        InputEvent::Keyboard(_) => false,
    }
}

/// How a volume event's canonical text is laid out.
proof fn lemma_event_structure_volume(s: Seq<char>, l: VolumeLevel)
    requires
        s == spec_json_event(InputEvent::Volume(l)),
    ensures
        spec_lit_at(s, 0, "{\"Volume\":"@),
        spec_lit_at(s, "{\"Volume\":"@.len() as int, spec_json_level(l)),
        spec_lit_at(s, ("{\"Volume\":"@.len() + spec_json_level(l).len()) as int, "}"@),
        s.len() == "{\"Volume\":"@.len() + spec_json_level(l).len() + 1,
{
    reveal_strlit("}");
    assert(s.subrange(0, s.len() as int) =~= s);
    assert(spec_lit_at(s, 0, ("{\"Volume\":"@ + spec_json_level(l)) + "}"@));
    lemma_lit_at_concat(s, 0, "{\"Volume\":"@ + spec_json_level(l), "}"@);
    lemma_lit_at_concat(s, 0, "{\"Volume\":"@, spec_json_level(l));
}

/// How a mouse event's canonical text is laid out.
proof fn lemma_event_structure_mouse(s: Seq<char>, me: MouseEvent)
    requires
        s == spec_json_event(InputEvent::Mouse(me)),
    ensures
        spec_lit_at(s, 0, "{\"Mouse\":"@),
        spec_lit_at(s, "{\"Mouse\":"@.len() as int, spec_json_mouse(me)),
        spec_lit_at(s, ("{\"Mouse\":"@.len() + spec_json_mouse(me).len()) as int, "}"@),
        s.len() == "{\"Mouse\":"@.len() + spec_json_mouse(me).len() + 1,
{
    reveal_strlit("}");
    assert(s.subrange(0, s.len() as int) =~= s);
    assert(spec_lit_at(s, 0, ("{\"Mouse\":"@ + spec_json_mouse(me)) + "}"@));
    lemma_lit_at_concat(s, 0, "{\"Mouse\":"@ + spec_json_mouse(me), "}"@);
    lemma_lit_at_concat(s, 0, "{\"Mouse\":"@, spec_json_mouse(me));
}

/// A decodable event's text starts with its own head literal and with no
/// other kind's head.
proof fn lemma_event_heads(s: Seq<char>, e: InputEvent)
    requires
        spec_event_decodable(e),
        s == spec_json_event(e),
    ensures
        e is Volume ==> spec_lit_at(s, 0, "{\"Volume\":"@) && !spec_lit_at(s, 0, "{\"Mouse\":"@)
            && !spec_lit_at(s, 0, "{\"Keyboard\":{\"action\":"@),
        e is Mouse ==> spec_lit_at(s, 0, "{\"Mouse\":"@) && !spec_lit_at(s, 0, "{\"Volume\":"@)
            && !spec_lit_at(s, 0, "{\"Keyboard\":{\"action\":"@),
{
    reveal_strlit("{\"Volume\":");
    reveal_strlit("{\"Mouse\":");
    reveal_strlit("{\"Keyboard\":{\"action\":");
    match e {
        InputEvent::Volume(l) => {
            lemma_event_structure_volume(s, l);
            lemma_lit_char(s, 0, "{\"Volume\":"@, 2);
            if spec_lit_at(s, 0, "{\"Mouse\":"@) {
                lemma_lit_char(s, 0, "{\"Mouse\":"@, 2);
            }
            if spec_lit_at(s, 0, "{\"Keyboard\":{\"action\":"@) {
                lemma_lit_char(s, 0, "{\"Keyboard\":{\"action\":"@, 2);
            }
        },
        InputEvent::Mouse(me) => {
            lemma_event_structure_mouse(s, me);
            lemma_lit_char(s, 0, "{\"Mouse\":"@, 2);
            if spec_lit_at(s, 0, "{\"Volume\":"@) {
                lemma_lit_char(s, 0, "{\"Volume\":"@, 2);
            }
            if spec_lit_at(s, 0, "{\"Keyboard\":{\"action\":"@) {
                lemma_lit_char(s, 0, "{\"Keyboard\":{\"action\":"@, 2);
            }
        },
        InputEvent::Keyboard(_) => {},
    }
}

/// Parse one input event.  On the canonical text of any decodable event it
/// returns exactly that event, having consumed the whole text.
fn parse_event(s: &str) -> (r: Option<(InputEvent, usize)>)
    ensures
        forall|e: InputEvent|
            #![trigger spec_json_event(e)]
            spec_event_decodable(e) && s@ == spec_json_event(e) ==> r == Some(
                (e, s@.len() as usize),
            ),
{
    let _n = s.unicode_len();
    if let Some(p1) = expect_lit(s, 0, "{\"Mouse\":") {
        let rm = parse_mouse(s, p1);
        proof {
            assert forall|e: InputEvent|
                #![trigger spec_json_event(e)]
                spec_event_decodable(e) && s@ == spec_json_event(e) implies e is Mouse && rm
                    == Some(
                (e->Mouse_0, (p1 + spec_json_mouse(e->Mouse_0).len()) as usize),
            ) && spec_lit_at(s@, (p1 + spec_json_mouse(e->Mouse_0).len()) as int, "}"@) && s@.len()
                == p1 + spec_json_mouse(e->Mouse_0).len() + 1 by {
                lemma_event_heads(s@, e);
                match e {
                    InputEvent::Mouse(me) => {
                        lemma_event_structure_mouse(s@, me);
                        reveal_strlit("{\"Mouse\":");
                        assert(spec_json_mouse(me) == spec_json_mouse(e->Mouse_0));
                    },
                    _ => {},
                }
            }
        }
        let (me, p2) = match rm {
            Some(x) => x,
            None => {
                return None;
            },
        };
        let rb = expect_lit(s, p2, "}");
        let result = match rb {
            Some(p3) => Some((InputEvent::Mouse(me), p3)),
            None => None,
        };
        proof {
            assert forall|e: InputEvent|
                #![trigger spec_json_event(e)]
                spec_event_decodable(e) && s@ == spec_json_event(e) implies result
                    == Some::<(InputEvent, usize)>((e, s@.len() as usize)) by {
                reveal_strlit("}");
                match e {
                    InputEvent::Mouse(mev) => {
                        assert(me == mev);
                        assert(p2 == p1 + spec_json_mouse(mev).len());
                        assert(spec_lit_at(s@, p2 as int, "}"@));
                        assert(rb == Some((p2 + 1) as usize));
                    },
                    _ => {
                        assert(false);
                    },
                }
            }
        }
        return result;
    }
    if let Some(p1) = expect_lit(s, 0, "{\"Keyboard\":{\"action\":") {
        proof {
            assert forall|e: InputEvent|
                #![trigger spec_json_event(e)]
                spec_event_decodable(e) && s@ == spec_json_event(e) implies false by {
                lemma_event_heads(s@, e);
            }
        }
        let (action, p2) = match parse_kb_action(s, p1) {
            Some(x) => x,
            None => {
                return None;
            },
        };
        let p3 = match expect_lit(s, p2, ",\"key\":") {
            Some(p) => p,
            None => {
                return None;
            },
        };
        let (key, p4) = match parse_key(s, p3) {
            Some(x) => x,
            None => {
                return None;
            },
        };
        return match expect_lit(s, p4, "}}") {
            Some(p5) => Some((InputEvent::Keyboard(KeyboardEvent { action, key }), p5)),
            None => None,
        };
    }
    if let Some(p1) = expect_lit(s, 0, "{\"Volume\":") {
        let rl = parse_level(s, p1);
        proof {
            assert forall|e: InputEvent|
                #![trigger spec_json_event(e)]
                spec_event_decodable(e) && s@ == spec_json_event(e) implies e is Volume && rl
                    == Some(
                (e->Volume_0, (p1 + spec_json_level(e->Volume_0).len()) as usize),
            ) && spec_lit_at(s@, (p1 + spec_json_level(e->Volume_0).len()) as int, "}"@)
                && s@.len() == p1 + spec_json_level(e->Volume_0).len() + 1 by {
                lemma_event_heads(s@, e);
                match e {
                    InputEvent::Volume(l) => {
                        lemma_event_structure_volume(s@, l);
                        reveal_strlit("{\"Volume\":");
                        assert(spec_json_level(l) == spec_json_level(e->Volume_0));
                    },
                    _ => {},
                }
            }
        }
        let (level, p2) = match rl {
            Some(x) => x,
            None => {
                return None;
            },
        };
        let rb = expect_lit(s, p2, "}");
        let result = match rb {
            Some(p3) => Some((InputEvent::Volume(level), p3)),
            None => None,
        };
        proof {
            assert forall|e: InputEvent|
                #![trigger spec_json_event(e)]
                spec_event_decodable(e) && s@ == spec_json_event(e) implies result
                    == Some::<(InputEvent, usize)>((e, s@.len() as usize)) by {
                reveal_strlit("}");
                match e {
                    InputEvent::Volume(l) => {
                        assert(level == l);
                        assert(p2 == p1 + spec_json_level(l).len());
                        assert(spec_lit_at(s@, p2 as int, "}"@));
                        assert(rb == Some((p2 + 1) as usize));
                    },
                    _ => {
                        assert(false);
                    },
                }
            }
        }
        return result;
    }
    proof {
        assert forall|e: InputEvent|
            #![trigger spec_json_event(e)]
            spec_event_decodable(e) && s@ == spec_json_event(e) implies false by {
            lemma_event_heads(s@, e);
        }
    }
    None
}

/// What `DeciBel::display_string` returns: the decimal value and the unit.
pub open spec fn spec_display_db(db: crate::volume::DeciBel) -> Seq<char> {
    spec_json_micro(db.0 as int) + "db"@
}

/// What `LinVolt::display_string` returns: the decimal value and the unit.
pub open spec fn spec_display_lin(v: crate::volume::LinVolt) -> Seq<char> {
    spec_json_micro(v.0 as int) + "V"@
}

/// What `VolumeLevel::display_string` returns: the inner value with its
/// unit suffix; a bare fraction has none.
pub open spec fn spec_display_level(l: VolumeLevel) -> Seq<char> {
    match l {
        VolumeLevel::Log(db) => spec_display_db(db),
        VolumeLevel::Lin(v) => spec_display_lin(v),
        VolumeLevel::Frac(f) => spec_json_micro(f as int),
    }
}

impl crate::volume::DeciBel {
    /// The value as text, such as `-20.5db`.
    pub fn display_string(&self) -> (s: String)
        ensures
            s@ == spec_display_db(*self),
    {
        let mut out = String::new();
        append_micro(&mut out, self.0);
        out.append("db");
        proof {
            assert(out@ =~= spec_display_db(*self));
        }
        out
    }
}

impl crate::volume::LinVolt {
    /// The value as text, such as `0.5V`.
    pub fn display_string(&self) -> (s: String)
        ensures
            s@ == spec_display_lin(*self),
    {
        let mut out = String::new();
        append_micro(&mut out, self.0);
        out.append("V");
        proof {
            assert(out@ =~= spec_display_lin(*self));
        }
        out
    }
}

impl VolumeLevel {
    /// The level as text: its value with the unit it was given in.
    pub fn display_string(&self) -> (s: String)
        ensures
            s@ == spec_display_level(*self),
    {
        match self {
            VolumeLevel::Log(db) => db.display_string(),
            VolumeLevel::Lin(v) => v.display_string(),
            VolumeLevel::Frac(f) => {
                let mut out = String::new();
                append_micro(&mut out, *f);
                out
            },
        }
    }
}

} // verus!
