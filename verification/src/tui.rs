//! Terminal key encoding for TUI clients.

use vstd::prelude::*;
use vstd::utf8::encode_utf8;

verus! {

/// A terminal key press, as the broker models it.
#[derive(Debug, Clone, Copy, PartialEq, Eq, Structural)]
pub enum Key {
    Char(char),
    Enter,
    Backspace,
    Tab,
    Esc,
    Up,
    Down,
    Right,
    Left,
    Home,
    End,
    PageUp,
    PageDown,
    Delete,
    Insert,
    F(u8),
}

/// Channel failure while bridging a TUI.
#[derive(Debug)]
pub enum SendError {
    /// The peer side of the channel is gone.
    ChannelClosed,
}

/// The input bytes one key press stands for: plain characters as UTF-8,
/// control-modified lowercase letters as control bytes, and the usual
/// escape sequences for navigation and function keys.
pub open spec fn key_bytes(key: Key, ctrl: bool) -> Option<Seq<u8>> {
    match key {
        Key::Char(c) => if ctrl && 0x61 <= c as u32 && c as u32 <= 0x7a {
            Some(seq![(c as u8 - 0x60) as u8])
        } else {
            Some(encode_utf8(seq![c]))
        },
        Key::Enter => Some(seq![0x0du8]),
        Key::Backspace => Some(seq![0x7fu8]),
        Key::Tab => Some(seq![0x09u8]),
        Key::Esc => Some(seq![0x1bu8]),
        Key::Up => Some(seq![0x1bu8, 0x5bu8, 0x41u8]),
        Key::Down => Some(seq![0x1bu8, 0x5bu8, 0x42u8]),
        Key::Right => Some(seq![0x1bu8, 0x5bu8, 0x43u8]),
        Key::Left => Some(seq![0x1bu8, 0x5bu8, 0x44u8]),
        Key::Home => Some(seq![0x1bu8, 0x5bu8, 0x48u8]),
        Key::End => Some(seq![0x1bu8, 0x5bu8, 0x46u8]),
        Key::PageUp => Some(seq![0x1bu8, 0x5bu8, 0x35u8, 0x7eu8]),
        Key::PageDown => Some(seq![0x1bu8, 0x5bu8, 0x36u8, 0x7eu8]),
        Key::Delete => Some(seq![0x1bu8, 0x5bu8, 0x33u8, 0x7eu8]),
        Key::Insert => Some(seq![0x1bu8, 0x5bu8, 0x32u8, 0x7eu8]),
        Key::F(n) => match n {
            1 => Some(seq![0x1bu8, 0x4fu8, 0x50u8]),
            2 => Some(seq![0x1bu8, 0x4fu8, 0x51u8]),
            3 => Some(seq![0x1bu8, 0x4fu8, 0x52u8]),
            4 => Some(seq![0x1bu8, 0x4fu8, 0x53u8]),
            5 => Some(seq![0x1bu8, 0x5bu8, 0x31u8, 0x35u8, 0x7eu8]),
            6 => Some(seq![0x1bu8, 0x5bu8, 0x31u8, 0x37u8, 0x7eu8]),
            7 => Some(seq![0x1bu8, 0x5bu8, 0x31u8, 0x38u8, 0x7eu8]),
            8 => Some(seq![0x1bu8, 0x5bu8, 0x31u8, 0x39u8, 0x7eu8]),
            9 => Some(seq![0x1bu8, 0x5bu8, 0x32u8, 0x30u8, 0x7eu8]),
            10 => Some(seq![0x1bu8, 0x5bu8, 0x32u8, 0x31u8, 0x7eu8]),
            11 => Some(seq![0x1bu8, 0x5bu8, 0x32u8, 0x33u8, 0x7eu8]),
            12 => Some(seq![0x1bu8, 0x5bu8, 0x32u8, 0x34u8, 0x7eu8]),
            _ => None,
        },
    }
}

/// Relies on char::encode_utf8: the UTF-8 bytes of one character.
#[verifier::external_body]
fn char_utf8(c: char) -> (r: Vec<u8>)
    ensures
        r@ == encode_utf8(seq![c]),
{
    let mut buf = [0u8; 4];
    c.encode_utf8(&mut buf).as_bytes().to_vec()
}

/// Encode a key press (with its control-modifier state) as terminal input
/// bytes; an unmapped key yields nothing.
pub fn key_to_bytes(key: &Key, ctrl: bool) -> (r: Option<Vec<u8>>)
    ensures
        r is Some <==> key_bytes(*key, ctrl) is Some,
        r matches Some(v) ==> key_bytes(*key, ctrl) == Some(v@),
{
    match key {
        Key::Char(c) => {
            let u = *c as u32;
            if ctrl && 0x61 <= u && u <= 0x7a {
                let b: u8 = (*c as u8) - 0x60;
                proof {
                    assert(seq![b] =~= seq![(*c as u8 - 0x60) as u8]);
                }
                Some(vec![b])
            } else {
                Some(char_utf8(*c))
            }
        },
        Key::Enter => Some(vec![0x0du8]),
        Key::Backspace => Some(vec![0x7fu8]),
        Key::Tab => Some(vec![0x09u8]),
        Key::Esc => Some(vec![0x1bu8]),
        Key::Up => Some(vec![0x1bu8, 0x5bu8, 0x41u8]),
        Key::Down => Some(vec![0x1bu8, 0x5bu8, 0x42u8]),
        Key::Right => Some(vec![0x1bu8, 0x5bu8, 0x43u8]),
        Key::Left => Some(vec![0x1bu8, 0x5bu8, 0x44u8]),
        Key::Home => Some(vec![0x1bu8, 0x5bu8, 0x48u8]),
        Key::End => Some(vec![0x1bu8, 0x5bu8, 0x46u8]),
        Key::PageUp => Some(vec![0x1bu8, 0x5bu8, 0x35u8, 0x7eu8]),
        Key::PageDown => Some(vec![0x1bu8, 0x5bu8, 0x36u8, 0x7eu8]),
        Key::Delete => Some(vec![0x1bu8, 0x5bu8, 0x33u8, 0x7eu8]),
        Key::Insert => Some(vec![0x1bu8, 0x5bu8, 0x32u8, 0x7eu8]),
        Key::F(n) => {
            let seq_bytes: Option<Vec<u8>> = match *n {
                1 => Some(vec![0x1bu8, 0x4fu8, 0x50u8]),
                2 => Some(vec![0x1bu8, 0x4fu8, 0x51u8]),
                3 => Some(vec![0x1bu8, 0x4fu8, 0x52u8]),
                4 => Some(vec![0x1bu8, 0x4fu8, 0x53u8]),
                5 => Some(vec![0x1bu8, 0x5bu8, 0x31u8, 0x35u8, 0x7eu8]),
                6 => Some(vec![0x1bu8, 0x5bu8, 0x31u8, 0x37u8, 0x7eu8]),
                7 => Some(vec![0x1bu8, 0x5bu8, 0x31u8, 0x38u8, 0x7eu8]),
                8 => Some(vec![0x1bu8, 0x5bu8, 0x31u8, 0x39u8, 0x7eu8]),
                9 => Some(vec![0x1bu8, 0x5bu8, 0x32u8, 0x30u8, 0x7eu8]),
                10 => Some(vec![0x1bu8, 0x5bu8, 0x32u8, 0x31u8, 0x7eu8]),
                11 => Some(vec![0x1bu8, 0x5bu8, 0x32u8, 0x33u8, 0x7eu8]),
                12 => Some(vec![0x1bu8, 0x5bu8, 0x32u8, 0x34u8, 0x7eu8]),
                _ => None,
            };
            seq_bytes
        },
    }
}

} // verus!
