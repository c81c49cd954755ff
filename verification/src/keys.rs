//! Keys, and the bytes that a shell expects for them.

use vstd::prelude::*;
use vstd::slice::slice_to_vec;
use vstd::utf8::encode_utf8;

use crate::text::to_chars;

verus! {

/// The keys that have a name rather than a character.
#[derive(PartialEq, Eq, Structural, Clone, Copy, Debug)]
pub enum NamedKey {
    Enter,
    Backspace,
    Tab,
    Escape,
    ArrowLeft,
    ArrowRight,
    ArrowUp,
    ArrowDown,
    Home,
    End,
    Delete,
    Space,
    /// Any other named key.
    Unbound,
}

/// A pressed key.
pub enum Key {
    Named(NamedKey),
    /// A key that stands for the given text.
    Character(String),
    /// A key that the window system could not identify.
    Unknown,
}

/// The modifier keys that are held down.
#[derive(PartialEq, Eq, Structural, Clone, Copy, Debug)]
pub struct Modifiers {
    pub ctrl: bool,
    pub alt: bool,
    pub cmd: bool,
    pub shift: bool,
}

/// The position in the alphabet of an ASCII letter of either case, from 1.
pub open spec fn letter_rank(c: char) -> Option<int> {
    if 'a' <= c <= 'z' {
        Some(c as int - 'a' as int + 1)
    } else if 'A' <= c <= 'Z' {
        Some(c as int - 'A' as int + 1)
    } else {
        None
    }
}

/// The bytes for a named key: the control code or the escape sequence that
/// terminals send. With Option held, Backspace deletes a word and the
/// horizontal arrows move by words.
pub open spec fn named_key_bytes(key: NamedKey, alt: bool) -> Seq<u8> {
    match key {
        NamedKey::Enter => seq![0x0du8],
        NamedKey::Backspace => if alt {
            seq![0x17u8]
        } else {
            seq![0x7fu8]
        },
        NamedKey::Tab => seq![0x09u8],
        NamedKey::Escape => seq![0x1bu8],
        NamedKey::ArrowLeft => if alt {
            seq![0x1bu8, 0x62u8]
        } else {
            seq![0x1bu8, 0x5bu8, 0x44u8]
        },
        NamedKey::ArrowRight => if alt {
            seq![0x1bu8, 0x66u8]
        } else {
            seq![0x1bu8, 0x5bu8, 0x43u8]
        },
        NamedKey::ArrowUp => seq![0x1bu8, 0x5bu8, 0x41u8],
        NamedKey::ArrowDown => seq![0x1bu8, 0x5bu8, 0x42u8],
        NamedKey::Home => seq![0x1bu8, 0x5bu8, 0x48u8],
        NamedKey::End => seq![0x1bu8, 0x5bu8, 0x46u8],
        NamedKey::Delete => seq![0x1bu8, 0x5bu8, 0x33u8, 0x7eu8],
        NamedKey::Space => seq![0x20u8],
        NamedKey::Unbound => seq![],
    }
}

/// The text that a key press produced.
pub open spec fn typed(text: Option<&str>) -> Option<Seq<char>> {
    match text {
        Some(t) => Some(t@),
        None => None,
    }
}

/// The bytes that a shell expects for a key: those of [`named_key_bytes`]; the
/// control code of a letter with Ctrl; else the text that was typed, and for a
/// character key without one its own text.
pub open spec fn key_bytes(key: Key, text: Option<Seq<char>>, ctrl: bool, alt: bool) -> Seq<u8> {
    match key {
        Key::Named(named) => named_key_bytes(named, alt),
        Key::Character(s) => if ctrl && s@.len() > 0 && letter_rank(s@[0]) is Some {
            seq![letter_rank(s@[0])->0 as u8]
        } else {
            match text {
                Some(t) => encode_utf8(t),
                None => encode_utf8(s@),
            }
        },
        Key::Unknown => match text {
            Some(t) => encode_utf8(t),
            None => seq![],
        },
    }
}

fn utf8_bytes(s: &str) -> (r: Vec<u8>)
    ensures
        r@ == encode_utf8(s@),
{
    slice_to_vec(s.as_bytes())
}

fn named_bytes(key: NamedKey, alt: bool) -> (r: Vec<u8>)
    ensures
        r@ == named_key_bytes(key, alt),
{
    let r: Vec<u8> = match key {
        NamedKey::Enter => vec![0x0du8],
        NamedKey::Backspace => if alt {
            vec![0x17u8]
        } else {
            vec![0x7fu8]
        },
        NamedKey::Tab => vec![0x09u8],
        NamedKey::Escape => vec![0x1bu8],
        NamedKey::ArrowLeft => if alt {
            vec![0x1bu8, 0x62u8]
        } else {
            vec![0x1bu8, 0x5bu8, 0x44u8]
        },
        NamedKey::ArrowRight => if alt {
            vec![0x1bu8, 0x66u8]
        } else {
            vec![0x1bu8, 0x5bu8, 0x43u8]
        },
        NamedKey::ArrowUp => vec![0x1bu8, 0x5bu8, 0x41u8],
        NamedKey::ArrowDown => vec![0x1bu8, 0x5bu8, 0x42u8],
        NamedKey::Home => vec![0x1bu8, 0x5bu8, 0x48u8],
        NamedKey::End => vec![0x1bu8, 0x5bu8, 0x46u8],
        NamedKey::Delete => vec![0x1bu8, 0x5bu8, 0x33u8, 0x7eu8],
        NamedKey::Space => vec![0x20u8],
        NamedKey::Unbound => Vec::new(),
    };
    assert(r@ =~= named_key_bytes(key, alt));
    r
}

/// The control code of a letter.
fn control_code(c: char) -> (r: Option<u8>)
    ensures
        match letter_rank(c) {
            Some(n) => r == Some(n as u8) && 1 <= n <= 26,
            None => r is None,
        },
{
    if 'a' <= c && c <= 'z' {
        Some((c as u32 - 96) as u8)
    } else if 'A' <= c && c <= 'Z' {
        Some((c as u32 - 64) as u8)
    } else {
        None
    }
}

/// Translates a key into the bytes a shell expects.
pub fn key_to_bytes(key: &Key, text: Option<&str>, ctrl: bool, alt: bool) -> (r: Vec<u8>)
    ensures
        r@ == key_bytes(*key, typed(text), ctrl, alt),
{
    match key {
        Key::Named(named) => named_bytes(*named, alt),
        Key::Character(s) => {
            if ctrl {
                let chars: Vec<char> = to_chars(s.as_str());
                if chars.len() > 0 {
                    if let Some(code) = control_code(chars[0]) {
                        let r: Vec<u8> = vec![code];
                        assert(r@ =~= key_bytes(*key, typed(text), ctrl, alt));
                        return r;
                    }
                }
            }
            match text {
                Some(t) => utf8_bytes(t),
                None => utf8_bytes(s.as_str()),
            }
        },
        Key::Unknown => match text {
            Some(t) => utf8_bytes(t),
            None => Vec::new(),
        },
    }
}

/// What is typed reaches the shell as it is, whatever the key and whatever its
/// length: a key without a name sends the text that it produced, or else its own,
/// but for a letter with Ctrl.
pub proof fn law_typed_text_is_sent(s: String, t: Seq<char>, alt: bool)
    ensures
        key_bytes(Key::Character(s), Some(t), false, alt) == encode_utf8(t),
        key_bytes(Key::Character(s), None, false, alt) == encode_utf8(s@),
        key_bytes(Key::Unknown, Some(t), false, alt) == encode_utf8(t),
        key_bytes(Key::Unknown, Some(t), true, alt) == encode_utf8(t),
        key_bytes(Key::Unknown, None, false, alt).len() == 0,
        s@.len() == 0 || letter_rank(s@[0]) is None ==> key_bytes(
            Key::Character(s),
            Some(t),
            true,
            alt,
        ) == encode_utf8(t),
{
}

/// A letter with Ctrl sends its control code, from 1 for A to 26 for Z, in upper
/// and in lower case, whatever text it produced.
pub proof fn law_control_codes(s: String, text: Option<Seq<char>>, k: int, alt: bool)
    requires
        s@.len() == 1,
        0 <= k < 26,
        s@[0] as int == 'a' as int + k || s@[0] as int == 'A' as int + k,
    ensures
        key_bytes(Key::Character(s), text, true, alt) == seq![(k + 1) as u8],
{
}

/// The arrows and the ends of a line send what terminals send: an escape, a
/// bracket and the letter of the key. The keys that edit send their control
/// codes.
pub proof fn law_named_keys(text: Option<Seq<char>>, ctrl: bool, alt: bool)
    ensures
        ({
            let sent = |k: NamedKey, alt: bool| key_bytes(Key::Named(k), text, ctrl, alt);
            let csi = |letter: char| seq![0x1bu8, '[' as u8, letter as u8];
            &&& sent(NamedKey::ArrowUp, alt) == csi('A')
            &&& sent(NamedKey::ArrowDown, alt) == csi('B')
            &&& sent(NamedKey::ArrowRight, false) == csi('C')
            &&& sent(NamedKey::ArrowLeft, false) == csi('D')
            &&& sent(NamedKey::Home, alt) == csi('H')
            &&& sent(NamedKey::End, alt) == csi('F')
            &&& sent(NamedKey::Delete, alt) == csi('3').push('~' as u8)
            &&& sent(NamedKey::Enter, alt) == seq!['\r' as u8]
            &&& sent(NamedKey::Tab, alt) == seq!['\t' as u8]
            &&& sent(NamedKey::Space, alt) == seq![' ' as u8]
            &&& sent(NamedKey::Escape, alt) == seq![0x1bu8]
            &&& sent(NamedKey::Backspace, false) == seq![0x7fu8]
            &&& sent(NamedKey::Backspace, true) == seq![0x17u8]
            &&& sent(NamedKey::ArrowLeft, true) == seq![0x1bu8, 'b' as u8]
            &&& sent(NamedKey::ArrowRight, true) == seq![0x1bu8, 'f' as u8]
            &&& sent(NamedKey::Unbound, alt).len() == 0
        }),
{
    assert(seq![0x1bu8, '[' as u8, '3' as u8].push('~' as u8) =~= seq![
        0x1bu8,
        0x5bu8,
        0x33u8,
        0x7eu8,
    ]);
}

/// Only letters have control codes: with any other first character the key sends
/// what it types, though it is pressed with the control key.
pub proof fn law_only_letters_have_control_codes(s: String, t: Seq<char>, alt: bool)
    requires
        s@.len() > 0,
        !('a' <= s@[0] <= 'z'),
        !('A' <= s@[0] <= 'Z'),
    ensures
        key_bytes(Key::Character(s), Some(t), true, alt) == encode_utf8(t),
        key_bytes(Key::Character(s), None, true, alt) == encode_utf8(s@),
{
}

} // verus!
