//! Keys, and the bytes that a terminal sends for them.

use vstd::prelude::*;

use crate::text;

verus! {

/// A key.
#[derive(Debug, Clone, Copy, PartialEq, Eq, Structural)]
pub enum Key {
    Char(char),
    Enter,
    Backspace,
    Tab,
    BackTab,
    Esc,
    Left,
    Right,
    Up,
    Down,
    Home,
    End,
    PageUp,
    PageDown,
    Delete,
    Insert,
    Function(u8),
    /// Any other key.
    Other,
}

/// A key with the modifiers that are held.
#[derive(Debug, Clone, Copy, PartialEq, Eq, Structural)]
pub struct KeyPress {
    pub key: Key,
    pub ctrl: bool,
    pub alt: bool,
}

/// The byte that escape sequences begin with.
pub const ESCAPE: u8 = 0x1b;

/// The control code of a character: 1 to 26 for the letters, of either case, and
/// those of a few signs.
pub open spec fn control_code(c: char) -> Option<u8> {
    let lc = text::lower_char(c);
    if 'a' <= lc <= 'z' {
        Some((lc as u8 - 'a' as u8 + 1) as u8)
    } else if lc == ' ' || lc == '@' {
        Some(0)
    } else if lc == '[' {
        Some(27)
    } else if lc == '\\' {
        Some(28)
    } else if lc == ']' {
        Some(29)
    } else if lc == '^' {
        Some(30)
    } else if lc == '_' {
        Some(31)
    } else {
        None
    }
}

/// The control code of a character.
pub fn ctrl_byte(c: char) -> (r: Option<u8>)
    ensures
        r == control_code(c),
{
    let lc: char = text::to_lower_char(c);
    if 'a' <= lc && lc <= 'z' {
        let u: u8 = lc as u8;
        Some(u - 97 + 1)
    } else if lc == ' ' || lc == '@' {
        Some(0)
    } else if lc == '[' {
        Some(27)
    } else if lc == '\\' {
        Some(28)
    } else if lc == ']' {
        Some(29)
    } else if lc == '^' {
        Some(30)
    } else if lc == '_' {
        Some(31)
    } else {
        None
    }
}

/// What a terminal sends for the function key `n`.
pub open spec fn function_bytes(n: u8) -> Option<Seq<u8>> {
    if n == 1 {
        Some(seq![0x1b, 'O' as u8, 'P' as u8])
    } else if n == 2 {
        Some(seq![0x1b, 'O' as u8, 'Q' as u8])
    } else if n == 3 {
        Some(seq![0x1b, 'O' as u8, 'R' as u8])
    } else if n == 4 {
        Some(seq![0x1b, 'O' as u8, 'S' as u8])
    } else if n == 5 {
        Some(seq![0x1b, '[' as u8, '1' as u8, '5' as u8, '~' as u8])
    } else if n == 6 {
        Some(seq![0x1b, '[' as u8, '1' as u8, '7' as u8, '~' as u8])
    } else if n == 7 {
        Some(seq![0x1b, '[' as u8, '1' as u8, '8' as u8, '~' as u8])
    } else if n == 8 {
        Some(seq![0x1b, '[' as u8, '1' as u8, '9' as u8, '~' as u8])
    } else if n == 9 {
        Some(seq![0x1b, '[' as u8, '2' as u8, '0' as u8, '~' as u8])
    } else if n == 10 {
        Some(seq![0x1b, '[' as u8, '2' as u8, '1' as u8, '~' as u8])
    } else if n == 11 {
        Some(seq![0x1b, '[' as u8, '2' as u8, '3' as u8, '~' as u8])
    } else if n == 12 {
        Some(seq![0x1b, '[' as u8, '2' as u8, '4' as u8, '~' as u8])
    } else {
        None
    }
}

/// The bytes of an optional list.
pub open spec fn opt_bytes(o: Option<Vec<u8>>) -> Option<Seq<u8>> {
    match o {
        Some(v) => Some(v@),
        None => None,
    }
}

fn one(b: u8) -> (r: Vec<u8>)
    ensures
        r@ == seq![b],
{
    let mut v: Vec<u8> = Vec::new();
    v.push(b);
    proof {
        assert(v@ =~= seq![b]);
    }
    v
}

fn three(b: char, c: char) -> (r: Vec<u8>)
    requires
        b as u32 <= 255,
        c as u32 <= 255,
    ensures
        r@ == seq![0x1b, b as u8, c as u8],
{
    let mut v: Vec<u8> = Vec::new();
    v.push(0x1b);
    v.push(b as u8);
    v.push(c as u8);
    proof {
        assert(v@ =~= seq![0x1b, b as u8, c as u8]);
    }
    v
}

fn with_tilde(digits: &[char]) -> (r: Vec<u8>)
    requires
        forall|i: int| 0 <= i < digits@.len() ==> '0' <= #[trigger] digits@[i] <= '9',
    ensures
        r@ == seq![0x1b, '[' as u8] + Seq::new(digits@.len(), |i: int| digits@[i] as u8)
            + seq!['~' as u8],
{
    let ghost want = Seq::new(digits@.len(), |i: int| digits@[i] as u8);
    let mut v: Vec<u8> = Vec::new();
    v.push(0x1b);
    v.push('[' as u8);
    let ghost head = v@;
    proof {
        assert(head =~= seq![0x1b, '[' as u8]);
        assert(head + want.take(0) =~= head);
    }
    let mut i: usize = 0;
    while i < digits.len()
        invariant
            i <= digits@.len(),
            forall|i: int| 0 <= i < digits@.len() ==> '0' <= #[trigger] digits@[i] <= '9',
            want == Seq::new(digits@.len(), |i: int| digits@[i] as u8),
            v@ == head + want.take(i as int),
        decreases digits@.len() - i,
    {
        v.push(digits[i] as u8);
        proof {
            assert(head + want.take(i + 1) =~= (head + want.take(i as int)).push(want[i as int]));
        }
        i += 1;
    }
    v.push('~' as u8);
    proof {
        assert(v@ =~= head + want + seq!['~' as u8]);
    }
    v
}

/// What a terminal sends for the function key `n`.
pub fn function_key(n: u8) -> (r: Option<Vec<u8>>)
    ensures
        opt_bytes(r) == function_bytes(n),
{
    let v: Vec<u8> = match n {
        1 => three('O', 'P'),
        2 => three('O', 'Q'),
        3 => three('O', 'R'),
        4 => three('O', 'S'),
        5 => with_tilde(&['1', '5']),
        6 => with_tilde(&['1', '7']),
        7 => with_tilde(&['1', '8']),
        8 => with_tilde(&['1', '9']),
        9 => with_tilde(&['2', '0']),
        10 => with_tilde(&['2', '1']),
        11 => with_tilde(&['2', '3']),
        12 => with_tilde(&['2', '4']),
        _ => return None,
    };
    proof {
        assert(v@ =~= function_bytes(n)->0);
    }
    Some(v)
}

/// What a terminal sends for a key without Alt: a character's control code with
/// Ctrl, or else its UTF-8.
pub open spec fn plain_bytes(k: Key, ctrl: bool) -> Option<Seq<u8>> {
    match k {
        Key::Char(c) => if ctrl {
            match control_code(c) {
                Some(b) => Some(seq![b]),
                None => None,
            }
        } else {
            Some(vstd::utf8::encode_utf8(seq![c]))
        },
        Key::Enter => Some(seq!['\r' as u8]),
        Key::Backspace => Some(seq![0x7f]),
        Key::Tab => Some(seq!['\t' as u8]),
        Key::BackTab => Some(seq![0x1b, '[' as u8, 'Z' as u8]),
        Key::Esc => Some(seq![0x1b]),
        Key::Left => Some(seq![0x1b, '[' as u8, 'D' as u8]),
        Key::Right => Some(seq![0x1b, '[' as u8, 'C' as u8]),
        Key::Up => Some(seq![0x1b, '[' as u8, 'A' as u8]),
        Key::Down => Some(seq![0x1b, '[' as u8, 'B' as u8]),
        Key::Home => Some(seq![0x1b, '[' as u8, 'H' as u8]),
        Key::End => Some(seq![0x1b, '[' as u8, 'F' as u8]),
        Key::PageUp => Some(seq![0x1b, '[' as u8, '5' as u8, '~' as u8]),
        Key::PageDown => Some(seq![0x1b, '[' as u8, '6' as u8, '~' as u8]),
        Key::Delete => Some(seq![0x1b, '[' as u8, '3' as u8, '~' as u8]),
        Key::Insert => Some(seq![0x1b, '[' as u8, '2' as u8, '~' as u8]),
        Key::Function(n) => function_bytes(n),
        Key::Other => None,
    }
}

/// What a terminal sends for a key. With Alt, an escape comes first.
pub open spec fn bytes_for(k: KeyPress) -> Option<Seq<u8>> {
    match plain_bytes(k.key, k.ctrl) {
        Some(b) => Some(
            if k.alt {
                seq![ESCAPE] + b
            } else {
                b
            },
        ),
        None => None,
    }
}

fn send_char(c: char) -> (r: Vec<u8>)
    ensures
        r@ == vstd::utf8::encode_utf8(seq![c]),
{
    let mut s = String::new();
    s.push(c);
    proof {
        assert(s@ =~= seq![c]);
    }
    s.as_str().as_bytes_vec()
}

fn send_plain(k: Key, ctrl: bool) -> (r: Option<Vec<u8>>)
    ensures
        opt_bytes(r) == plain_bytes(k, ctrl),
{
    let v: Vec<u8> = match k {
        Key::Char(c) => if ctrl {
            match ctrl_byte(c) {
                Some(b) => one(b),
                None => return None,
            }
        } else {
            send_char(c)
        },
        Key::Enter => one('\r' as u8),
        Key::Backspace => one(0x7f),
        Key::Tab => one('\t' as u8),
        Key::BackTab => three('[', 'Z'),
        Key::Esc => one(0x1b),
        Key::Left => three('[', 'D'),
        Key::Right => three('[', 'C'),
        Key::Up => three('[', 'A'),
        Key::Down => three('[', 'B'),
        Key::Home => three('[', 'H'),
        Key::End => three('[', 'F'),
        Key::PageUp => with_tilde(&['5']),
        Key::PageDown => with_tilde(&['6']),
        Key::Delete => with_tilde(&['3']),
        Key::Insert => with_tilde(&['2']),
        Key::Function(n) => return function_key(n),
        Key::Other => return None,
    };
    proof {
        assert(v@ =~= plain_bytes(k, ctrl)->0);
    }
    Some(v)
}

/// What a terminal sends for a key, if it sends anything.
pub fn key_to_bytes(key: &KeyPress) -> (r: Option<Vec<u8>>)
    ensures
        opt_bytes(r) == bytes_for(*key),
{
    match send_plain(key.key, key.ctrl) {
        Some(out) => if key.alt {
            let mut prefixed: Vec<u8> = one(ESCAPE);
            let mut out = out;
            prefixed.append(&mut out);
            Some(prefixed)
        } else {
            Some(out)
        },
        None => None,
    }
}

} // verus!
