//! Keystrokes to bytes for the interactive shell: the escape sequences an
//! xterm-compatible terminal sends.
use vstd::prelude::*;

use crate::text::{chars_of, dec, push_dec, push_str};

verus! {

/// A key, as far as the shell encoding tells keys apart.
pub enum TermKey {
    Space,
    ArrowUp,
    ArrowDown,
    ArrowRight,
    ArrowLeft,
    Home,
    End,
    Delete,
    Enter,
    Backspace,
    Tab,
    Escape,
    PageUp,
    PageDown,
    /// Any other key, by its name (`A`..`Z` for the letters).
    Named(String),
}

#[derive(Clone, Copy, PartialEq, Eq, Structural)]
pub struct KeyMods {
    pub alt: bool,
    pub ctrl: bool,
    pub shift: bool,
}

/// Input the terminal view received.
pub enum TermEvent {
    Text(String),
    Key { key: TermKey, pressed: bool, mods: KeyMods },
    Paste(String),
    Copy,
    Cut,
    Other,
}

/// The ASCII upper-case of `c`.
pub open spec fn ascii_upper(c: char) -> char {
    if 'a' <= c && c <= 'z' {
        ((c as nat) - 32) as char
    } else {
        c
    }
}

/// The xterm modifier parameter: 1, plus 1 for shift, 2 for alt, 4 for ctrl.
pub open spec fn modifier_code(m: KeyMods) -> nat {
    1 + (if m.shift { 1nat } else { 0 }) + (if m.alt { 2nat } else { 0 }) + (if m.ctrl { 4nat } else { 0 })
}

/// The final byte of a cursor key's escape sequence.
pub open spec fn cursor_final(key: TermKey) -> Option<char> {
    match key {
        TermKey::ArrowUp => Some('A'),
        TermKey::ArrowDown => Some('B'),
        TermKey::ArrowRight => Some('C'),
        TermKey::ArrowLeft => Some('D'),
        TermKey::Home => Some('H'),
        TermKey::End => Some('F'),
        _ => None,
    }
}

/// What a key press sends to the shell. Ctrl (without shift) and a letter
/// sends that letter's control code, Ctrl+Space sends NUL; cursor keys and
/// Delete send CSI sequences carrying the modifier when there is one; Enter,
/// Backspace, Tab, Escape, PageUp and PageDown send their fixed sequences;
/// other keys send nothing.
pub open spec fn encode_key_spec(key: TermKey, m: KeyMods) -> Option<Seq<char>> {
    let ctrl_letter = m.ctrl && !m.shift && (key matches TermKey::Named(n) && n@.len() == 1 && 'A'
        <= ascii_upper(n@[0]) && ascii_upper(n@[0]) <= 'Z');
    if ctrl_letter {
        let n = key->Named_0;
        Some(seq![((ascii_upper(n@[0]) as nat) - 64) as char])
    } else if m.ctrl && !m.shift && key is Space {
        Some(seq!['\0'])
    } else if cursor_final(key) is Some {
        let f = cursor_final(key)->0;
        if modifier_code(m) == 1 {
            Some("\u{1b}["@.push(f))
        } else {
            Some("\u{1b}[1;"@ + dec(modifier_code(m)) + seq![f])
        }
    } else if key is Delete {
        if modifier_code(m) == 1 {
            Some("\u{1b}[3~"@)
        } else {
            Some("\u{1b}[3;"@ + dec(modifier_code(m)) + "~"@)
        }
    } else {
        match key {
            TermKey::Enter => Some("\r"@),
            TermKey::Backspace => Some("\u{7f}"@),
            TermKey::Tab => Some("\t"@),
            TermKey::Escape => Some("\u{1b}"@),
            TermKey::PageUp => Some("\u{1b}[5~"@),
            TermKey::PageDown => Some("\u{1b}[6~"@),
            _ => None,
        }
    }
}

/// Each cursor key sends its own xterm final byte, whatever the modifiers:
/// Up `A`, Down `B`, Right `C`, Left `D`, Home `H`, End `F`, so no two
/// cursor keys send the same bytes; unmodified, a cursor key sends just
/// ESC, `[` and that byte (Right: ESC `[` `C`).
pub proof fn lemma_cursor_keys_send_their_own_final_byte(m: KeyMods)
    ensures
        encode_key_spec(TermKey::ArrowUp, m) matches Some(s) && s.len() > 0 && s.last() == 'A',
        encode_key_spec(TermKey::ArrowDown, m) matches Some(s) && s.len() > 0 && s.last() == 'B',
        encode_key_spec(TermKey::ArrowRight, m) matches Some(s) && s.len() > 0 && s.last() == 'C',
        encode_key_spec(TermKey::ArrowLeft, m) matches Some(s) && s.len() > 0 && s.last() == 'D',
        encode_key_spec(TermKey::Home, m) matches Some(s) && s.len() > 0 && s.last() == 'H',
        encode_key_spec(TermKey::End, m) matches Some(s) && s.len() > 0 && s.last() == 'F',
        !m.alt && !m.ctrl && !m.shift ==> encode_key_spec(TermKey::ArrowRight, m) == Some(
            seq!['\u{1b}', '[', 'C'],
        ),
        !m.alt && !m.ctrl && !m.shift ==> encode_key_spec(TermKey::ArrowLeft, m) == Some(
            seq!['\u{1b}', '[', 'D'],
        ),
        !m.alt && !m.ctrl && !m.shift ==> encode_key_spec(TermKey::ArrowUp, m) == Some(
            seq!['\u{1b}', '[', 'A'],
        ),
        !m.alt && !m.ctrl && !m.shift ==> encode_key_spec(TermKey::ArrowDown, m) == Some(
            seq!['\u{1b}', '[', 'B'],
        ),
{
    reveal_strlit("\u{1b}[");
    assert("\u{1b}["@.push('C') =~= seq!['\u{1b}', '[', 'C']);
    assert("\u{1b}["@.push('D') =~= seq!['\u{1b}', '[', 'D']);
    assert("\u{1b}["@.push('A') =~= seq!['\u{1b}', '[', 'A']);
    assert("\u{1b}["@.push('B') =~= seq!['\u{1b}', '[', 'B']);
}

fn ascii_upper_exec(c: char) -> (u: char)
    ensures
        u == ascii_upper(c),
{
    if 'a' <= c && c <= 'z' {
        ((c as u32 - 32) as u8) as char
    } else {
        c
    }
}

/// The bytes a key press sends to the shell.
pub fn encode_key(key: &TermKey, mods: KeyMods) -> (r: Option<String>)
    ensures
        match encode_key_spec(*key, mods) {
            Some(s) => r matches Some(t) && t@ == s,
            None => r is None,
        },
{
    if mods.ctrl && !mods.shift {
        if let TermKey::Named(name) = key {
            let v = chars_of(name.as_str());
            if v.len() == 1 {
                let upper = ascii_upper_exec(v[0]);
                if 'A' <= upper && upper <= 'Z' {
                    let mut s = String::new();
                    s.push(((upper as u32 - 64) as u8) as char);
                    assert(s@ =~= seq![((ascii_upper(name@[0]) as nat) - 64) as char]);
                    return Some(s);
                }
            }
        }
        if let TermKey::Space = key {
            let mut s = String::new();
            s.push('\0');
            assert(s@ =~= seq!['\0']);
            return Some(s);
        }
    }
    let modifier: u32 = 1 + (if mods.shift { 1 } else { 0 }) + (if mods.alt { 2 } else { 0 }) + (if mods.ctrl { 4 } else { 0 });
    let cursor = match key {
        TermKey::ArrowUp => Some('A'),
        TermKey::ArrowDown => Some('B'),
        TermKey::ArrowRight => Some('C'),
        TermKey::ArrowLeft => Some('D'),
        TermKey::Home => Some('H'),
        TermKey::End => Some('F'),
        _ => None,
    };
    if let Some(f) = cursor {
        let mut s = String::new();
        if modifier == 1 {
            push_str(&mut s, "\u{1b}[");
            s.push(f);
        } else {
            push_str(&mut s, "\u{1b}[1;");
            push_dec(&mut s, modifier as u128);
            s.push(f);
            assert(s@ =~= "\u{1b}[1;"@ + dec(modifier_code(mods)) + seq![f]);
        }
        return Some(s);
    }
    if let TermKey::Delete = key {
        let mut s = String::new();
        if modifier == 1 {
            push_str(&mut s, "\u{1b}[3~");
            assert(s@ =~= "\u{1b}[3~"@);
        } else {
            push_str(&mut s, "\u{1b}[3;");
            push_dec(&mut s, modifier as u128);
            push_str(&mut s, "~");
        }
        return Some(s);
    }
    let seq = match key {
        TermKey::Enter => "\r",
        TermKey::Backspace => "\u{7f}",
        TermKey::Tab => "\t",
        TermKey::Escape => "\u{1b}",
        TermKey::PageUp => "\u{1b}[5~",
        TermKey::PageDown => "\u{1b}[6~",
        _ => return None,
    };
    Some(String::from_str(seq))
}

/// What one input event sends to the shell. Copy and Cut stand for Ctrl+C
/// and Ctrl+X, which the interface turns into clipboard events.
pub open spec fn encode_event_spec(e: TermEvent) -> Seq<char> {
    match e {
        TermEvent::Text(t) => t@,
        TermEvent::Key { key, pressed, mods } => if pressed {
            match encode_key_spec(key, mods) {
                Some(s) => s,
                None => Seq::empty(),
            }
        } else {
            Seq::empty()
        },
        TermEvent::Paste(t) => t@,
        TermEvent::Copy => seq!['\u{3}'],
        TermEvent::Cut => seq!['\u{18}'],
        TermEvent::Other => Seq::empty(),
    }
}

/// What a frame's input events send to the shell, in order.
pub open spec fn encode_events_spec(events: Seq<TermEvent>) -> Seq<char>
    decreases events.len(),
{
    if events.len() == 0 {
        Seq::empty()
    } else {
        encode_events_spec(events.drop_last()) + encode_event_spec(events.last())
    }
}

/// Encodes a frame's input events as the bytes the shell receives.
pub fn encode_events(events: &Vec<TermEvent>) -> (s: String)
    ensures
        s@ == encode_events_spec(events@),
{
    let mut out = String::new();
    let mut i: usize = 0;
    assert(events@.take(0) =~= Seq::<TermEvent>::empty());
    while i < events.len()
        invariant
            i <= events.len(),
            out@ == encode_events_spec(events@.take(i as int)),
        decreases events.len() - i,
    {
        assert(events@.take(i + 1).drop_last() =~= events@.take(i as int));
        let ghost before = out@;
        match &events[i] {
            TermEvent::Text(t) => push_str(&mut out, t.as_str()),
            TermEvent::Key { key, pressed, mods } => {
                if *pressed {
                    if let Some(seq) = encode_key(key, *mods) {
                        push_str(&mut out, seq.as_str());
                    } else {
                        assert(out@ =~= before + Seq::<char>::empty());
                    }
                } else {
                    assert(out@ =~= before + Seq::<char>::empty());
                }
            },
            TermEvent::Paste(t) => push_str(&mut out, t.as_str()),
            TermEvent::Copy => {
                out.push('\u{3}');
            },
            TermEvent::Cut => {
                out.push('\u{18}');
            },
            TermEvent::Other => {
                assert(out@ =~= before + Seq::<char>::empty());
            },
        }
        assert(out@ =~= before + encode_event_spec(events@[i as int]));
        i = i + 1;
    }
    assert(events@.take(events.len() as int) =~= events@);
    out
}

} // verus!
