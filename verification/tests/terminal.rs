use rwinscp::app::{append_terminal_output, TERMINAL_CAPACITY};
use rwinscp::terminal::{encode_events, encode_key, KeyMods, TermEvent, TermKey};

fn ctrl() -> KeyMods {
    KeyMods { ctrl: true, alt: false, shift: false }
}

fn plain() -> KeyMods {
    KeyMods { ctrl: false, alt: false, shift: false }
}

fn letter(c: &str) -> TermKey {
    TermKey::Named(c.to_owned())
}

#[test]
fn ctrl_letter_maps_to_control_codes() {
    assert_eq!(encode_key(&letter("C"), ctrl()).as_deref(), Some("\u{3}"));
    assert_eq!(encode_key(&letter("A"), ctrl()).as_deref(), Some("\u{1}"));
    assert_eq!(encode_key(&letter("D"), ctrl()).as_deref(), Some("\u{4}"));
}

#[test]
fn ctrl_delete_does_not_send_eot() {
    let encoded = encode_key(&TermKey::Delete, ctrl()).expect("Delete is encodable");
    assert_ne!(encoded, "\u{4}", "Ctrl+Delete must never send EOT");
    assert!(encoded.starts_with('\u{1b}'), "expected an escape sequence");
}

#[test]
fn ctrl_space_is_nul_not_xoff() {
    assert_eq!(encode_key(&TermKey::Space, ctrl()).as_deref(), Some("\0"));
}

#[test]
fn plain_cursor_keys_use_bare_sequences() {
    assert_eq!(encode_key(&TermKey::ArrowUp, plain()).as_deref(), Some("\u{1b}[A"));
    assert_eq!(encode_key(&TermKey::ArrowLeft, plain()).as_deref(), Some("\u{1b}[D"));
    assert_eq!(encode_key(&TermKey::Home, plain()).as_deref(), Some("\u{1b}[H"));
}

#[test]
fn modified_cursor_keys_carry_the_modifier() {
    assert_eq!(encode_key(&TermKey::ArrowLeft, ctrl()).as_deref(), Some("\u{1b}[1;5D"));
    assert_eq!(encode_key(&TermKey::Delete, ctrl()).as_deref(), Some("\u{1b}[3;5~"));
}

#[test]
fn enter_and_backspace_match_terminal_convention() {
    assert_eq!(encode_key(&TermKey::Enter, plain()).as_deref(), Some("\r"));
    assert_eq!(encode_key(&TermKey::Backspace, plain()).as_deref(), Some("\u{7f}"));
}

#[test]
fn other_keys_and_shifted_letters() {
    assert_eq!(encode_key(&letter("Minus"), plain()), None);
    assert_eq!(encode_key(&letter("1"), ctrl()), None);
    let shift_ctrl = KeyMods { ctrl: true, alt: false, shift: true };
    assert_eq!(encode_key(&letter("C"), shift_ctrl), None);
    let all = KeyMods { ctrl: true, alt: true, shift: true };
    assert_eq!(encode_key(&TermKey::End, all).as_deref(), Some("\u{1b}[1;8F"));
    assert_eq!(encode_key(&TermKey::PageDown, plain()).as_deref(), Some("\u{1b}[6~"));
}

#[test]
fn events_concatenate_in_order() {
    let events = vec![
        TermEvent::Text("ls".to_owned()),
        TermEvent::Key { key: TermKey::Enter, pressed: true, mods: plain() },
        TermEvent::Key { key: TermKey::Enter, pressed: false, mods: plain() },
        TermEvent::Copy,
        TermEvent::Paste("x".to_owned()),
        TermEvent::Cut,
        TermEvent::Other,
    ];
    assert_eq!(encode_events(&events), "ls\r\u{3}x\u{18}");
}

#[test]
fn terminal_output_interprets_control_characters() {
    let mut buf = String::new();
    append_terminal_output(&mut buf, "hello\r\nworld\x1b[31m!\x1b[0m");
    assert_eq!(buf, "hello\nworld!");
    append_terminal_output(&mut buf, "\rabc\x08d\x07\t.");
    assert_eq!(buf, "hello\nabd\t.");
    append_terminal_output(&mut buf, "\x1b]0;title\x07z\x1b]2;t\x1b\\y\x1bQq");
    assert_eq!(buf, "hello\nabd\t.zyq");
}

#[test]
fn terminal_output_stays_within_capacity() {
    let mut buf = String::new();
    let line = "0123456789012345678901234567890123456789\n";
    for _ in 0..4000 {
        append_terminal_output(&mut buf, line);
    }
    assert!(buf.len() <= TERMINAL_CAPACITY);
    assert!(buf.starts_with('0'));
    assert_eq!(buf.len(), 2926 * line.len());
}

#[test]
fn past_the_capacity_the_excess_goes_with_the_rest_of_its_line() {
    let mut buf = "x".repeat(TERMINAL_CAPACITY);
    append_terminal_output(&mut buf, "abc\ndef");
    assert_eq!(buf, "def");
    let mut buf = "x".repeat(TERMINAL_CAPACITY - 10);
    append_terminal_output(&mut buf, "\nline\n");
    assert_eq!(buf.len(), TERMINAL_CAPACITY - 4);
}
