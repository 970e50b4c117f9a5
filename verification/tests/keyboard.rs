use duckwatch::keyboard::{History, KeyEvent, Keyboard, KeyboardError, LineEditor};

fn keys(bytes: &[u8]) -> Vec<KeyEvent> {
    let mut k = Keyboard::new();
    bytes.iter().filter_map(|&b| k.feed(b)).collect()
}

#[test]
fn plain_bytes_and_control_keys_decode() {
    assert_eq!(
        keys(b"a~ \x08\x7f\x09\x03"),
        vec![
            KeyEvent::Char('a'),
            KeyEvent::Char('~'),
            KeyEvent::Char(' '),
            KeyEvent::Backspace,
            KeyEvent::Backspace,
            KeyEvent::Tab,
            KeyEvent::CtrlC
        ]
    );
    assert!(keys(b"\x01\x80\xff").is_empty());
}

#[test]
fn crlf_is_one_enter_and_lone_lf_is_enter() {
    assert_eq!(keys(b"\r\n"), vec![KeyEvent::Enter]);
    assert_eq!(keys(b"\n"), vec![KeyEvent::Enter]);
    assert_eq!(keys(b"\r\r\n"), vec![KeyEvent::Enter, KeyEvent::Enter]);
    assert_eq!(keys(b"\r\n\n"), vec![KeyEvent::Enter, KeyEvent::Enter]);
}

#[test]
fn escape_sequences_decode_to_keys() {
    assert_eq!(
        keys(b"\x1b[A\x1b[B\x1b[C\x1b[D\x1b[3~\x1bx"),
        vec![
            KeyEvent::Up,
            KeyEvent::Down,
            KeyEvent::Right,
            KeyEvent::Left,
            KeyEvent::Backspace,
            KeyEvent::Escape
        ]
    );
    assert!(keys(b"\x1b[5~").is_empty());
    assert_eq!(keys(b"\x1b[1;5H"), vec![KeyEvent::Escape]);
}

#[test]
fn read_key_reports_bytes_used_and_end_of_input() {
    let mut k = Keyboard::new();
    assert!(matches!(k.read_key::<()>(b"\x1b[Dz"), Ok((KeyEvent::Left, 3))));
    let mut k = Keyboard::new();
    assert!(matches!(k.read_key::<()>(b"\x1b"), Ok((KeyEvent::Escape, 1))));
    let mut k = Keyboard::new();
    assert!(matches!(k.read_key::<()>(b""), Err(KeyboardError::Eof)));
    assert!(matches!(k.read_key::<()>(b"\x1b["), Err(KeyboardError::Eof)));
    assert!(matches!(k.read_key::<()>(b"q"), Ok((KeyEvent::Char('q'), 1))));
}

#[test]
fn history_keeps_the_last_lines() {
    let mut h: History<2> = History::new();
    assert!(h.is_empty());
    h.write(b"one".to_vec());
    h.write(b"two".to_vec());
    h.write(b"three".to_vec());
    assert_eq!(h.len(), 2);
    assert_eq!(h.get(0), Some(b"three".to_vec()));
    assert_eq!(h.get(1), Some(b"two".to_vec()));
    assert_eq!(h.get(2), None);
}

type Editor = LineEditor<16, 4>;

#[test]
fn typed_line_is_returned_with_echo() {
    let mut ed: Editor = LineEditor::new(Keyboard::new());
    let (res, echo, used) = ed.read_line::<()>(b"ls\r\nrest");
    assert!(matches!(res, Ok(Some(ref l)) if l.as_slice() == b"ls"));
    assert_eq!(echo, b"ls\r\n".to_vec());
    assert_eq!(used, 3);
    assert!(ed.as_bytes().is_empty());
}

#[test]
fn ctrl_c_abandons_and_running_out_is_eof() {
    let mut ed: Editor = LineEditor::new(Keyboard::new());
    let (res, _, _) = ed.read_line::<()>(b"abc\x03");
    assert!(matches!(res, Ok(None)));
    let (res, echo, used) = ed.read_line::<()>(b"xy");
    assert!(matches!(res, Err(KeyboardError::Eof)));
    assert_eq!(echo, b"xy".to_vec());
    assert_eq!(used, 2);
    assert_eq!(ed.as_bytes(), b"xy");
}

#[test]
fn insert_in_the_middle_then_delete_restores_the_line() {
    let mut ed: Editor = LineEditor::new(Keyboard::new());
    for &b in b"ab\x1b[D" {
        ed.feed(b);
    }
    let (echo, st) = ed.feed(b'X');
    assert!(st.is_none());
    assert_eq!(ed.as_bytes(), b"aXb");
    assert_eq!(echo, b"Xb\x1b[D".to_vec());
    let (echo, _) = ed.feed(0x7f);
    assert_eq!(ed.as_bytes(), b"ab");
    assert_eq!(echo, b"\x1b[D\x1b[Kb\x1b[D".to_vec());
}

#[test]
fn line_stops_growing_at_its_limit() {
    let mut ed: LineEditor<3, 2> = LineEditor::new(Keyboard::new());
    let echo = ed.read_line::<()>(b"abcd").1;
    assert_eq!(ed.as_bytes(), b"abc");
    assert_eq!(echo, b"abc".to_vec());
}

#[test]
fn up_recalls_the_last_line() {
    let mut ed: Editor = LineEditor::new(Keyboard::new());
    ed.read_line::<()>(b"first\r");
    ed.read_line::<()>(b"second\r");
    let (res, echo, _) = ed.read_line::<()>(b"\x1b[A\r");
    assert!(matches!(res, Ok(Some(ref l)) if l.as_slice() == b"second"));
    assert_eq!(echo, b"\x1b[Ksecond\r\n".to_vec());
    let (res, _, _) = ed.read_line::<()>(b"\x1b[A\x1b[A\x1b[A\r");
    assert!(matches!(res, Ok(Some(ref l)) if l.as_slice() == b"first"));
}

#[test]
fn down_past_the_newest_clears_the_line() {
    let mut ed: Editor = LineEditor::new(Keyboard::new());
    ed.read_line::<()>(b"one\r");
    ed.read_line::<()>(b"\x1b[A\x1b[B");
    assert!(ed.as_bytes().is_empty());
}
