use octopos::decimal::push_decimal;
use octopos::line_editor::{
    KEY_BS, KEY_CR, KEY_CTRL_A, KEY_CTRL_D, KEY_CTRL_E, KEY_CTRL_U, KEY_CTRL_W, KEY_DEL, KEY_ESC,
    KEY_LF,
};
use octopos::{write_complete, KeyOutcome, LineEditor, LINE_MAX};

fn typed<'a>(keys: &[u8]) -> LineEditor<'a> {
    let mut e = LineEditor::new();
    for &k in keys {
        match e.handle_key(k) {
            KeyOutcome::Continue(_) => {}
            _ => panic!("unexpected outcome"),
        }
    }
    e
}

fn redraw_of(prompt: &str, line: &str, back: usize) -> Vec<u8> {
    let mut v = b"\r\x1b[K".to_vec();
    v.extend_from_slice(prompt.as_bytes());
    v.extend_from_slice(line.as_bytes());
    if back > 0 {
        v.extend_from_slice(format!("\x1b[{}D", back).as_bytes());
    }
    v
}

#[test]
fn typing_inserts_at_cursor() {
    let e = typed(b"hello");
    assert_eq!(e.text(), b"hello");
    assert_eq!(e.cursor(), 5);
    assert_eq!(e.len(), 5);
}

#[test]
fn insert_redraws_with_prompt() {
    let mut e = LineEditor::new();
    e.begin("$ ");
    let out = e.insert(b'a');
    assert_eq!(out, redraw_of("$ ", "a", 0));
}

#[test]
fn insert_in_middle_moves_cursor_back_on_screen() {
    let mut e = typed(b"ac");
    e.move_left();
    let out = e.insert(b'b');
    assert_eq!(e.text(), b"abc");
    assert_eq!(e.cursor(), 2);
    assert_eq!(out, redraw_of("", "abc", 1));
}

#[test]
fn backspace_undoes_insert() {
    let mut e = typed(b"abd");
    e.move_left();
    e.insert(b'c');
    e.backspace();
    assert_eq!(e.text(), b"abd");
    assert_eq!(e.cursor(), 2);
}

#[test]
fn backspace_at_start_does_nothing() {
    let mut e = typed(b"xy");
    e.move_to_start();
    let out = e.backspace();
    assert!(out.is_empty());
    assert_eq!(e.text(), b"xy");
    assert_eq!(e.cursor(), 0);
}

#[test]
fn delete_key_erases_like_backspace() {
    let mut e = typed(b"abc");
    match e.handle_key(KEY_DEL) {
        KeyOutcome::Continue(out) => assert_eq!(out, redraw_of("", "ab", 0)),
        _ => panic!("expected continue"),
    }
    match e.handle_key(KEY_BS) {
        KeyOutcome::Continue(_) => {}
        _ => panic!("expected continue"),
    }
    assert_eq!(e.text(), b"a");
}

#[test]
fn kill_line_keeps_text_after_cursor() {
    let mut e = typed(b"hello world");
    for _ in 0..5 {
        e.move_left();
    }
    e.kill_line();
    assert_eq!(e.text(), b"world");
    assert_eq!(e.cursor(), 0);
    e.kill_line();
    assert_eq!(e.text(), b"world");
}

#[test]
fn kill_word_erases_word_and_trailing_spaces() {
    let mut e = typed(b"foo bar  ");
    let out = e.kill_word();
    assert_eq!(e.text(), b"foo ");
    assert_eq!(e.cursor(), 4);
    assert_eq!(out, redraw_of("", "foo ", 0));
}

#[test]
fn kill_word_in_middle_keeps_suffix() {
    let mut e = typed(b"one two three");
    for _ in 0..5 {
        e.move_left();
    }
    // cursor sits after "one two "
    match e.handle_key(KEY_CTRL_W) {
        KeyOutcome::Continue(out) => assert_eq!(out, redraw_of("", "one three", 5)),
        _ => panic!("expected continue"),
    }
    assert_eq!(e.text(), b"one three");
    assert_eq!(e.cursor(), 4);
}

#[test]
fn kill_word_at_start_does_nothing_to_line() {
    let mut e = typed(b"abc");
    e.move_to_start();
    e.kill_word();
    assert_eq!(e.text(), b"abc");
    assert_eq!(e.cursor(), 0);
}

#[test]
fn moves_emit_escape_sequences() {
    let mut e = typed(b"ab");
    assert_eq!(e.move_right(), Vec::<u8>::new());
    assert_eq!(e.move_left(), b"\x1b[D".to_vec());
    assert_eq!(e.cursor(), 1);
    assert_eq!(e.move_right(), b"\x1b[C".to_vec());
    assert_eq!(e.cursor(), 2);
    e.move_to_start();
    assert_eq!(e.move_left(), Vec::<u8>::new());
    assert_eq!(e.text(), b"ab");
}

#[test]
fn ctrl_a_and_ctrl_e_move_to_ends() {
    let mut e = typed(b"abcdefghijkl");
    match e.handle_key(KEY_CTRL_A) {
        KeyOutcome::Continue(out) => assert_eq!(out, redraw_of("", "abcdefghijkl", 12)),
        _ => panic!("expected continue"),
    }
    assert_eq!(e.cursor(), 0);
    match e.handle_key(KEY_CTRL_E) {
        KeyOutcome::Continue(out) => assert_eq!(out, redraw_of("", "abcdefghijkl", 0)),
        _ => panic!("expected continue"),
    }
    assert_eq!(e.cursor(), 12);
}

#[test]
fn ctrl_u_through_key_handler() {
    let mut e = typed(b"abc");
    e.move_left();
    match e.handle_key(KEY_CTRL_U) {
        KeyOutcome::Continue(_) => {}
        _ => panic!("expected continue"),
    }
    assert_eq!(e.text(), b"c");
}

#[test]
fn escape_sequences_move_cursor() {
    let mut e = typed(b"ab");
    assert!(matches!(e.handle_key(KEY_ESC), KeyOutcome::Escape));
    assert_eq!(e.handle_escape([b'[', b'D']), b"\x1b[D".to_vec());
    assert_eq!(e.cursor(), 1);
    assert_eq!(e.handle_escape([b'[', b'C']), b"\x1b[C".to_vec());
    assert_eq!(e.cursor(), 2);
    assert_eq!(e.handle_escape([b'[', b'A']), Vec::<u8>::new());
    assert_eq!(e.cursor(), 2);
    assert_eq!(e.text(), b"ab");
}

#[test]
fn enter_submits_line() {
    let mut e = typed(b"ls -l");
    match e.handle_key(KEY_CR) {
        KeyOutcome::Submit(out) => assert_eq!(out, b"\r\n".to_vec()),
        _ => panic!("expected submit"),
    }
    assert_eq!(e.text(), b"ls -l");
    match e.handle_key(KEY_LF) {
        KeyOutcome::Submit(_) => {}
        _ => panic!("expected submit"),
    }
}

#[test]
fn ctrl_d_ends_input_only_on_empty_line() {
    let mut e = LineEditor::new();
    match e.handle_key(KEY_CTRL_D) {
        KeyOutcome::EndOfInput(out) => assert_eq!(out, b"\r\n".to_vec()),
        _ => panic!("expected end of input"),
    }
    let mut e = typed(b"a");
    match e.handle_key(KEY_CTRL_D) {
        KeyOutcome::Continue(out) => assert!(out.is_empty()),
        _ => panic!("expected continue"),
    }
    assert_eq!(e.text(), b"a");
}

#[test]
fn unbound_keys_are_ignored() {
    let mut e = typed(b"a");
    for k in [0x02u8, 0x09, 0x0c, 0x80, 0xff] {
        match e.handle_key(k) {
            KeyOutcome::Continue(out) => assert!(out.is_empty()),
            _ => panic!("expected continue"),
        }
    }
    assert_eq!(e.text(), b"a");
    assert_eq!(e.cursor(), 1);
}

#[test]
fn begin_resets_line_and_sets_prompt() {
    let mut e = typed(b"old");
    e.begin("> ");
    assert_eq!(e.len(), 0);
    assert_eq!(e.cursor(), 0);
    assert_eq!(e.redraw(), redraw_of("> ", "", 0));
}

#[test]
fn full_line_holds_line_max_bytes() {
    let keys = vec![b'q'; LINE_MAX];
    let e = typed(&keys);
    assert_eq!(e.len(), LINE_MAX);
    assert_eq!(e.text(), keys);
}

#[test]
fn redraw_counts_back_in_decimal() {
    let keys = vec![b'w'; 150];
    let mut e = typed(&keys);
    e.move_to_start();
    let out = e.redraw();
    assert!(out.ends_with(b"\x1b[150D"));
}

#[test]
fn default_is_empty() {
    let e: LineEditor = Default::default();
    assert_eq!(e.len(), 0);
    assert_eq!(e.redraw(), redraw_of("", "", 0));
}

#[test]
fn decimal_digits() {
    let mut v = b"n=".to_vec();
    push_decimal(&mut v, 0);
    assert_eq!(v, b"n=0");
    let mut v = Vec::new();
    push_decimal(&mut v, 4096);
    assert_eq!(v, b"4096");
    let mut v = Vec::new();
    push_decimal(&mut v, usize::MAX);
    assert_eq!(v, usize::MAX.to_string().into_bytes());
}

#[test]
fn console_write_completeness() {
    assert!(write_complete(5, Some(5)));
    assert!(!write_complete(5, Some(4)));
    assert!(!write_complete(5, None));
    assert!(write_complete(0, Some(0)));
}
