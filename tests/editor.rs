use gap_editor::gap_buffer::GAP_REFILL;
use gap_editor::{App, CursorPos, Key};

fn keys(app: &mut App, text: &str) {
    for c in text.chars() {
        if c == '\n' {
            app.handle_key(Key::Enter);
        } else {
            app.handle_key(Key::Char(c));
        }
    }
}

#[test]
fn default_app_is_empty() {
    let app = App::default();
    assert!(!app.exit);
    assert_eq!(app.lines, vec![0]);
    assert_eq!(app.filename, "undefined");
    assert_eq!(app.buffer.to_string(), "");
    assert_eq!(app.buffer.gap_size, GAP_REFILL);
    assert_eq!(app.cursor_pos(), CursorPos { x: 0, y: 0 });
}

#[test]
fn loading_splits_lines() {
    let app = App::from_content(b"ab\ncd".to_vec(), "f.txt".to_string());
    assert_eq!(app.lines, vec![2, 2]);
    assert_eq!(app.buffer.cursor, 5);
    assert_eq!(app.cursor_pos(), CursorPos { x: 2, y: 1 });
    assert_eq!(app.buffer.to_string(), "ab\ncd");
    assert_eq!(app.filename, "f.txt");
    assert!(!app.exit);
}

#[test]
fn loading_counts_empty_lines() {
    let app = App::from_content(b"\nabc\n\n".to_vec(), "x".to_string());
    assert_eq!(app.lines, vec![0, 3, 0, 0]);
    let empty = App::from_content(Vec::new(), "y".to_string());
    assert_eq!(empty.lines, vec![0]);
}

#[test]
fn typing_counts_characters_per_line() {
    let mut app = App::default();
    keys(&mut app, "hi\nthere");
    assert_eq!(app.lines, vec![2, 5]);
    assert_eq!(app.buffer.to_string(), "hi\nthere");
    assert_eq!(app.buffer.cursor, 8);
    assert_eq!(app.cursor_pos(), CursorPos { x: 5, y: 1 });
}

#[test]
fn cursor_inside_a_line() {
    let mut app = App::default();
    keys(&mut app, "abc\ndef");
    for _ in 0..6 {
        app.handle_key(Key::Left);
    }
    assert_eq!(app.buffer.cursor, 1);
    assert_eq!(app.cursor_pos(), CursorPos { x: 1, y: 0 });
    app.handle_key(Key::Right);
    app.handle_key(Key::Right);
    assert_eq!(app.buffer.cursor, 3);
    assert_eq!(app.cursor_pos(), CursorPos { x: 0, y: 1 });
    assert_eq!(app.lines, vec![3, 3]);
}

#[test]
fn backspace_shrinks_then_drops_the_last_line() {
    let mut app = App::default();
    keys(&mut app, "ab\nc");
    assert_eq!(app.lines, vec![2, 1]);
    app.handle_key(Key::Backspace);
    assert_eq!(app.lines, vec![2, 0]);
    assert_eq!(app.buffer.to_string(), "ab\n");
    app.handle_key(Key::Backspace);
    assert_eq!(app.lines, vec![2]);
    assert_eq!(app.buffer.to_string(), "ab");
    app.handle_key(Key::Backspace);
    app.handle_key(Key::Backspace);
    assert_eq!(app.lines, vec![0]);
    assert_eq!(app.buffer.to_string(), "");
    app.handle_key(Key::Backspace);
    assert_eq!(app.lines, vec![0]);
    assert_eq!(app.buffer.to_string(), "");
}

#[test]
fn escape_asks_to_exit() {
    let mut app = App::default();
    keys(&mut app, "q");
    app.handle_key(Key::Esc);
    assert!(app.exit);
    assert_eq!(app.buffer.to_string(), "q");
    assert_eq!(app.lines, vec![1]);
}

#[test]
fn long_typing_refills_the_gap() {
    let mut app = App::default();
    let text = "abcdefghijklmnopqrstuvwxy";
    keys(&mut app, text);
    assert_eq!(app.buffer.to_string(), text);
    assert_eq!(app.lines, vec![25]);
    assert_eq!(app.cursor_pos(), CursorPos { x: 25, y: 0 });
}
