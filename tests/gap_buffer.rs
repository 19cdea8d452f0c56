use gap_editor::gap_buffer::{FILLER, GAP_REFILL};
use gap_editor::GapBuffer;

fn typed(text: &str) -> GapBuffer<char> {
    let mut b = GapBuffer::new(GAP_REFILL, FILLER);
    for c in text.chars() {
        b.insert(c);
    }
    b
}

#[test]
fn new_buffer_is_empty() {
    let b = GapBuffer::new(4, '#');
    assert_eq!(b.len(), 0);
    assert_eq!(b.cursor, 0);
    assert_eq!(b.gap_size, 4);
    assert_eq!(b.buffer, vec!['#'; 4]);
    assert_eq!(b.to_string(), "");
}

#[test]
fn each_insert_adds_one_character() {
    let mut b = GapBuffer::new(3, FILLER);
    for (n, c) in "abcdefghijklmnopqrstuvwxyz".chars().enumerate() {
        assert_eq!(b.len(), n);
        b.insert(c);
        assert_eq!(b.len(), n + 1);
        assert_eq!(b.cursor, n + 1);
    }
    assert_eq!(b.len(), 26);
    assert_eq!(b.to_string(), "abcdefghijklmnopqrstuvwxyz");
}

#[test]
fn insert_in_the_middle() {
    let mut b = typed("hello");
    b.left();
    b.left();
    b.insert('X');
    assert_eq!(b.to_string(), "helXlo");
    assert_eq!(b.cursor, 4);
}

#[test]
fn insert_then_delete_restores_text_and_cursor() {
    let mut b = typed("abc");
    b.left();
    let before = b.to_string();
    let cursor = b.cursor;
    b.insert('z');
    assert_eq!(b.to_string(), "abzc");
    b.delete();
    assert_eq!(b.to_string(), before);
    assert_eq!(b.cursor, cursor);
}

#[test]
fn right_at_end_changes_nothing() {
    let mut b = typed("abc");
    assert_eq!(b.cursor, b.len());
    let buffer = b.buffer.clone();
    let (gap, cursor) = (b.gap_size, b.cursor);
    b.right();
    assert_eq!(b.buffer, buffer);
    assert_eq!(b.gap_size, gap);
    assert_eq!(b.cursor, cursor);
}

#[test]
fn delete_at_start_changes_nothing() {
    let mut b = typed("abc");
    b.left();
    b.left();
    b.left();
    assert_eq!(b.cursor, 0);
    let buffer = b.buffer.clone();
    let gap = b.gap_size;
    b.delete();
    assert_eq!(b.buffer, buffer);
    assert_eq!(b.gap_size, gap);
    assert_eq!(b.cursor, 0);
    assert_eq!(b.to_string(), "abc");
}

#[test]
fn left_at_start_changes_nothing() {
    let mut b = GapBuffer::new(2, FILLER);
    b.left();
    assert_eq!(b.cursor, 0);
    assert_eq!(b.buffer, vec![FILLER; 2]);
}

#[test]
fn many_inserts_show_no_filler() {
    let mut b = GapBuffer::new(10, FILLER);
    let text = "0123456789abcde";
    for c in text.chars() {
        b.insert(c);
    }
    assert_eq!(b.len(), 15);
    assert_eq!(b.to_string(), text);
    assert!(!b.to_string().contains(FILLER));
}

#[test]
fn last_gap_cell_refills_the_gap() {
    let mut b = GapBuffer::new(2, FILLER);
    b.insert('a');
    assert_eq!(b.gap_size, 1);
    b.insert('b');
    assert_eq!(b.gap_size, GAP_REFILL);
    assert_eq!(b.buffer.len(), 2 + GAP_REFILL);
    assert_eq!(b.to_string(), "ab");
    b.insert('c');
    assert_eq!(b.gap_size, GAP_REFILL - 1);
}

#[test]
fn moving_keeps_the_text() {
    let mut b = typed("abcd");
    b.left();
    b.left();
    b.left();
    assert_eq!(b.cursor, 1);
    assert_eq!(b.to_string(), "abcd");
    b.right();
    assert_eq!(b.cursor, 2);
    assert_eq!(b.to_string(), "abcd");
    b.delete();
    assert_eq!(b.to_string(), "acd");
    assert_eq!(b.cursor, 1);
    assert_eq!(b.len(), 3);
}

#[test]
fn loaded_text_round_trips() {
    let text = "first line\nsecond\n\nlast";
    let b = GapBuffer::from(text.as_bytes().to_vec());
    assert_eq!(b.to_string(), text);
    assert_eq!(b.len(), text.len());
    assert_eq!(b.cursor, text.len());
    assert_eq!(b.gap_size, GAP_REFILL);
    assert_eq!(b.gap_value, FILLER);
}

#[test]
fn loaded_bytes_are_read_one_character_each() {
    let b = GapBuffer::from(vec![0x41, 0xe9, 0x0a]);
    assert_eq!(b.to_string(), "A\u{e9}\n");
}

#[test]
fn loading_nothing_gives_empty_text() {
    let b = GapBuffer::from(Vec::new());
    assert_eq!(b.to_string(), "");
    assert_eq!(b.len(), 0);
}

#[test]
fn display_string_brackets_the_gap() {
    let mut b = GapBuffer::new(3, '.');
    b.insert('a');
    assert_eq!(b.display_string(), "a[_._.]");
    b.left();
    assert_eq!(b.display_string(), "[_._.]a");
}
