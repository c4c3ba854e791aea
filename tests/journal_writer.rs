use nightwriter::{utf8_bytes, Writer};

fn writer_with(start: u64, text: &str) -> Writer {
    let mut w = Writer::initialize(start);
    for c in text.chars() {
        w.append(c);
    }
    w
}

fn text_of(w: &Writer) -> String {
    w.text().into_iter().collect()
}

#[test]
fn new_session_is_empty() {
    let w = Writer::initialize(42);
    assert_eq!(text_of(&w), "");
    assert_eq!(w.file_len(), 42);
}

#[test]
fn append_returns_the_bytes_to_write() {
    let mut w = Writer::initialize(10);
    assert_eq!(w.append('a'), vec![b'a']);
    assert_eq!(w.append('€'), vec![0xE2, 0x82, 0xAC]);
    assert_eq!(text_of(&w), "a€");
    assert_eq!(w.file_len(), 14);
}

#[test]
fn delete_char_after_appends() {
    let mut w = writer_with(100, "abc");
    assert_eq!(w.delete_char(), 102);
    assert_eq!(text_of(&w), "ab");
    assert_eq!(w.file_len(), 102);
}

#[test]
fn delete_char_removes_a_whole_multibyte_character() {
    let mut w = writer_with(5, "aé");
    assert_eq!(w.file_len(), 8);
    assert_eq!(w.delete_char(), 6);
    assert_eq!(text_of(&w), "a");
}

#[test]
fn delete_word_drops_trailing_space_then_word() {
    let mut w = writer_with(0, "hello world  ");
    assert_eq!(w.delete_word(), 6);
    assert_eq!(text_of(&w), "hello ");
}

#[test]
fn delete_word_on_single_word_empties() {
    let mut w = writer_with(3, "hello");
    assert_eq!(w.delete_word(), 3);
    assert_eq!(text_of(&w), "");
}

#[test]
fn delete_word_on_empty_is_a_no_op() {
    let mut w = Writer::initialize(9);
    assert_eq!(w.delete_word(), 9);
    assert_eq!(text_of(&w), "");
}

#[test]
fn delete_word_treats_tabs_and_newlines_as_space() {
    let mut w = writer_with(0, "one\ttwo\n");
    assert_eq!(w.delete_word(), 4);
    assert_eq!(text_of(&w), "one\t");
    let mut u = writer_with(0, "a\u{3000}b");
    u.delete_word();
    assert_eq!(text_of(&u), "a\u{3000}");
}

#[test]
fn deletions_never_go_below_the_start() {
    let mut w = writer_with(50, "ab cd");
    for _ in 0..10 {
        assert!(w.delete_char() >= 50);
        assert!(w.delete_word() >= 50);
    }
    assert_eq!(text_of(&w), "");
    assert_eq!(w.delete_char(), 50);
    assert_eq!(w.delete_word(), 50);
    assert_eq!(w.file_len(), 50);
}

#[test]
fn utf8_bytes_match_std() {
    for &c in &['a', '\n', 'é', '€', '𝄞', '\u{7f}', '\u{80}', '\u{7ff}', '\u{800}', '\u{ffff}', '\u{10000}', '\u{10ffff}'] {
        let mut buf = [0u8; 4];
        assert_eq!(utf8_bytes(c), c.encode_utf8(&mut buf).as_bytes().to_vec());
    }
}
