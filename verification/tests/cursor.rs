use helios::cursor::{Cursor, EOF_CHAR};

#[test]
fn test_cursor_empty() {
    let mut cursor = Cursor::new("");
    assert_eq!(cursor.source_len(), 0);

    assert_eq!(cursor.remaining_len(), 0);
    assert_eq!(cursor.nth(0), EOF_CHAR);

    assert_eq!(cursor.advance(), None);
    assert_eq!(cursor.pos(), 0);
    assert!(cursor.is_at_end());
}

#[test]
fn test_cursor_with_source() {
    let mut cursor = Cursor::new("abc123");
    assert_eq!(cursor.source_len(), 6);

    assert_eq!(cursor.remaining_len(), 6);
    assert_eq!(cursor.nth(0), 'a');
    assert_eq!(cursor.nth(1), 'b');
    assert_eq!(cursor.nth(2), 'c');

    assert_eq!(cursor.advance(), Some('a'));
    assert_eq!(cursor.advance(), Some('b'));
    assert_eq!(cursor.advance(), Some('c'));
    assert_eq!(cursor.pos(), 3);
    assert!(!cursor.is_at_end());

    assert_eq!(cursor.remaining_len(), 3);
    assert_eq!(cursor.nth(0), '1');
    assert_eq!(cursor.nth(1), '2');
    assert_eq!(cursor.nth(2), '3');

    assert_eq!(cursor.advance(), Some('1'));
    assert_eq!(cursor.advance(), Some('2'));
    assert_eq!(cursor.advance(), Some('3'));
    assert_eq!(cursor.pos(), 6);
    assert!(cursor.is_at_end());

    assert_eq!(cursor.remaining_len(), 0);
    assert_eq!(cursor.nth(0), EOF_CHAR);

    assert_eq!(cursor.advance(), None);
    assert_eq!(cursor.pos(), 6);
    assert!(cursor.is_at_end());
}

#[test]
fn test_cursor_slice() {
    let mut cursor = Cursor::new("hello, world!");
    assert_eq!(cursor.source_len(), 13);

    cursor.checkpoint();
    assert_eq!(cursor.slice(), "");

    cursor.checkpoint();
    assert_eq!(cursor.advance(), Some('h'));
    assert_eq!(cursor.advance(), Some('e'));
    assert_eq!(cursor.advance(), Some('l'));
    assert_eq!(cursor.advance(), Some('l'));
    assert_eq!(cursor.advance(), Some('o'));
    assert_eq!(cursor.slice(), "hello");

    cursor.checkpoint();
    assert_eq!(cursor.advance(), Some(','));
    assert_eq!(cursor.advance(), Some(' '));
    assert_eq!(cursor.advance(), Some('w'));
    assert_eq!(cursor.advance(), Some('o'));
    assert_eq!(cursor.advance(), Some('r'));
    assert_eq!(cursor.advance(), Some('l'));
    assert_eq!(cursor.advance(), Some('d'));
    assert_eq!(cursor.slice(), ", world");

    cursor.checkpoint();
    assert_eq!(cursor.advance(), Some('!'));
    assert_eq!(cursor.advance(), None);
    assert_eq!(cursor.slice(), "!");
}

#[test]
fn test_cursor_slice_with_unicode() {
    let mut cursor = Cursor::new("héllö, wørl∂¿");
    assert_eq!(cursor.source_len(), 19);

    cursor.checkpoint();
    assert_eq!(cursor.advance(), Some('h'));
    assert_eq!(cursor.advance(), Some('é'));
    assert_eq!(cursor.advance(), Some('l'));
    assert_eq!(cursor.advance(), Some('l'));
    assert_eq!(cursor.advance(), Some('ö'));
    assert_eq!(cursor.slice(), "héllö");

    cursor.checkpoint();
    assert_eq!(cursor.advance(), Some(','));
    assert_eq!(cursor.advance(), Some(' '));
    assert_eq!(cursor.advance(), Some('w'));
    assert_eq!(cursor.advance(), Some('ø'));
    assert_eq!(cursor.advance(), Some('r'));
    assert_eq!(cursor.advance(), Some('l'));
    assert_eq!(cursor.advance(), Some('∂'));
    assert_eq!(cursor.slice(), ", wørl∂");

    cursor.checkpoint();
    assert_eq!(cursor.advance(), Some('¿'));
    assert_eq!(cursor.advance(), None);
    assert_eq!(cursor.slice(), "¿");
}

#[test]
fn test_cursor_span_and_char_index() {
    let mut cursor = Cursor::new("aé b");
    cursor.checkpoint();
    cursor.advance();
    cursor.advance();
    assert_eq!(cursor.char_index(), 2);
    assert_eq!(cursor.pos(), 3);
    assert_eq!(cursor.span(), 0..3);
    // The span pops the checkpoint, so the next span starts at the start.
    cursor.advance();
    assert_eq!(cursor.span(), 0..4);
}

#[test]
fn test_cursor_at_end_agrees_with_remaining() {
    let mut cursor = Cursor::new("a\u{e9}");
    while !cursor.is_at_end() {
        assert!(cursor.remaining_len() > 0);
        assert!(cursor.pos() < cursor.source_len());
        assert!(cursor.advance().is_some());
    }
    assert_eq!(cursor.remaining_len(), 0);
    assert_eq!(cursor.pos(), cursor.source_len());
    assert_eq!(cursor.advance(), None);
}

#[test]
fn test_cursor_checkpoints_last_in_first_out() {
    let mut cursor = Cursor::new("abcd");
    assert_eq!(cursor.advance(), Some('a'));
    cursor.checkpoint();
    assert_eq!(cursor.advance(), Some('b'));
    cursor.checkpoint();
    assert_eq!(cursor.advance(), Some('c'));
    assert_eq!(cursor.span(), 2..3);
    assert_eq!(cursor.span(), 1..3);
    assert_eq!(cursor.pos(), 3);
    // With no checkpoint left, a span starts at the start of the text.
    assert_eq!(cursor.span(), 0..3);
}
