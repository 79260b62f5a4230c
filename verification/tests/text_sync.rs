use helios::text_sync::{
    apply_content_changes, content_changes_fit, decode_utf16_lossy, encode_utf16, range_over,
    ChangeRange, ContentChange, Position,
};

fn change(text: &str, s_l: u32, s_c: u32, e_l: u32, e_c: u32) -> ContentChange {
    ContentChange {
        range: Some(ChangeRange {
            start: Position { line: s_l, character: s_c },
            end: Position { line: e_l, character: e_c },
        }),
        text: text.to_string(),
    }
}

#[test]
fn notification_test_apply_content_changes() {
    let old_text = "let a = 1";

    // "let 🍕 = 1"
    let event_1 = change("🍕", 0, 4, 0, 5);
    // "let 🍕🚀 = 1"
    let event_2 = change("🚀", 0, 6, 0, 6);
    // "let 🍕\n🚀 = 1"
    let event_3 = change("\n", 0, 6, 0, 6);
    // "let 🍕\n.🚀 = 1"
    let event_4 = change(".", 1, 0, 1, 0);

    let content_changes = vec![event_1, event_2, event_3, event_4];

    let new_text = apply_content_changes(old_text, content_changes);
    assert_eq!(new_text, "let 🍕\n.🚀 = 1".to_string());
}

#[test]
fn notifications_test_apply_content_changes() {
    fn check(old_text: &str, changes: Vec<ContentChange>, expected_text: &str) -> String {
        let new_text = apply_content_changes(old_text, changes);
        assert_eq!(new_text, expected_text);
        expected_text.to_string()
    }

    // Check at every change event
    let text = "let a = 1".to_string();
    let text = check(&text, vec![change("🍕", 0, 4, 0, 5)], "let 🍕 = 1");
    let text = check(&text, vec![change("🚀", 0, 6, 0, 6)], "let 🍕🚀 = 1");
    let text = check(&text, vec![change("\n", 0, 6, 0, 6)], "let 🍕\n🚀 = 1");
    let text = check(&text, vec![change(".", 1, 0, 1, 0)], "let 🍕\n.🚀 = 1");
    assert_eq!(text, "let 🍕\n.🚀 = 1");

    // Check after all change events
    check(
        "let a = 1",
        vec![
            change("🍕", 0, 4, 0, 5),
            change("🚀", 0, 6, 0, 6),
            change("\n", 0, 6, 0, 6),
            change(".", 1, 0, 1, 0),
        ],
        "let 🍕\n.🚀 = 1",
    );
}

#[test]
fn test_replace_whole_text() {
    let changes = vec![ContentChange { range: None, text: "new".to_string() }];
    assert!(content_changes_fit("old", &changes));
    assert_eq!(apply_content_changes("old", changes), "new");
}

#[test]
fn test_changes_that_do_not_fit() {
    assert!(!content_changes_fit("ab", &vec![change("x", 1, 0, 1, 0)]));
    assert!(!content_changes_fit("ab", &vec![change("x", 0, 1, 0, 5)]));
    assert!(!content_changes_fit("ab", &vec![change("x", 0, 2, 0, 1)]));
    assert!(content_changes_fit("ab", &vec![change("x", 0, 2, 0, 2)]));
}

#[test]
fn test_utf16_round_trip() {
    for s in ["", "abc", "é🍕\n∂", "\u{FFFF}\u{10000}"] {
        let units = encode_utf16(s);
        assert_eq!(units, s.encode_utf16().collect::<Vec<u16>>());
        assert_eq!(decode_utf16_lossy(&units), s);
    }
    // An unpaired surrogate is read as U+FFFD.
    assert_eq!(decode_utf16_lossy(&vec![0x61, 0xD800, 0x62]), "a\u{FFFD}b");
    assert_eq!(decode_utf16_lossy(&vec![0xDC00]), "\u{FFFD}");
}

#[test]
fn test_range_over_lines() {
    let units = encode_utf16("ab\ncd\n");
    let r = range_over(
        &units,
        ChangeRange { start: Position { line: 1, character: 1 }, end: Position { line: 2, character: 0 } },
    );
    assert_eq!(r, 4..6);
}
