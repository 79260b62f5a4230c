use helios::location::HeliosDatabase;
use helios::query::{BindingData, Cancelled, FileData};
use std::sync::Arc;

const FILE_ID: usize = 0;
const SOURCE: &str = "let a = 0\nlet b = 1\n\nlet c = 2\n";

#[test]
fn test_source_location_queries() {
    let mut db = HeliosDatabase::default();
    db.set_source(FILE_ID, Arc::new(SOURCE.to_string()));

    assert_eq!(db.source(FILE_ID), Arc::new(SOURCE.to_string()));
    assert_eq!(db.source_len(FILE_ID), 31);

    let indexes = vec![0, 10, 20, 21, 31];
    assert_eq!(db.source_line_indexes(FILE_ID), Arc::new(indexes));

    assert_eq!(db.source_line_start(FILE_ID, 0), 0);
    assert_eq!(db.source_line_start(FILE_ID, 1), 10);
    assert_eq!(db.source_line_start(FILE_ID, 2), 20);
    assert_eq!(db.source_line_start(FILE_ID, 3), 21);
    assert_eq!(db.source_line_start(FILE_ID, 4), 31);

    assert_eq!(db.source_line_range(FILE_ID, 0), 0..10);
    assert_eq!(db.source_line_range(FILE_ID, 1), 10..20);
    assert_eq!(db.source_line_range(FILE_ID, 2), 20..21);
    assert_eq!(db.source_line_range(FILE_ID, 3), 21..31);
    assert_eq!(db.source_line_range(FILE_ID, 4), 31..31);

    assert_eq!(db.source_line_index(FILE_ID, 0), 0);
    assert_eq!(db.source_line_index(FILE_ID, 1), 0);
    assert_eq!(db.source_line_index(FILE_ID, 5), 0);
    assert_eq!(db.source_line_index(FILE_ID, 9), 0);
    assert_eq!(db.source_line_index(FILE_ID, 10), 1);
    assert_eq!(db.source_line_index(FILE_ID, 11), 1);
    assert_eq!(db.source_line_index(FILE_ID, 15), 1);
    assert_eq!(db.source_line_index(FILE_ID, 19), 1);
    assert_eq!(db.source_line_index(FILE_ID, 20), 2);
    assert_eq!(db.source_line_index(FILE_ID, 21), 3);
    assert_eq!(db.source_line_index(FILE_ID, 22), 3);
    assert_eq!(db.source_line_index(FILE_ID, 26), 3);
    assert_eq!(db.source_line_index(FILE_ID, 30), 3);
    assert_eq!(db.source_line_index(FILE_ID, 31), 4);

    assert_eq!(db.source_column_index(FILE_ID, 0, 0), 0);
    assert_eq!(db.source_column_index(FILE_ID, 0, 1), 1);
    assert_eq!(db.source_column_index(FILE_ID, 0, 5), 5);
    assert_eq!(db.source_column_index(FILE_ID, 0, 9), 9);
    assert_eq!(db.source_column_index(FILE_ID, 1, 10), 0);
    assert_eq!(db.source_column_index(FILE_ID, 1, 11), 1);
    assert_eq!(db.source_column_index(FILE_ID, 1, 15), 5);
    assert_eq!(db.source_column_index(FILE_ID, 1, 19), 9);
    assert_eq!(db.source_column_index(FILE_ID, 2, 20), 0);
    assert_eq!(db.source_column_index(FILE_ID, 3, 21), 0);
    assert_eq!(db.source_column_index(FILE_ID, 3, 22), 1);
    assert_eq!(db.source_column_index(FILE_ID, 3, 26), 5);
    assert_eq!(db.source_column_index(FILE_ID, 3, 30), 9);
    assert_eq!(db.source_column_index(FILE_ID, 4, 31), 0);

    assert_eq!(db.source_position_at_offset(FILE_ID, 0), (0, 0));
    assert_eq!(db.source_position_at_offset(FILE_ID, 1), (0, 1));
    assert_eq!(db.source_position_at_offset(FILE_ID, 5), (0, 5));
    assert_eq!(db.source_position_at_offset(FILE_ID, 9), (0, 9));
    assert_eq!(db.source_position_at_offset(FILE_ID, 10), (1, 0));
    assert_eq!(db.source_position_at_offset(FILE_ID, 11), (1, 1));
    assert_eq!(db.source_position_at_offset(FILE_ID, 15), (1, 5));
    assert_eq!(db.source_position_at_offset(FILE_ID, 19), (1, 9));
    assert_eq!(db.source_position_at_offset(FILE_ID, 20), (2, 0));
    assert_eq!(db.source_position_at_offset(FILE_ID, 21), (3, 0));
    assert_eq!(db.source_position_at_offset(FILE_ID, 22), (3, 1));
    assert_eq!(db.source_position_at_offset(FILE_ID, 26), (3, 5));
    assert_eq!(db.source_position_at_offset(FILE_ID, 30), (3, 9));
    assert_eq!(db.source_position_at_offset(FILE_ID, 31), (4, 0));
}

#[test]
fn test_set_source_replaces_text() {
    let mut db = HeliosDatabase::new();
    db.set_source(1, Arc::new("ab".to_string()));
    db.set_source(2, Arc::new("xyz".to_string()));
    db.set_source(1, Arc::new("abcd".to_string()));
    assert_eq!(db.source_len(1), 4);
    assert_eq!(db.source_len(2), 3);
    assert_eq!(*db.source(1), "abcd".to_string());
}

#[test]
fn test_offset_at_position_round_trip() {
    let mut db = HeliosDatabase::default();
    db.set_source(FILE_ID, Arc::new(SOURCE.to_string()));
    for offset in 0..=SOURCE.len() {
        let position = db.source_position_at_offset(FILE_ID, offset);
        assert_eq!(db.source_offset_at_position(FILE_ID, position), offset);
    }
}

#[test]
fn test_parse_and_diagnostics_queries() {
    let mut db = HeliosDatabase::default();
    db.set_source(FILE_ID, Arc::new("let x = ¤".to_string()));
    let parse = db.parse(FILE_ID);
    assert!(!parse.messages().is_empty());
    let diagnostics = db.diagnostics(FILE_ID);
    assert_eq!(diagnostics.len(), parse.messages().len());
    assert_eq!(diagnostics[0].title, "Unknown character");
    assert_eq!(diagnostics[0].location.range, parse.messages()[0].location.range);
}

#[test]
fn test_query_data() {
    assert_eq!(Cancelled.to_display_string(), "Cancelled");
    let b = BindingData { identifier: "x".to_string() };
    assert_eq!(b.clone(), b);
    let f = FileData { path: "a.hl".to_string() };
    assert_eq!(f.path, "a.hl");
}

#[test]
fn test_position_round_trip_on_ascii() {
    let mut db = HeliosDatabase::new();
    db.set_source(FILE_ID, Arc::new(SOURCE.to_string()));
    for offset in 0..=SOURCE.len() {
        let position = db.source_position_at_offset(FILE_ID, offset);
        assert_eq!(db.source_offset_at_position(FILE_ID, position), offset);
    }
}

#[test]
fn test_parse_reports_for_the_file_asked_for() {
    let mut db = HeliosDatabase::new();
    db.set_source(1, Arc::new("let = 1".to_string()));
    db.set_source(2, Arc::new("let y = ¤".to_string()));
    let parse = db.parse(2);
    assert!(!parse.messages().is_empty());
    assert!(parse.messages().iter().all(|m| m.location.file_id == 2));
    let diagnostics = db.diagnostics(2);
    assert_eq!(diagnostics.len(), parse.messages().len());
    assert!(diagnostics.iter().all(|d| d.location.file_id == 2));
    assert_eq!(parse.green_node().to_string(), "let y = ¤");
}
