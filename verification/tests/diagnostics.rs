use helios::diagnostic::{Diagnostic, DiagnosticReporter, Location, Severity};
use helios::files::{Error, FileInspector, ManyFiles, OneFile};
use helios::span::TextSpan;

const FILE_A_NAME: &str = "a.hl";
const FILE_B_NAME: &str = "b.hl";

const FILE_A_SOURCE: &str = "let a = 0\nlet b = 1\r\nlet x = 2\r\n\nfoo\n";
const FILE_B_SOURCE: &str = "let x = 0\r\nlet y = 1\n\n\r\nlet z =\nbar";

const FILE_A_LINE_INDEXES: &[usize] = &[0, 10, 21, 32, 33, 37];
const FILE_B_LINE_INDEXES: &[usize] = &[0, 11, 21, 22, 24, 32];

fn check_line_indexes_and_ranges(file: &OneFile<&str>, indexes: &[usize]) {
    for (line_idx, byte_idx) in indexes.iter().enumerate() {
        let line_start = *byte_idx;
        assert_eq!(file.line_start(line_idx), Ok(line_start));
        assert_eq!(file.line_index((), line_start), Ok(line_idx));
        assert_eq!(file.line_number((), line_start), Ok(line_idx + 1));

        let line_end = {
            let next_line_start = indexes
                .get(line_idx + 1)
                .copied()
                .unwrap_or_else(|| indexes.last().copied().unwrap_or_default());

            if next_line_start == line_start {
                file.source().len()
            } else {
                next_line_start
            }
        };

        let expected_line_range = line_start..line_end;
        assert_eq!(file.line_range((), line_idx), Ok(expected_line_range));

        for inner_idx in ((line_start + 5)..line_end).step_by(5) {
            assert_eq!(file.line_index((), inner_idx), Ok(line_idx));
        }
    }

    assert!(file.line_start(indexes.len()).is_err());
}

fn check_last_line_is_empty(file: &OneFile<&str>, indexes: &[usize], expected: bool) {
    assert_eq!(
        file.line_range((), indexes.len() - 1).map(|range| range.is_empty()),
        Ok(expected)
    );
}

#[test]
fn test_compare_severity_ok() {
    let mut is_ok = true;

    for severity in &[Severity::Note, Severity::Note, Severity::Warning] {
        is_ok &= *severity < Severity::Error;
    }

    assert!(is_ok);
}

#[test]
fn test_compare_severity_not_ok() {
    let mut is_ok = true;

    for severity in &[Severity::Note, Severity::Error, Severity::Warning] {
        is_ok &= *severity < Severity::Error;
    }

    assert!(!is_ok);
}

#[test]
fn test_one_file_a() {
    let file_a = OneFile::new(FILE_A_NAME, FILE_A_SOURCE);
    assert_eq!(file_a.name(), &FILE_A_NAME);
    assert_eq!(file_a.source(), &FILE_A_SOURCE);
    assert_eq!(file_a.line_indexes(), FILE_A_LINE_INDEXES);
    assert_eq!(file_a.line_count(()), Ok(FILE_A_LINE_INDEXES.len()));
    check_line_indexes_and_ranges(&file_a, FILE_A_LINE_INDEXES);
    check_last_line_is_empty(&file_a, FILE_A_LINE_INDEXES, true);
}

#[test]
fn test_one_file_b() {
    let file_b = OneFile::new(FILE_B_NAME, FILE_B_SOURCE);
    assert_eq!(file_b.name(), &FILE_B_NAME);
    assert_eq!(file_b.source(), &FILE_B_SOURCE);
    assert_eq!(file_b.line_indexes(), FILE_B_LINE_INDEXES);
    assert_eq!(file_b.line_count(()), Ok(FILE_B_LINE_INDEXES.len()));
    check_line_indexes_and_ranges(&file_b, FILE_B_LINE_INDEXES);
    check_last_line_is_empty(&file_b, FILE_B_LINE_INDEXES, false);
}

#[test]
fn test_many_files() {
    let mut files = ManyFiles::new();
    let file_a = files.add(FILE_A_NAME, FILE_A_SOURCE);
    let file_b = files.add(FILE_B_NAME, FILE_B_SOURCE);

    assert!(files.get(file_a).is_ok());
    assert_eq!(files.name(file_a), Ok(FILE_A_NAME));
    assert_eq!(files.source(file_a), Ok(FILE_A_SOURCE));
    assert_eq!(files.line_count(file_a), Ok(FILE_A_LINE_INDEXES.len()));

    assert!(files.get(file_b).is_ok());
    assert_eq!(files.name(file_b), Ok(FILE_B_NAME));
    assert_eq!(files.source(file_b), Ok(FILE_B_SOURCE));
    assert_eq!(files.line_count(file_b), Ok(FILE_B_LINE_INDEXES.len()));
}

#[test]
fn test_text_span_from_range() {
    fn check(range: std::ops::Range<usize>, span: TextSpan) {
        assert_eq!(TextSpan::from(range), span);
    }

    check(0..2, TextSpan::new(0, 2));
    check(5..11, TextSpan::new(5, 6));
}

#[test]
fn test_many_files_missing_file() {
    let files: ManyFiles<&str> = ManyFiles::new();
    let id = helios::files::ManyFilesId(3);
    assert!(matches!(files.get(id), Err(Error::MissingFile)));
    assert_eq!(files.line_count(id), Err(Error::MissingFile));
}

#[test]
fn test_line_range_out_of_bounds() {
    let file = OneFile::new("c.hl", "ab\ncd");
    assert_eq!(file.line_range((), 2), Err(Error::OutOfBounds { given: 2, max: 1 }));
    assert_eq!(file.line_start(5), Err(Error::OutOfBounds { given: 5, max: 1 }));
}

#[test]
fn test_line_index_past_the_end() {
    let file = OneFile::new("c.hl", "ab\ncd");
    assert_eq!(file.line_index((), 100), Ok(1));
    assert_eq!(file.line_index((), 3), Ok(1));
    assert_eq!(file.line_index((), 2), Ok(0));
}

#[test]
fn test_column_index_and_number() {
    // "é" takes two bytes, so the byte index 4 is the third character.
    let file = OneFile::new("u.hl", "x\naéb");
    assert_eq!(file.column_index((), 1, 2), Ok(0));
    assert_eq!(file.column_index((), 1, 3), Ok(1));
    assert_eq!(file.column_index((), 1, 5), Ok(2));
    assert_eq!(file.column_number((), 1, 5), Ok(3));
    assert_eq!(file.column_index((), 1, 100), Ok(3));
    assert_eq!(file.column_index((), 7, 0), Err(Error::OutOfBounds { given: 7, max: 1 }));
}

#[test]
fn test_text_span_bounds_and_display() {
    let span = TextSpan::from_bounds(3, 8);
    assert_eq!(span.start(), 3);
    assert_eq!(span.length(), 5);
    assert_eq!(span.end(), 8);
    assert_eq!(span.to_display_string(), "3..8");
    let joined = TextSpan::from_spans(TextSpan::new(1, 2), TextSpan::new(10, 4));
    assert_eq!(joined, TextSpan::new(1, 13));
    assert_eq!(TextSpan::zero_width(7).length(), 0);
    assert_eq!(TextSpan::from(5..2), TextSpan::new(5, 0));
}

#[test]
fn test_diagnostic_builders() {
    let d: Diagnostic<u8> = Diagnostic::warning("Something odd".to_string())
        .location(Location::new(4u8, 1..3))
        .severity(Severity::Bug);
    assert_eq!(d.severity, Severity::Bug);
    assert_eq!(d.title, "Something odd");
    assert_eq!(d.location, Location::new(4u8, 1..3));
    assert!(d.description.is_none());
    assert!(d.hint.is_none());
    assert_eq!(Severity::default(), Severity::Note);
    assert_eq!(Severity::Error.rank(), 2);
    assert!(Severity::Warning.is_less_than(Severity::Error));
}

#[test]
fn test_diagnostic_reporter() {
    let mut reporter: DiagnosticReporter<usize> = DiagnosticReporter::new();
    assert!(reporter.diagnostics.is_empty());
    reporter.report(Diagnostic::error("first".to_string()));
    reporter.report(Diagnostic::warning("second".to_string()));
    assert_eq!(reporter.diagnostics.len(), 2);
    assert_eq!(reporter.diagnostics[0].title, "first");
    assert_eq!(reporter.diagnostics[1].severity, Severity::Warning);
    reporter.clear();
    assert!(reporter.diagnostics.is_empty());
}

#[test]
fn test_error_texts() {
    assert_eq!(Error::MissingFile.to_display_string(), "missing file");
    assert_eq!(
        Error::OutOfBounds { given: 7, max: 5 }.to_display_string(),
        "the provided index (7) is outside the maximum index of 5"
    );
    assert_eq!(Error::IoError("gone".to_string()).to_display_string(), "an IO error occurred: gone");
    assert_eq!(
        Error::FmtError(std::fmt::Error).to_display_string(),
        format!("a formatting error occurred: {}", std::fmt::Error)
    );
}

#[test]
fn test_many_files_finds_each_added_file() {
    let mut files = ManyFiles::new();
    let names = ["a.hl", "b.hl", "c.hl"];
    let sources = ["let a = 1", "", "b\nc"];
    let ids: Vec<_> = (0..3).map(|i| files.add(names[i], sources[i])).collect();
    assert_eq!(ids[0], helios::files::ManyFilesId::default());
    for i in 0..3 {
        let f = files.get(ids[i]).unwrap();
        assert_eq!(f.name(), &names[i]);
        assert_eq!(f.source(), &sources[i]);
    }
    assert!(files.get(helios::files::ManyFilesId(3)).is_err());
}
