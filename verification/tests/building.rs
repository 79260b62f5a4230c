use helios::building::{build_status, check_source, first_at_each_location, Error};
use helios::diagnostic::{Diagnostic, Location, Severity};
use helios::files::ManyFilesId;

fn at(file: usize, range: std::ops::Range<usize>) -> Diagnostic<ManyFilesId> {
    Diagnostic::error("e".to_string()).location(Location::new(ManyFilesId(file), range))
}

#[test]
fn test_build_error_texts() {
    assert_eq!(Error::BuildError(1).to_display_string(), "Failed to build due to 1 previous error");
    assert_eq!(Error::BuildError(0).to_display_string(), "Failed to build due to 0 previous errors");
    assert_eq!(Error::BuildError(12).to_display_string(), "Failed to build due to 12 previous errors");
    assert_eq!(
        Error::IoError("no such file".to_string()).to_display_string(),
        "Failed to build due to an IO error: no such file"
    );
}

#[test]
fn test_first_at_each_location() {
    let ds = vec![at(0, 1..2), at(0, 1..2), at(0, 2..3), at(1, 1..2), at(0, 2..3), at(0, 1..3)];
    assert_eq!(first_at_each_location(&ds), vec![0, 2, 3, 5]);
    assert_eq!(first_at_each_location(&[]), Vec::<usize>::new());
}

#[test]
fn test_build_status() {
    assert_eq!(build_status(&[], 0), Ok(()));
    assert_eq!(build_status(&[Severity::Error, Severity::Bug], 2), Err(Error::BuildError(2)));
    assert_eq!(build_status(&[Severity::Error, Severity::Warning], 2), Ok(()));
    assert_eq!(build_status(&[Severity::Note], 1), Ok(()));
}

#[test]
fn test_check_clean_source() {
    let c = check_source(ManyFilesId(0), "let a = 1\n");
    assert!(c.diagnostics.is_empty());
    assert!(c.reported.is_empty());
    assert_eq!(c.result, Ok(()));
}

#[test]
fn test_check_source_with_errors() {
    let c = check_source(ManyFilesId(0), "let = ¤\n");
    assert!(!c.diagnostics.is_empty());
    assert_eq!(c.diagnostics.len(), c.parse.messages().len());
    assert!(c.diagnostics.iter().all(|d| d.severity == Severity::Error));
    assert_eq!(c.reported, first_at_each_location(&c.diagnostics));
    assert_eq!(c.result, Err(Error::BuildError(c.reported.len())));
}
