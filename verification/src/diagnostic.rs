//! Diagnostics: what went wrong in a source file, where, and how badly.

use std::ops::Range;
use vstd::prelude::*;

use crate::formatting::{FormattedString, SegmentView};

verus! {

/// A place in a source file: the file and a byte range in it.
#[derive(Debug, Default, PartialEq, Eq)]
pub struct Location<FileId> {
    pub file_id: FileId,
    pub range: Range<usize>,
}

impl<FileId: Clone> Clone for Location<FileId> {
    fn clone(&self) -> (l: Self)
        ensures
            l.range == self.range,
    {
        Location { file_id: self.file_id.clone(), range: self.range.start..self.range.end }
    }
}

impl<FileId> Location<FileId> {
    /// Constructs a location in the given file, over the given byte range.
    pub fn new(file_id: FileId, range: Range<usize>) -> (l: Self)
        ensures
            l.file_id == file_id,
            l.range == range,
    {
        Location { file_id, range }
    }
}

/// How serious a diagnostic is. The variants are declared from the least to
/// the most serious, so that the derived order ranks them.
#[derive(Clone, Copy, Debug, PartialEq, Eq, PartialOrd, Ord, Hash, Structural)]
pub enum Severity {
    Note,
    Warning,
    Error,
    Bug,
}

impl Severity {
    /// The rank of the severity: notes rank lowest (0) and bugs highest (3).
    pub open spec fn rank_spec(self) -> u8 {
        match self {
            Severity::Note => 0,
            Severity::Warning => 1,
            Severity::Error => 2,
            Severity::Bug => 3,
        }
    }

    /// Returns the rank of the severity: notes rank lowest (0) and bugs
    /// highest (3).
    pub fn rank(self) -> (r: u8)
        ensures
            r == self.rank_spec(),
    {
        match self {
            Severity::Note => 0,
            Severity::Warning => 1,
            Severity::Error => 2,
            Severity::Bug => 3,
        }
    }

    /// Checks whether this severity is less serious than `other`.
    pub fn is_less_than(self, other: Severity) -> (b: bool)
        ensures
            b == (self.rank_spec() < other.rank_spec()),
    {
        self.rank() < other.rank()
    }

}

impl Default for Severity {
    /// The default severity is the least serious one.
    fn default() -> (s: Severity)
        ensures
            s == Severity::Note,
    {
        Severity::Note
    }
}

/// A diagnostic: an issue found in a Helios source file, such as an error
/// or a warning, with where it was found and what to tell the user.
#[derive(Debug, Default, Eq, PartialEq)]
pub struct Diagnostic<FileId> {
    pub location: Location<FileId>,
    pub severity: Severity,
    pub title: String,
    pub description: Option<FormattedString>,
    pub message: FormattedString,
    pub hint: Option<FormattedString>,
}

impl<FileId: Default> Diagnostic<FileId> {
    /// Constructs a diagnostic from all its parts.
    pub fn new(
        location: Location<FileId>,
        severity: Severity,
        title: String,
        description: Option<FormattedString>,
        message: FormattedString,
        hint: Option<FormattedString>,
    ) -> (d: Self)
        ensures
            d.location == location,
            d.severity == severity,
            d.title@ == title@,
            d.description == description,
            d.message == message,
            d.hint == hint,
    {
        Diagnostic { location, severity, title, description, message, hint }
    }

    /// A diagnostic of the given severity and title, at the default location
    /// of the file, with an empty message and no description or hint.
    pub fn with_title(severity: Severity, title: String) -> (d: Self)
        ensures
            d.severity == severity,
            d.title@ == title@,
            d.location.range == (0usize..0usize),
            d.description is None,
            d.message@ == Seq::<SegmentView>::empty(),
            d.hint is None,
    {
        Diagnostic {
            location: Location { file_id: FileId::default(), range: 0..0 },
            severity,
            title,
            description: None,
            message: FormattedString::new(),
            hint: None,
        }
    }

    /// A bug with the given title.
    pub fn bug(title: String) -> (d: Self)
        ensures
            d.severity == Severity::Bug,
            d.title@ == title@,
            d.location.range == (0usize..0usize),
            d.description is None,
            d.message@ == Seq::<SegmentView>::empty(),
            d.hint is None,
    {
        Self::with_title(Severity::Bug, title)
    }

    /// An error with the given title.
    pub fn error(title: String) -> (d: Self)
        ensures
            d.severity == Severity::Error,
            d.title@ == title@,
            d.location.range == (0usize..0usize),
            d.description is None,
            d.message@ == Seq::<SegmentView>::empty(),
            d.hint is None,
    {
        Self::with_title(Severity::Error, title)
    }

    /// A warning with the given title.
    pub fn warning(title: String) -> (d: Self)
        ensures
            d.severity == Severity::Warning,
            d.title@ == title@,
            d.location.range == (0usize..0usize),
            d.description is None,
            d.message@ == Seq::<SegmentView>::empty(),
            d.hint is None,
    {
        Self::with_title(Severity::Warning, title)
    }

    /// A note with the given title.
    pub fn note(title: String) -> (d: Self)
        ensures
            d.severity == Severity::Note,
            d.title@ == title@,
            d.location.range == (0usize..0usize),
            d.description is None,
            d.message@ == Seq::<SegmentView>::empty(),
            d.hint is None,
    {
        Self::with_title(Severity::Note, title)
    }

    /// Returns the diagnostic with the given severity.
    pub fn severity(self, severity: Severity) -> (d: Self)
        ensures
            d == (Diagnostic { severity, ..self }),
    {
        Diagnostic { severity, ..self }
    }

    /// Returns the diagnostic with the given title.
    pub fn title(self, title: String) -> (d: Self)
        ensures
            d == (Diagnostic { title, ..self }),
    {
        Diagnostic { title, ..self }
    }

    /// Returns the diagnostic with the given description.
    pub fn description(self, description: FormattedString) -> (d: Self)
        ensures
            d == (Diagnostic { description: Some(description), ..self }),
    {
        Diagnostic { description: Some(description), ..self }
    }

    /// Returns the diagnostic with the given message.
    pub fn message(self, message: FormattedString) -> (d: Self)
        ensures
            d == (Diagnostic { message, ..self }),
    {
        Diagnostic { message, ..self }
    }

    /// Returns the diagnostic at the given location.
    pub fn location(self, location: Location<FileId>) -> (d: Self)
        ensures
            d == (Diagnostic { location, ..self }),
    {
        Diagnostic { location, ..self }
    }

    /// Returns the diagnostic with the given hint.
    pub fn hint(self, hint: FormattedString) -> (d: Self)
        ensures
            d == (Diagnostic { hint: Some(hint), ..self }),
    {
        Diagnostic { hint: Some(hint), ..self }
    }
}

/// A collector of diagnostics, kept in the order they were reported.
pub struct DiagnosticReporter<FileId> {
    pub diagnostics: Vec<Diagnostic<FileId>>,
}

impl<FileId> DiagnosticReporter<FileId> {
    /// Creates a reporter that holds no diagnostic.
    pub fn new() -> (r: Self)
        ensures
            r.diagnostics@ == Seq::<Diagnostic<FileId>>::empty(),
    {
        DiagnosticReporter { diagnostics: Vec::new() }
    }

    /// Adds a diagnostic after those already reported.
    pub fn report(&mut self, diagnostic: Diagnostic<FileId>)
        ensures
            final(self).diagnostics@ == old(self).diagnostics@.push(diagnostic),
    {
        self.diagnostics.push(diagnostic)
    }

    /// Forgets every diagnostic reported.
    pub fn clear(&mut self)
        ensures
            final(self).diagnostics@ == Seq::<Diagnostic<FileId>>::empty(),
    {
        self.diagnostics.clear()
    }
}


} // verus!
