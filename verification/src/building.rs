//! Building a source file: parsing it, choosing the diagnostics to report
//! (the first one at each location) and deciding whether the build failed.

use vstd::prelude::*;
use vstd::string::*;

use crate::diagnostic::{Diagnostic, Location, Severity};
use crate::files::ManyFilesId;
use crate::parse::{parse, parsed_from, Parse};
use crate::text::{decimal, decimal_spec};
use crate::utf8::byte_len;

verus! {

/// Why a build failed.
#[derive(Clone, Debug, PartialEq, Eq)]
pub enum Error {
    /// The file has errors; the number of those reported is given.
    BuildError(usize),
    /// The file could not be read.
    IoError(String),
}

impl Error {
    /// The text that tells the user why the build failed.
    pub open spec fn display_spec(&self) -> Seq<char> {
        match self {
            Error::BuildError(count) => "Failed to build due to "@ + decimal_spec(*count as nat)
                + " previous error"@ + if *count == 1 {
                ""@
            } else {
                "s"@
            },
            Error::IoError(error) => "Failed to build due to an IO error: "@ + error@,
        }
    }

    /// Returns the text that tells the user why the build failed.
    pub fn to_display_string(&self) -> (s: String)
        ensures
            s@ == self.display_spec(),
    {
        match self {
            Error::BuildError(count) => {
                let mut s = String::from_str("Failed to build due to ");
                let n = decimal(*count);
                s.append(n.as_str());
                s.append(" previous error");
                if *count == 1 {
                    s.append("");
                } else {
                    s.append("s");
                }
                s
            },
            Error::IoError(error) => {
                let mut s = String::from_str("Failed to build due to an IO error: ");
                s.append(error.as_str());
                s
            },
        }
    }
}

/// The indexes of the locations that no earlier location equals, in order.
pub open spec fn first_location_indices(locs: Seq<Location<ManyFilesId>>) -> Seq<usize>
    decreases locs.len(),
{
    if locs.len() == 0 {
        Seq::empty()
    } else {
        let prev = first_location_indices(locs.drop_last());
        if exists|j: int| 0 <= j < locs.len() - 1 && locs[j] == locs.last() {
            prev
        } else {
            prev.push((locs.len() - 1) as usize)
        }
    }
}

/// The locations of the diagnostics, in order.
pub open spec fn locations(ds: Seq<Diagnostic<ManyFilesId>>) -> Seq<Location<ManyFilesId>> {
    ds.map_values(|d: Diagnostic<ManyFilesId>| d.location)
}

/// Checks whether two locations name the same file and the same range.
fn same_location(a: &Location<ManyFilesId>, b: &Location<ManyFilesId>) -> (r: bool)
    ensures
        r == (*a == *b),
{
    a.file_id == b.file_id && a.range.start == b.range.start && a.range.end == b.range.end
}

/// Returns the indexes of the diagnostics that are the first at their
/// location, in order: a diagnostic at a location that an earlier one
/// already has is not reported again.
pub fn first_at_each_location(diagnostics: &[Diagnostic<ManyFilesId>]) -> (r: Vec<usize>)
    ensures
        r@ == first_location_indices(locations(diagnostics@)),
{
    let ghost locs = locations(diagnostics@);
    let mut r: Vec<usize> = Vec::new();
    let mut i: usize = 0;
    proof {
        assert(locs.take(0) =~= Seq::<Location<ManyFilesId>>::empty());
    }
    while i < diagnostics.len()
        invariant
            locs == locations(diagnostics@),
            i <= diagnostics@.len(),
            r@ == first_location_indices(locs.take(i as int)),
        decreases diagnostics@.len() - i,
    {
        let mut seen = false;
        let mut j: usize = 0;
        while j < i
            invariant
                locs == locations(diagnostics@),
                i < diagnostics@.len(),
                j <= i,
                seen == exists|k: int| 0 <= k < j && locs[k] == locs[i as int],
            decreases i - j,
        {
            proof {
                assert(locs[j as int] == diagnostics@[j as int].location);
                assert(locs[i as int] == diagnostics@[i as int].location);
            }
            if same_location(&diagnostics[j].location, &diagnostics[i].location) {
                seen = true;
            }
            j = j + 1;

        }
        proof {
            let t = locs.take(i + 1);
            assert(t.drop_last() =~= locs.take(i as int));
            assert(t.last() == locs[i as int]);
            assert((exists|k: int| 0 <= k < t.len() - 1 && t[k] == t.last()) == seen) by {
                if seen {
                    let k = choose|k: int| 0 <= k < i && locs[k] == locs[i as int];
                    assert(t[k] == t.last());
                }
                if exists|k: int| 0 <= k < t.len() - 1 && t[k] == t.last() {
                    let k = choose|k: int| 0 <= k < t.len() - 1 && t[k] == t.last();
                    assert(locs[k] == locs[i as int]);
                }
            }
        }
        if !seen {
            r.push(i);
        }
        i = i + 1;
    }
    proof {
        assert(locs.take(diagnostics@.len() as int) =~= locs);
    }
    r
}

/// Each location is reported once: the indexes chosen are increasing, their
/// locations differ from one another, and every location is that of a
/// diagnostic chosen.
pub proof fn lemma_each_location_once(locs: Seq<Location<ManyFilesId>>)
    requires
        locs.len() <= usize::MAX,
    ensures
        forall|k: int|
            0 <= k < first_location_indices(locs).len() ==> #[trigger] first_location_indices(
                locs,
            )[k] < locs.len(),
        forall|k: int, l: int|
            0 <= k < l < first_location_indices(locs).len() ==> #[trigger] first_location_indices(
                locs,
            )[k] < #[trigger] first_location_indices(locs)[l] && locs[first_location_indices(
                locs,
            )[k] as int] != locs[first_location_indices(locs)[l] as int],
        forall|j: int|
            0 <= j < locs.len() ==> exists|k: int|
                0 <= k < first_location_indices(locs).len() && locs[first_location_indices(locs)[k] as int]
                    == #[trigger] locs[j],
    decreases locs.len(),
{
    if locs.len() > 0 {
        let d = locs.drop_last();
        lemma_each_location_once(d);
        let prev = first_location_indices(d);
        let r = first_location_indices(locs);
        assert forall|k: int| 0 <= k < prev.len() implies locs[prev[k] as int] == d[prev[k] as int] by {}
        if exists|j: int| 0 <= j < locs.len() - 1 && locs[j] == locs.last() {
            let j = choose|j: int| 0 <= j < locs.len() - 1 && locs[j] == locs.last();
            assert(r == prev);
            assert(d[j] == locs[j]);
            assert forall|i: int| 0 <= i < locs.len() implies exists|k: int|
                0 <= k < r.len() && locs[r[k] as int] == #[trigger] locs[i] by {
                if i < locs.len() - 1 {
                    assert(d[i] == locs[i]);
                } else {
                    assert(locs[i] == d[j]);
                }
            }
        } else {
            assert(r == prev.push((locs.len() - 1) as usize));
            assert forall|i: int| 0 <= i < locs.len() implies exists|k: int|
                0 <= k < r.len() && locs[r[k] as int] == #[trigger] locs[i] by {
                if i < locs.len() - 1 {
                    assert(d[i] == locs[i]);
                    let k = choose|k: int| 0 <= k < prev.len() && d[prev[k] as int] == #[trigger] d[i];
                    assert(r[k] == prev[k]);
                } else {
                    assert(r[prev.len() as int] == locs.len() - 1);
                }
            }
            assert forall|k: int, l: int| 0 <= k < l < r.len() implies #[trigger] r[k] < #[trigger] r[l]
                && locs[r[k] as int] != locs[r[l] as int] by {
                if l < prev.len() {
                    assert(r[k] == prev[k] && r[l] == prev[l]);
                } else {
                    assert(r[k] == prev[k]);
                    assert(r[l] == locs.len() - 1);
                }
            }
        }
    }
}

/// Whether a build with diagnostics of these severities succeeds: there are
/// none, or one of them is less serious than an error.
pub open spec fn build_ok(severities: Seq<Severity>) -> bool {
    severities.len() == 0 || exists|i: int|
        0 <= i < severities.len() && severities[i].rank_spec() < Severity::Error.rank_spec()
}

/// Returns whether a build with diagnostics of these severities succeeds,
/// or the error that counts the diagnostics reported.
pub fn build_status(severities: &[Severity], reported: usize) -> (r: Result<(), Error>)
    ensures
        r == if build_ok(severities@) {
            Ok::<(), Error>(())
        } else {
            Err(Error::BuildError(reported))
        },
{
    let mut any_less = false;
    let mut i: usize = 0;
    while i < severities.len()
        invariant
            i <= severities@.len(),
            any_less == exists|k: int|
                0 <= k < i && severities@[k].rank_spec() < Severity::Error.rank_spec(),
        decreases severities@.len() - i,
    {
        if severities[i].is_less_than(Severity::Error) {
            any_less = true;
        }
        i = i + 1;
    }
    if severities.len() == 0 || any_less {
        Ok(())
    } else {
        Err(Error::BuildError(reported))
    }
}

/// The severities of the diagnostics, in order.
pub open spec fn severities(ds: Seq<Diagnostic<ManyFilesId>>) -> Seq<Severity> {
    ds.map_values(|d: Diagnostic<ManyFilesId>| d.severity)
}

/// What building a source file found: its parse, the diagnostics of the
/// parse's messages (one per message, in order), the indexes of those to
/// report, and whether the build succeeded.
pub struct Checked {
    pub parse: Parse<ManyFilesId>,
    pub diagnostics: Vec<Diagnostic<ManyFilesId>>,
    pub reported: Vec<usize>,
    pub result: Result<(), Error>,
}

/// Parses the source text of a file and finds what a build of it reports.
pub fn check_source(file_id: ManyFilesId, source: &str) -> (c: Checked)
    requires
        byte_len(source@) <= u32::MAX,
    ensures
        parsed_from(c.parse, file_id, source@),
        c.diagnostics@.len() == c.parse.messages_spec().len(),
        forall|i: int|
            0 <= i < c.diagnostics@.len() ==> c.parse.messages_spec()[i].reported_by(
                #[trigger] c.diagnostics@[i],
            ),
        c.reported@ == first_location_indices(locations(c.diagnostics@)),
        c.result == if build_ok(severities(c.diagnostics@)) {
            Ok::<(), Error>(())
        } else {
            Err(Error::BuildError(c.reported@.len() as usize))
        },
        c.result is Ok <==> c.diagnostics@.len() == 0,
{
    let parse = parse(file_id, source);
    let messages = parse.messages();
    let mut diagnostics: Vec<Diagnostic<ManyFilesId>> = Vec::new();
    let mut levels: Vec<Severity> = Vec::new();
    let mut i: usize = 0;
    while i < messages.len()
        invariant
            messages@ == parse.messages_spec(),
            forall|j: int| 0 <= j < messages@.len() ==> (#[trigger] messages@[j]).reportable(),
            i <= messages@.len(),
            diagnostics@.len() == i,
            levels@ == severities(diagnostics@),
            forall|j: int| 0 <= j < i ==> messages@[j].reported_by(#[trigger] diagnostics@[j]),
        decreases messages@.len() - i,
    {
        let d = messages[i].generate_diagnostic();
        levels.push(d.severity);
        diagnostics.push(d);
        proof {
            assert(levels@ =~= severities(diagnostics@));
        }
        i = i + 1;
    }
    let reported = first_at_each_location(diagnostics.as_slice());
    let result = build_status(levels.as_slice(), reported.len());
    proof {
        if diagnostics@.len() > 0 {
            assert forall|k: int| 0 <= k < levels@.len() implies !(levels@[k].rank_spec()
                < Severity::Error.rank_spec()) by {
                assert(levels@[k] == diagnostics@[k].severity);
            }
        }
    }
    Checked { parse, diagnostics, reported, result }
}

} // verus!
