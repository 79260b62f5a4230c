//! Queries about the source texts of a program: lines, columns and
//! positions.
//!
//! A [`HeliosDatabase`] holds the source text of each file by its
//! identifier; the queries compute, from a file's text, where its lines
//! start, which line holds a byte offset, and the (line, column) position
//! of a byte offset and back.

use std::ops::Range;
use std::sync::Arc;
use vstd::prelude::*;
use vstd::utf8::{encode_utf8, encode_utf8_valid_utf8};

use crate::diagnostic::{Diagnostic, Severity};
use crate::parse::{parse, parsed_from, Parse};
use crate::files::{
    column_index, column_of, last_start_at_or_before, lemma_count_boundaries_ascii,
    lemma_last_start_props, lemma_line_starts, lemma_line_starts_ok, line_index_in,
    line_indexes, line_starts, starts_ok, text_bytes,
};

verus! {

/// The identifier of a file.
pub type FileId = usize;

/// The source text of each file, by identifier.
#[derive(Default)]
pub struct HeliosDatabase {
    sources: Vec<(FileId, String)>,
}

/// The text of the first entry for the file, if there is one.
pub open spec fn lookup(entries: Seq<(FileId, String)>, file_id: FileId) -> Option<Seq<char>>
    decreases entries.len(),
{
    if entries.len() == 0 {
        None
    } else if entries[0].0 == file_id {
        Some(entries[0].1@)
    } else {
        lookup(entries.drop_first(), file_id)
    }
}

/// The position of the first entry for the file, if there is one.
pub open spec fn position(entries: Seq<(FileId, String)>, file_id: FileId) -> Option<int>
    decreases entries.len(),
{
    if entries.len() == 0 {
        None
    } else if entries[0].0 == file_id {
        Some(0)
    } else {
        match position(entries.drop_first(), file_id) {
            Some(k) => Some(k + 1),
            None => None,
        }
    }
}

/// The first entry for a file is where its position says, and no entry
/// before it is for that file.
proof fn lemma_position(entries: Seq<(FileId, String)>, file_id: FileId)
    ensures
        position(entries, file_id) matches Some(k) ==> 0 <= k < entries.len() && entries[k].0
            == file_id && lookup(entries, file_id) == Some(entries[k].1@),
        position(entries, file_id) is None ==> lookup(entries, file_id) is None,
        forall|j: int|
            0 <= j < entries.len() && (position(entries, file_id) matches Some(k) ==> j < k)
                ==> #[trigger] entries[j].0 != file_id,
    decreases entries.len(),
{
    if entries.len() > 0 && entries[0].0 != file_id {
        lemma_position(entries.drop_first(), file_id);
        assert forall|j: int|
            0 <= j < entries.len() && (position(entries, file_id) matches Some(k) ==> j < k)
                implies #[trigger] entries[j].0 != file_id by {
            if j > 0 {
                assert(entries[j] == entries.drop_first()[j - 1]);
            }
        }
    }
}

/// Replacing the text of an entry changes the lookup of that entry's file
/// only, when that entry is the first for its file.
proof fn lemma_lookup_update(entries: Seq<(FileId, String)>, k: int, e: (FileId, String), id: FileId)
    requires
        0 <= k < entries.len(),
        entries[k].0 == e.0,
        forall|j: int| 0 <= j < k ==> #[trigger] entries[j].0 != e.0,
    ensures
        lookup(entries.update(k, e), id) == (if id == e.0 {
            Some(e.1@)
        } else {
            lookup(entries, id)
        }),
    decreases entries.len(),
{
    assert(entries.update(k, e)[0] == (if k == 0 {
        e
    } else {
        entries[0]
    }));
    if k == 0 {
        assert(entries.update(k, e).drop_first() =~= entries.drop_first());
    } else if entries[0].0 != id {
        let d = entries.drop_first();
        assert(entries.update(k, e).drop_first() =~= d.update(k - 1, e));
        assert forall|j: int| 0 <= j < k - 1 implies #[trigger] d[j].0 != e.0 by {
            assert(d[j] == entries[j + 1]);
        }
        lemma_lookup_update(d, k - 1, e, id);
    }
}

/// Adding an entry at the end changes the lookup of a file that had none.
proof fn lemma_lookup_push(entries: Seq<(FileId, String)>, e: (FileId, String), id: FileId)
    requires
        lookup(entries, e.0) is None,
    ensures
        lookup(entries.push(e), id) == (if id == e.0 {
            Some(e.1@)
        } else {
            lookup(entries, id)
        }),
    decreases entries.len(),
{
    if entries.len() == 0 {
        assert(entries.push(e)[0] == e);
        assert(entries.push(e).drop_first() =~= Seq::<(FileId, String)>::empty());
        assert(lookup(Seq::<(FileId, String)>::empty(), id) is None);
        assert(lookup(entries, id) is None);
        if id == e.0 {
            assert(lookup(entries.push(e), id) == Some(e.1@));
        } else {
            assert(lookup(entries.push(e), id) == lookup(entries.push(e).drop_first(), id));
        }
    } else {
        assert(entries.push(e)[0] == entries[0]);
        assert(entries[0].0 != e.0);
        assert(entries.push(e).drop_first() =~= entries.drop_first().push(e));
        if entries[0].0 != id {
            assert(lookup(entries.drop_first(), e.0) is None);
            lemma_lookup_push(entries.drop_first(), e, id);
        }
    }
}

impl HeliosDatabase {
    /// The text of the file, if it was set.
    pub closed spec fn source_spec(&self, file_id: FileId) -> Option<Seq<char>> {
        lookup(self.sources@, file_id)
    }

    /// The text of the file as bytes.
    pub open spec fn bytes(&self, file_id: FileId) -> Seq<u8> {
        encode_utf8(self.source_spec(file_id)->Some_0)
    }

    /// The line starts of the file.
    pub open spec fn starts(&self, file_id: FileId) -> Seq<usize> {
        line_starts(self.bytes(file_id))
    }

    /// The file has a text, short enough that every offset into it, and one
    /// more, fits in a `usize`.
    pub open spec fn has_source(&self, file_id: FileId) -> bool {
        &&& self.source_spec(file_id) is Some
        &&& self.bytes(file_id).len() < usize::MAX
    }

    /// Creates an empty database.
    pub fn new() -> (db: Self)
        ensures
            forall|id: FileId| db.source_spec(id) is None,
    {
        HeliosDatabase { sources: Vec::new() }
    }

    /// Sets the text of the file.
    pub fn set_source(&mut self, file_id: FileId, source: Arc<String>)
        ensures
            forall|id: FileId|
                #[trigger] final(self).source_spec(id) == (if id == file_id {
                    Some(source@)
                } else {
                    old(self).source_spec(id)
                }),
    {
        let text: String = (*source).clone();
        let ghost entries = self.sources@;
        let mut k: usize = 0;
        while k < self.sources.len() && self.sources[k].0 != file_id
            invariant
                self.sources@ == entries,
                k <= entries.len(),
                forall|j: int| 0 <= j < k ==> #[trigger] entries[j].0 != file_id,
            decreases entries.len() - k,
        {
            k = k + 1;
        }
        if k < self.sources.len() {
            self.sources.set(k, (file_id, text));
            proof {
                assert forall|id: FileId| #[trigger]
                    lookup(self.sources@, id) == (if id == file_id {
                        Some(source@)
                    } else {
                        lookup(entries, id)
                    }) by {
                    lemma_lookup_update(entries, k as int, (file_id, text), id);
                }
            }
        } else {
            proof {
                lemma_position(entries, file_id);
                if position(entries, file_id) is Some {
                    let p = position(entries, file_id)->Some_0;
                    assert(entries[p].0 == file_id);
                }
            }
            self.sources.push((file_id, text));
            proof {
                assert forall|id: FileId| #[trigger]
                    lookup(self.sources@, id) == (if id == file_id {
                        Some(source@)
                    } else {
                        lookup(entries, id)
                    }) by {
                    lemma_lookup_push(entries, (file_id, text), id);
                }
            }
        }
    }

    /// Returns the index of the first entry for the file, which must have a
    /// text.
    fn entry_of(&self, file_id: FileId) -> (k: usize)
        requires
            self.source_spec(file_id) is Some,
        ensures
            k < self.sources@.len(),
            self.sources@[k as int].1@ == self.source_spec(file_id)->Some_0,
    {
        proof {
            lemma_position(self.sources@, file_id);
        }
        let n = self.sources.len();
        let mut k: usize = 0;
        while self.sources[k].0 != file_id
            invariant
                n == self.sources@.len(),
                k < self.sources@.len(),
                position(self.sources@, file_id) is Some,
                k <= position(self.sources@, file_id)->Some_0,
            decreases self.sources@.len() - k,
        {
            proof {
                lemma_position(self.sources@, file_id);
            }
            k = k + 1;
        }
        proof {
            lemma_position(self.sources@, file_id);
        }
        k
    }

    /// Returns the text of the file, which must have been set.
    pub fn source(&self, file_id: FileId) -> (s: Arc<String>)
        requires
            self.source_spec(file_id) is Some,
        ensures
            (*s)@ == self.source_spec(file_id)->Some_0,
    {
        let k = self.entry_of(file_id);
        Arc::new(self.sources[k].1.clone())
    }

    /// Returns the length of the text of the file in bytes.
    pub fn source_len(&self, file_id: FileId) -> (n: usize)
        requires
            self.source_spec(file_id) is Some,
        ensures
            n == self.bytes(file_id).len(),
    {
        let k = self.entry_of(file_id);
        self.sources[k].1.as_str().as_bytes().len()
    }

    /// Returns where the lines of the file start; the first is always `0`.
    pub fn source_line_indexes(&self, file_id: FileId) -> (r: Arc<Vec<usize>>)
        requires
            self.source_spec(file_id) is Some,
        ensures
            (*r)@ == self.starts(file_id),
    {
        let k = self.entry_of(file_id);
        Arc::new(line_indexes(self.sources[k].1.as_str()))
    }

    /// Returns where the line with the given index starts; for the index
    /// after the last line, the end of the text.
    pub fn source_line_start(&self, file_id: FileId, line_index: usize) -> (r: usize)
        requires
            self.has_source(file_id),
            line_index <= self.starts(file_id).len(),
        ensures
            r == (if line_index == self.starts(file_id).len() {
                self.bytes(file_id).len() as usize
            } else {
                self.starts(file_id)[line_index as int]
            }),
    {
        let k = self.entry_of(file_id);
        let source = self.sources[k].1.as_str();
        let starts = line_indexes(source);
        if line_index == starts.len() {
            source.as_bytes().len()
        } else {
            starts[line_index]
        }
    }

    /// Returns the byte range of the line with the given index: from its
    /// start to the next line's start, or to the end of the text.
    pub fn source_line_range(&self, file_id: FileId, line_index: usize) -> (r: Range<usize>)
        requires
            self.has_source(file_id),
            line_index < self.starts(file_id).len(),
        ensures
            r.start == self.starts(file_id)[line_index as int],
            r.end == (if line_index + 1 == self.starts(file_id).len() {
                self.bytes(file_id).len() as usize
            } else {
                self.starts(file_id)[line_index + 1]
            }),
    {
        proof {
            lemma_line_starts_ok(self.bytes(file_id));
        }
        let line_start = self.source_line_start(file_id, line_index);
        let next_line_start = self.source_line_start(file_id, line_index + 1);
        line_start..next_line_start
    }

    /// Returns the index of the line that holds the given byte offset.
    pub fn source_line_index(&self, file_id: FileId, byte_offset: usize) -> (r: usize)
        requires
            self.has_source(file_id),
        ensures
            r == last_start_at_or_before(self.starts(file_id), byte_offset as int),
            r < self.starts(file_id).len(),
    {
        let k = self.entry_of(file_id);
        let source = self.sources[k].1.as_str();
        let starts = line_indexes(source);
        proof {
            lemma_line_starts_ok(text_bytes(source));
        }
        line_index_in(starts.as_slice(), byte_offset)
    }

    /// Returns the column of the given byte offset in the line with the
    /// given index.
    pub fn source_column_index(&self, file_id: FileId, line_index: usize, byte_offset: usize) -> (r:
        usize)
        requires
            self.has_source(file_id),
            line_index < self.starts(file_id).len(),
        ensures
            ({
                let range = self.source_line_range_spec(file_id, line_index as int);
                r == column_of(self.bytes(file_id), range.0, range.1, byte_offset as int)
            }),
    {
        let line_range = self.source_line_range(file_id, line_index);
        let k = self.entry_of(file_id);
        column_index(self.sources[k].1.as_str(), line_range, byte_offset)
    }

    /// The byte range of the line with the given index, as a pair.
    pub open spec fn source_line_range_spec(&self, file_id: FileId, line_index: int) -> (int, int) {
        (
            self.starts(file_id)[line_index] as int,
            if line_index + 1 == self.starts(file_id).len() {
                self.bytes(file_id).len() as int
            } else {
                self.starts(file_id)[line_index + 1] as int
            },
        )
    }

    /// Returns the (line, column) position of the given byte offset.
    pub fn source_position_at_offset(&self, file_id: FileId, byte_offset: usize) -> (r: (
        usize,
        usize,
    ))
        requires
            self.has_source(file_id),
        ensures
            r.0 == last_start_at_or_before(self.starts(file_id), byte_offset as int),
            ({
                let range = self.source_line_range_spec(file_id, r.0 as int);
                r.1 == column_of(self.bytes(file_id), range.0, range.1, byte_offset as int)
            }),
    {
        let line_index = self.source_line_index(file_id, byte_offset);
        let column_index = self.source_column_index(file_id, line_index, byte_offset);
        (line_index, column_index)
    }

    /// Returns the byte offset of the given (line, column) position: the
    /// start of the line plus the column.
    pub fn source_offset_at_position(&self, file_id: FileId, position: (usize, usize)) -> (r: usize)
        requires
            self.has_source(file_id),
            position.0 < self.starts(file_id).len(),
            self.starts(file_id)[position.0 as int] + position.1 <= usize::MAX,
        ensures
            r == self.starts(file_id)[position.0 as int] + position.1,
    {
        let line_indexes = self.source_line_indexes(file_id);
        line_indexes[position.0] + position.1
    }

    /// Parses the text of the file, reporting its messages for that file.
    ///
    /// The result is what [`parse`] gives for the file's text (a text in a
    /// tree may not be longer than `u32::MAX` bytes).
    pub fn parse(&self, file_id: FileId) -> (p: Parse<FileId>)
        requires
            self.source_spec(file_id) is Some,
            self.bytes(file_id).len() <= u32::MAX,
        ensures
            parsed_from(p, file_id, self.source_spec(file_id)->Some_0),
    {
        let k = self.entry_of(file_id);
        parse(file_id, self.sources[k].1.as_str())
    }

    /// Returns the diagnostics of the messages reported when parsing the
    /// file, one per message, in order.
    ///
    /// The messages are those of parsing the file's text for that file
    /// ([`parsed_from`] fixes them all: those of the lexer, then one for
    /// each error site of the grammar).
    pub fn diagnostics(&self, file_id: FileId) -> (r: Arc<Vec<Diagnostic<FileId>>>)
        requires
            self.source_spec(file_id) is Some,
            self.bytes(file_id).len() <= u32::MAX,
        ensures
            exists|p: Parse<FileId>|
                #[trigger] parsed_from(p, file_id, self.source_spec(file_id)->Some_0) && (*r)@.len()
                    == p.messages_spec().len() && forall|i: int|
                    0 <= i < (*r)@.len() ==> p.messages_spec()[i].reported_by(#[trigger] (*r)@[i]),
    {
        let parse = self.parse(file_id);
        let messages = parse.messages();
        let mut diagnostics: Vec<Diagnostic<FileId>> = Vec::new();
        let mut i: usize = 0;
        while i < messages.len()
            invariant
                messages@ == parse.messages_spec(),
                forall|j: int| 0 <= j < messages@.len() ==> (#[trigger] messages@[j]).reportable(),
                i <= messages@.len(),
                diagnostics@.len() == i,
                forall|j: int| 0 <= j < i ==> messages@[j].reported_by(#[trigger] diagnostics@[j]),
            decreases messages@.len() - i,
        {
            let d = messages[i].generate_diagnostic();
            diagnostics.push(d);
            i = i + 1;
        }
        Arc::new(diagnostics)
    }
}

/// On a text of ASCII characters, going from a byte offset to its position
/// and back gives the offset again: the column of an offset is the number
/// of bytes between the start of its line and the offset.
pub proof fn lemma_position_roundtrip(db: &HeliosDatabase, file_id: FileId, offset: usize)
    requires
        db.has_source(file_id),
        offset <= db.bytes(file_id).len(),
        forall|i: int| 0 <= i < db.bytes(file_id).len() ==> db.bytes(file_id)[i] < 0x80,
    ensures
        ({
            let line = last_start_at_or_before(db.starts(file_id), offset as int);
            let range = db.source_line_range_spec(file_id, line);
            db.starts(file_id)[line] + column_of(db.bytes(file_id), range.0, range.1, offset as int)
                == offset
        }),
{
    let b = db.bytes(file_id);
    let starts = db.starts(file_id);
    encode_utf8_valid_utf8(db.source_spec(file_id)->Some_0);
    lemma_line_starts_ok(b);
    lemma_line_starts(b, b.len() as int);
    lemma_last_start_props(starts, offset as int);
    let line = last_start_at_or_before(starts, offset as int);
    let range = db.source_line_range_spec(file_id, line);
    assert(offset <= range.1);
    lemma_count_boundaries_ascii(b, range.0, offset as int);
}


} // verus!
