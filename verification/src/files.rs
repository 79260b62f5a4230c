//! Inspecting the lines and columns of source files.
//!
//! A file is split into lines at its line feeds: a line starts at the start
//! of the file and after each line feed. Line and column indexes count from
//! zero; line and column numbers, meant to be shown to users, from one.
//! Byte indexes are offsets into the UTF-8 encoding of the text.

use std::fmt::Display;
use std::ops::Range;
use vstd::prelude::*;
use vstd::utf8::{
    decode_utf8, encode_utf8, encode_utf8_decode_utf8, encode_utf8_valid_utf8, is_char_boundary,
    is_char_boundary_iff_not_is_continuation_byte, is_char_boundary_start_end_of_seq, valid_utf8,
    valid_utf8_split,
};

use crate::text::{decimal, decimal_spec};
use crate::utf8::lemma_boundary_after_line_feed;
use vstd::string::*;

verus! {

#[verifier::external_type_specification]
#[verifier::external_body]
pub struct ExFmtError(std::fmt::Error);

/// What can go wrong when inspecting files.
#[derive(Debug, PartialEq, Eq)]
pub enum Error {
    MissingFile,
    OutOfBounds { given: usize, max: usize },
    IoError(String),
    FmtError(std::fmt::Error),
}

pub type Result<T> = std::result::Result<T, Error>;

/// Returns the text that `std::fmt::Error` shows.
///
/// This is the `Display` impl of `std::fmt::Error`, written out with
/// `format!`; the documentation of std does not give its text, so nothing
/// is stated of it.
#[verifier::external_body]
fn fmt_error_text(e: &std::fmt::Error) -> String {
    format!("{}", e)
}

impl Error {
    /// Returns the text that tells the user what went wrong. For a
    /// formatting error, the text of the error follows the words that say
    /// so.
    pub fn to_display_string(&self) -> (s: String)
        ensures
            match self {
                Error::MissingFile => s@ == "missing file"@,
                Error::OutOfBounds { given, max } => s@ == "the provided index ("@ + decimal_spec(
                    *given as nat,
                ) + ") is outside the maximum index of "@ + decimal_spec(*max as nat),
                Error::IoError(error) => s@ == "an IO error occurred: "@ + error@,
                Error::FmtError(_) => s@.len() >= "a formatting error occurred: "@.len() && s@.take(
                    "a formatting error occurred: "@.len() as int,
                ) == "a formatting error occurred: "@,
            },
    {
        match self {
            Error::MissingFile => String::from_str("missing file"),
            Error::OutOfBounds { given, max } => {
                let mut s = String::from_str("the provided index (");
                let g = decimal(*given);
                s.append(g.as_str());
                s.append(") is outside the maximum index of ");
                let m = decimal(*max);
                s.append(m.as_str());
                s
            },
            Error::IoError(error) => {
                let mut s = String::from_str("an IO error occurred: ");
                s.append(error.as_str());
                s
            },
            Error::FmtError(error) => {
                let mut s = String::from_str("a formatting error occurred: ");
                let t = fmt_error_text(error);
                let ghost prefix = s@;
                s.append(t.as_str());
                proof {
                    assert(s@.take(prefix.len() as int) =~= prefix);
                }
                s
            },
        }
    }
}


/// The bytes of the UTF-8 encoding of a text.
pub open spec fn text_bytes(s: &str) -> Seq<u8> {
    encode_utf8(s@)
}

/// The byte indexes where the lines of the first `k` bytes start: `0`, and
/// the index after each line feed.
pub open spec fn line_starts_upto(b: Seq<u8>, k: int) -> Seq<usize>
    decreases k,
{
    if k <= 0 {
        seq![0usize]
    } else if b[k - 1] == 10u8 {
        line_starts_upto(b, k - 1).push(k as usize)
    } else {
        line_starts_upto(b, k - 1)
    }
}

/// The byte indexes where the lines of a text start.
pub open spec fn line_starts(b: Seq<u8>) -> Seq<usize> {
    line_starts_upto(b, b.len() as int)
}

/// The index of the last line start at or before the byte index `x`, or
/// `-1` if there is none.
pub open spec fn last_start_at_or_before(starts: Seq<usize>, x: int) -> int
    decreases starts.len(),
{
    if starts.len() == 0 {
        -1
    } else if starts.last() <= x {
        starts.len() - 1
    } else {
        last_start_at_or_before(starts.drop_last(), x)
    }
}

/// The number of character boundaries `m` of the text with `lo < m <= hi`.
pub open spec fn count_boundaries(b: Seq<u8>, lo: int, hi: int) -> nat
    decreases hi - lo,
{
    if hi <= lo {
        0
    } else {
        count_boundaries(b, lo, hi - 1) + (if is_char_boundary(b, hi) {
            1nat
        } else {
            0
        })
    }
}

/// The column of the byte index `byte_index` in the line with byte range
/// `start..end`: the number of characters that start in the line before the
/// byte index (or before the end of the line or of the text, whichever comes
/// first), counted by the character boundaries after each of their bytes.
pub open spec fn column_of(b: Seq<u8>, start: int, end: int, byte_index: int) -> nat {
    let e = if byte_index <= end && byte_index <= b.len() {
        byte_index
    } else if end <= b.len() {
        end
    } else {
        b.len() as int
    };
    count_boundaries(b, start, e)
}

/// Line starts are strictly increasing, start at `0` and lie within the
/// text.
pub proof fn lemma_line_starts(b: Seq<u8>, k: int)
    requires
        0 <= k <= b.len(),
        b.len() <= usize::MAX,
    ensures
        line_starts_upto(b, k).len() >= 1,
        line_starts_upto(b, k).len() <= k + 1,
        line_starts_upto(b, k)[0] == 0,
        forall|i: int, j: int|
            0 <= i < j < line_starts_upto(b, k).len() ==> #[trigger] line_starts_upto(b, k)[i]
                < #[trigger] line_starts_upto(b, k)[j],
        forall|i: int| 0 <= i < line_starts_upto(b, k).len() ==> #[trigger] line_starts_upto(b, k)[i] <= k,
    decreases k,
{
    if k > 0 {
        lemma_line_starts(b, k - 1);
        let prev = line_starts_upto(b, k - 1);
        let cur = line_starts_upto(b, k);
        if b[k - 1] == 10u8 {
            assert forall|i: int, j: int| 0 <= i < j < cur.len() implies #[trigger] cur[i]
                < #[trigger] cur[j] by {
                if j == cur.len() - 1 {
                    assert(cur[i] == prev[i]);
                    assert(prev[i] <= k - 1);
                    assert(cur[j] == k);
                } else {
                    assert(cur[i] == prev[i] && cur[j] == prev[j]);
                }
            }
        }
    }
}

/// In increasing line starts that begin at `0`, the last start at or before
/// `x` is the line whose start is at or before `x` and whose next start, if
/// any, is after `x`.
pub proof fn lemma_last_start(starts: Seq<usize>, x: int, r: int)
    requires
        forall|i: int, j: int| 0 <= i < j < starts.len() ==> #[trigger] starts[i] < #[trigger] starts[j],
        0 <= r < starts.len(),
        starts[r] <= x,
        r + 1 < starts.len() ==> starts[r + 1] > x,
    ensures
        last_start_at_or_before(starts, x) == r,
    decreases starts.len(),
{
    if r + 1 < starts.len() {
        assert(starts.last() > x) by {
            if r + 1 < starts.len() - 1 {
                assert(starts[r + 1] < starts[starts.len() - 1]);
            }
        }
        let d = starts.drop_last();
        assert forall|i: int, j: int| 0 <= i < j < d.len() implies #[trigger] d[i] < #[trigger] d[j] by {
            assert(d[i] == starts[i] && d[j] == starts[j]);
        }
        lemma_last_start(d, x, r);
    }
}

/// Returns the byte indexes where the lines of `source` start.
pub fn line_indexes(source: &str) -> (r: Vec<usize>)
    ensures
        r@ == line_starts(text_bytes(source)),
{
    let bytes = source.as_bytes();
    let mut r: Vec<usize> = Vec::new();
    r.push(0);
    let mut i: usize = 0;
    while i < bytes.len()
        invariant
            bytes@ == text_bytes(source),
            i <= bytes@.len(),
            r@ == line_starts_upto(bytes@, i as int),
        decreases bytes@.len() - i,
    {
        if bytes[i] == 10u8 {
            r.push(i + 1);
        }
        i = i + 1;
    }
    r
}

/// Returns the column index of the byte index `byte_index` in the line with
/// the given byte range.
pub fn column_index(source: &str, line_range: Range<usize>, byte_index: usize) -> (c: usize)
    ensures
        c == column_of(text_bytes(source), line_range.start as int, line_range.end as int, byte_index as int),
        c <= text_bytes(source).len(),
{
    let len = source.as_bytes().len();
    let end_index = if byte_index <= line_range.end && byte_index <= len {
        byte_index
    } else if line_range.end <= len {
        line_range.end
    } else {
        len
    };
    let ghost b = text_bytes(source);
    let mut count: usize = 0;
    let mut k: usize = line_range.start;
    if k < end_index {
        while k < end_index
            invariant
                b == text_bytes(source),
                end_index <= len == b.len(),
                line_range.start <= k <= end_index,
                count == count_boundaries(b, line_range.start as int, k as int),
                count <= k - line_range.start,
                count <= k,
            decreases end_index - k,
        {
            if source.is_char_boundary(k + 1) {
                count = count + 1;
            }
            k = k + 1;
        }
    }
    count
}

/// Every line start of a text is `0` or the index after a line feed.
proof fn lemma_line_start_after_feed(b: Seq<u8>, k: int, i: int)
    requires
        0 <= k <= b.len(),
        b.len() <= usize::MAX,
        0 <= i < line_starts_upto(b, k).len(),
    ensures
        line_starts_upto(b, k)[i] == 0 || (0 < line_starts_upto(b, k)[i] <= k && b[line_starts_upto(
            b,
            k,
        )[i] - 1] == 10u8),
    decreases k,
{
    if k > 0 {
        let prev = line_starts_upto(b, k - 1);
        if i < prev.len() {
            lemma_line_start_after_feed(b, k - 1, i);
            assert(line_starts_upto(b, k)[i] == prev[i]);
        } else {
            assert(b[k - 1] == 10u8);
            assert(line_starts_upto(b, k)[i] == k);
        }
    }
}

/// The lines of a text start at `0` and right after each line feed, and
/// nowhere else: a byte index is a line start exactly when it is `0` or the
/// byte before it is a line feed.
pub proof fn lemma_line_start_iff(b: Seq<u8>, x: usize)
    requires
        b.len() <= usize::MAX,
    ensures
        line_starts(b).contains(x) <==> (x == 0 || (0 < x <= b.len() && b[x - 1] == 10u8)),
{
    lemma_line_start_iff_upto(b, b.len() as int, x);
}

proof fn lemma_line_start_iff_upto(b: Seq<u8>, k: int, x: usize)
    requires
        0 <= k <= b.len(),
        b.len() <= usize::MAX,
    ensures
        line_starts_upto(b, k).contains(x) <==> (x == 0 || (0 < x <= k && b[x - 1] == 10u8)),
    decreases k,
{
    let cur = line_starts_upto(b, k);
    if k <= 0 {
        if x == 0 {
            assert(cur[0] == x);
        }
    } else {
        lemma_line_start_iff_upto(b, k - 1, x);
        let prev = line_starts_upto(b, k - 1);
        if b[k - 1] == 10u8 {
            if prev.contains(x) {
                let i = choose|i: int| 0 <= i < prev.len() && prev[i] == x;
                assert(cur[i] == x);
            }
            if x == k {
                assert(cur[cur.len() - 1] == x);
            }
            if cur.contains(x) {
                let i = choose|i: int| 0 <= i < cur.len() && cur[i] == x;
                if i < prev.len() {
                    assert(prev[i] == x);
                }
            }
        }
    }
}

/// Every line start of a text falls on a character boundary.
pub proof fn lemma_line_start_boundary(s: &str, i: int)
    requires
        0 <= i < line_starts(text_bytes(s)).len(),
        text_bytes(s).len() <= usize::MAX,
    ensures
        is_char_boundary(text_bytes(s), line_starts(text_bytes(s))[i] as int),
{
    let b = text_bytes(s);
    encode_utf8_valid_utf8(s@);
    lemma_line_start_after_feed(b, b.len() as int, i);
    let p = line_starts(b)[i];
    if p == 0 {
        is_char_boundary_start_end_of_seq(b);
    } else {
        lemma_boundary_after_line_feed(b, p as int);
    }
}

/// Returns the part of the text between two byte indexes that fall on
/// character boundaries.
pub fn slice_between(s: &str, start: usize, end: usize) -> (r: &str)
    requires
        start <= end <= text_bytes(s).len(),
        is_char_boundary(text_bytes(s), start as int),
        is_char_boundary(text_bytes(s), end as int),
    ensures
        r@ == decode_utf8(text_bytes(s).subrange(start as int, end as int)),
{
    let ghost b = text_bytes(s);
    proof {
        encode_utf8_valid_utf8(s@);
        valid_utf8_split(b, end as int);
    }
    let (head, _) = s.split_at(end);
    proof {
        let h = b.subrange(0, end as int);
        assert(text_bytes(head) == h);
        if start < end {
            is_char_boundary_iff_not_is_continuation_byte(b, start as int);
            is_char_boundary_iff_not_is_continuation_byte(h, start as int);
        } else {
            is_char_boundary_start_end_of_seq(h);
        }
    }
    let (_, r) = head.split_at(start);
    proof {
        assert(text_bytes(r) =~= b.subrange(start as int, end as int));
        encode_utf8_decode_utf8(r@);
    }
    r
}

/// Line starts as a valid list: strictly increasing and starting at `0`.
pub open spec fn starts_ok(starts: Seq<usize>) -> bool {
    &&& starts.len() >= 1
    &&& starts[0] == 0
    &&& forall|i: int, j: int| 0 <= i < j < starts.len() ==> #[trigger] starts[i] < #[trigger] starts[j]
}

/// The line starts of a text form a valid list.
pub proof fn lemma_line_starts_ok(b: Seq<u8>)
    requires
        b.len() <= usize::MAX,
    ensures
        starts_ok(line_starts(b)),
        line_starts(b).len() <= b.len() + 1,
{
    lemma_line_starts(b, b.len() as int);
}

/// The line that holds the start of a line is that line: asking for the
/// line index of the byte where line `i` starts gives `i`.
pub proof fn lemma_line_index_of_start(starts: Seq<usize>, i: int)
    requires
        starts_ok(starts),
        0 <= i < starts.len(),
    ensures
        last_start_at_or_before(starts, starts[i] as int) == i,
{
    lemma_last_start(starts, starts[i] as int, i);
}

/// In increasing line starts that begin at `0`, the last start at or before
/// a byte index is a line whose start is at or before it and whose next
/// start, if any, is after it.
pub proof fn lemma_last_start_props(starts: Seq<usize>, x: int)
    requires
        starts_ok(starts),
        x >= 0,
    ensures
        0 <= last_start_at_or_before(starts, x) < starts.len(),
        starts[last_start_at_or_before(starts, x)] <= x,
        last_start_at_or_before(starts, x) + 1 < starts.len() ==> starts[last_start_at_or_before(
            starts,
            x,
        ) + 1] > x,
    decreases starts.len(),
{
    if starts.last() > x {
        let d = starts.drop_last();
        assert(starts.len() > 1) by {
            if starts.len() == 1 {
                assert(starts.last() == starts[0]);
            }
        }
        assert forall|i: int, j: int| 0 <= i < j < d.len() implies #[trigger] d[i] < #[trigger] d[j] by {
            assert(d[i] == starts[i] && d[j] == starts[j]);
        }
        assert(d[0] == starts[0]);
        lemma_last_start_props(d, x);
        let r = last_start_at_or_before(d, x);
        assert(starts[r] == d[r]);
        if r + 1 < d.len() {
            assert(starts[r + 1] == d[r + 1]);
        }
    }
}

/// In a text of ASCII characters every byte starts a character, so the
/// character boundaries in a range are as many as its bytes.
pub proof fn lemma_count_boundaries_ascii(b: Seq<u8>, lo: int, hi: int)
    requires
        valid_utf8(b),
        0 <= lo <= hi <= b.len(),
        forall|i: int| 0 <= i < b.len() ==> b[i] < 0x80,
    ensures
        count_boundaries(b, lo, hi) == hi - lo,
    decreases hi - lo,
{
    if lo < hi {
        lemma_count_boundaries_ascii(b, lo, hi - 1);
        if hi < b.len() {
            is_char_boundary_iff_not_is_continuation_byte(b, hi);
        } else {
            is_char_boundary_start_end_of_seq(b);
        }
    }
}

/// Returns the index of the last line start at or before the byte index,
/// searching the starts by halving.
pub fn line_index_in(starts: &[usize], byte_index: usize) -> (r: usize)
    requires
        starts_ok(starts@),
    ensures
        r == last_start_at_or_before(starts@, byte_index as int),
        r < starts@.len(),
{
    let mut lo: usize = 0;
    let mut hi: usize = starts.len();
    while lo + 1 < hi
        invariant
            starts_ok(starts@),
            0 <= lo < hi <= starts@.len(),
            starts@[lo as int] <= byte_index,
            hi < starts@.len() ==> starts@[hi as int] > byte_index,
        decreases hi - lo,
    {
        let mid = lo + (hi - lo) / 2;
        if starts[mid] <= byte_index {
            lo = mid;
        } else {
            hi = mid;
        }
    }
    proof {
        if lo + 1 < starts@.len() {
            assert(hi == lo + 1);
        }
        lemma_last_start(starts@, byte_index as int, lo as int);
    }
    lo
}

/// Inspecting the names, texts, lines and columns of files.
///
/// The `*_index` methods count from zero, the `*_number` methods from one.
pub trait FileInspector<'a> {
    type FileId;

    type Name: 'a + Display;

    type Source: 'a;

    /// The name of the file.
    fn name(&'a self, id: Self::FileId) -> (r: Result<Self::Name>)
        ensures
            self.name_given(id, r),
    ;

    /// Whether `r` is what asking for the name of the file gives: the
    /// file's name, or the error that says why there is none.
    spec fn name_given(&self, id: Self::FileId, r: Result<Self::Name>) -> bool;

    /// The text of the file.
    fn source(&'a self, id: Self::FileId) -> (r: Result<Self::Source>)
        ensures
            r == self.source_given(id),
    ;

    /// What asking for the text of the file gives: the file's text, or the
    /// error that says why there is none.
    spec fn source_given(&self, id: Self::FileId) -> Result<Self::Source>;

    /// The number of lines of the file.
    fn line_count(&'a self, id: Self::FileId) -> Result<usize>;

    /// The index of the line that holds the given byte index; past the end of
    /// the text, the index of the last line.
    fn line_index(&'a self, id: Self::FileId, byte_index: usize) -> Result<usize>;

    /// The number of the line that holds the given byte index.
    fn line_number(&'a self, id: Self::FileId, byte_index: usize) -> Result<usize>;

    /// The byte range of the line with the given index.
    fn line_range(&'a self, id: Self::FileId, line_index: usize) -> Result<Range<usize>>;

    /// The column index of the given byte index in the line with the given
    /// index.
    fn column_index(&'a self, id: Self::FileId, line_index: usize, byte_index: usize) -> Result<
        usize,
    >;

    /// The column number of the given byte index in the line with the given
    /// index.
    fn column_number(&'a self, id: Self::FileId, line_index: usize, byte_index: usize) -> Result<
        usize,
    >;
}

/// A single source file: its name, its text and where its lines start.
#[derive(Debug)]
pub struct OneFile<'s, Name> {
    name: Name,
    source: &'s str,
    line_indexes: Vec<usize>,
}

impl<'s, Name: Clone> Clone for OneFile<'s, Name> {
    fn clone(&self) -> (f: Self)
        ensures
            cloned(self.name_spec(), f.name_spec()),
            f.source_spec() == self.source_spec(),
    {
        proof {
            use_type_invariant(self);
        }
        OneFile { name: self.name.clone(), source: self.source, line_indexes: self.line_indexes.clone() }
    }
}

impl<'s, Name> OneFile<'s, Name> {
    pub closed spec fn name_spec(&self) -> Name {
        self.name
    }

    pub closed spec fn source_spec(&self) -> &'s str {
        self.source
    }

    /// The byte indexes where the lines of the file start.
    pub open spec fn starts(&self) -> Seq<usize> {
        line_starts(text_bytes(self.source_spec()))
    }

    /// The byte range of the line with index `i`: from its start to the next
    /// line's start, or to the end of the text for the last line.
    pub open spec fn line_range_spec(&self, i: int) -> Range<usize> {
        Range {
            start: self.starts()[i],
            end: if i + 1 < self.starts().len() {
                self.starts()[i + 1]
            } else {
                text_bytes(self.source_spec()).len() as usize
            },
        }
    }

    /// The answer to asking for the line with index `i`: its range if there
    /// is such a line, or the error that names the largest line index.
    pub open spec fn line_range_result(&self, i: int) -> Result<Range<usize>> {
        if 0 <= i < self.starts().len() {
            Ok(self.line_range_spec(i))
        } else {
            Err(Error::OutOfBounds { given: i as usize, max: (self.starts().len() - 1) as usize })
        }
    }

    #[verifier::type_invariant]
    closed spec fn inv(&self) -> bool {
        &&& self.line_indexes@ == line_starts(text_bytes(self.source))
        &&& text_bytes(self.source).len() < usize::MAX
    }

    /// Creates a file with the given name and text.
    pub fn new(name: Name, source: &'s str) -> (f: Self)
        requires
            text_bytes(source).len() < usize::MAX,
        ensures
            f.name_spec() == name,
            f.source_spec() == source,
    {
        let line_indexes = line_indexes(source);
        OneFile { name, source, line_indexes }
    }

    /// Returns the name of the file.
    pub fn name(&self) -> (r: &Name)
        ensures
            *r == self.name_spec(),
    {
        &self.name
    }

    /// Returns the text of the file.
    pub fn source(&self) -> (r: &&'s str)
        ensures
            *r == self.source_spec(),
    {
        &self.source
    }

    /// Returns the byte indexes where the lines of the file start.
    pub fn line_indexes(&self) -> (r: &[usize])
        ensures
            r@ == self.starts(),
    {
        proof {
            use_type_invariant(self);
        }
        self.line_indexes.as_slice()
    }

    /// Returns the byte index where the line with the given index starts, or
    /// [`Error::OutOfBounds`] if there is no such line.
    pub fn line_start(&self, line_index: usize) -> (r: Result<usize>)
        ensures
            r == (if line_index < self.starts().len() {
                Ok(self.starts()[line_index as int])
            } else {
                Err(Error::OutOfBounds { given: line_index, max: (self.starts().len() - 1) as usize })
            }),
    {
        proof {
            use_type_invariant(self);
            lemma_line_starts(text_bytes(self.source), text_bytes(self.source).len() as int);
        }
        if line_index < self.line_indexes.len() {
            Ok(self.line_indexes[line_index])
        } else {
            Err(Error::OutOfBounds { given: line_index, max: self.line_indexes.len() - 1 })
        }
    }

    /// Returns the number of lines of the file.
    pub fn count_lines(&self) -> (n: usize)
        ensures
            n == self.starts().len(),
            n >= 1,
    {
        proof {
            use_type_invariant(self);
            lemma_line_starts(text_bytes(self.source), text_bytes(self.source).len() as int);
        }
        self.line_indexes.len()
    }

    /// Returns the index of the line that holds the given byte index.
    ///
    /// The line starts are searched by halving: the result is the last line
    /// that starts at or before the byte index.
    pub fn index_of_line(&self, byte_index: usize) -> (r: usize)
        ensures
            r == last_start_at_or_before(self.starts(), byte_index as int),
            r < self.starts().len(),
            r < usize::MAX,
    {
        proof {
            use_type_invariant(self);
            lemma_line_starts(text_bytes(self.source), text_bytes(self.source).len() as int);
            lemma_line_starts_ok(text_bytes(self.source));
        }
        let r = line_index_in(self.line_indexes.as_slice(), byte_index);
        proof {
            assert(self.line_indexes@.len() <= text_bytes(self.source).len() + 1);
        }
        r
    }

    /// Returns the byte range of the line with the given index.
    pub fn range_of_line(&self, line_index: usize) -> (r: Result<Range<usize>>)
        ensures
            r == self.line_range_result(line_index as int),
    {
        proof {
            use_type_invariant(self);
        }
        let line_start = self.line_start(line_index)?;
        let count = self.count_lines();
        let next_line_start = if line_index + 1 < count - 1 {
            line_index + 1
        } else {
            count - 1
        };
        let line_end = if next_line_start == line_index {
            self.source.as_bytes().len()
        } else {
            self.line_start(next_line_start)?
        };
        Ok(line_start..line_end)
    }
}

impl<'a, 's: 'a, Name: 'a + Display + Clone> FileInspector<'a> for OneFile<'s, Name> {
    type FileId = ();

    type Name = Name;

    type Source = &'a str;

    fn name(&'a self, id: ()) -> (r: Result<Name>) {
        Ok(self.name.clone())
    }

    /// The name is a clone of the file's name.
    open spec fn name_given(&self, id: (), r: Result<Name>) -> bool {
        r matches Ok(n) && cloned(self.name_spec(), n)
    }

    fn source(&'a self, id: ()) -> (r: Result<&'a str>) {
        Ok(self.source)
    }

    /// The text is the file's text.
    open spec fn source_given(&self, id: ()) -> Result<&'a str> {
        Ok(self.source_spec())
    }

    fn line_count(&'a self, id: ()) -> (r: Result<usize>)
        ensures
            r == Ok::<usize, Error>(self.starts().len() as usize),
    {
        Ok(self.count_lines())
    }

    fn line_index(&'a self, id: (), byte_index: usize) -> (r: Result<usize>)
        ensures
            r == Ok::<usize, Error>(last_start_at_or_before(self.starts(), byte_index as int) as usize),
    {
        Ok(self.index_of_line(byte_index))
    }

    fn line_number(&'a self, id: (), byte_index: usize) -> (r: Result<usize>)
        ensures
            r == Ok::<usize, Error>((last_start_at_or_before(self.starts(), byte_index as int) + 1) as usize),
    {
        let i = self.index_of_line(byte_index);
        Ok(i + 1)
    }

    fn line_range(&'a self, id: (), line_index: usize) -> (r: Result<Range<usize>>)
        ensures
            r == self.line_range_result(line_index as int),
    {
        self.range_of_line(line_index)
    }

    fn column_index(&'a self, id: (), line_index: usize, byte_index: usize) -> (r: Result<usize>)
        ensures
            r == (match self.line_range_result(line_index as int) {
                Ok(range) => Ok(
                    column_of(
                        text_bytes(self.source_spec()),
                        range.start as int,
                        range.end as int,
                        byte_index as int,
                    ) as usize,
                ),
                Err(e) => Err(e),
            }),
    {
        let line_range = self.range_of_line(line_index)?;
        Ok(column_index(self.source, line_range, byte_index))
    }

    fn column_number(&'a self, id: (), line_index: usize, byte_index: usize) -> (r: Result<usize>)
        ensures
            r == (match self.line_range_result(line_index as int) {
                Ok(range) => Ok(
                    (column_of(
                        text_bytes(self.source_spec()),
                        range.start as int,
                        range.end as int,
                        byte_index as int,
                    ) + 1) as usize,
                ),
                Err(e) => Err(e),
            }),
    {
        proof {
            use_type_invariant(self);
        }
        let line_range = self.range_of_line(line_index)?;
        let c = column_index(self.source, line_range, byte_index);
        Ok(c + 1)
    }
}

/// The identifier of a file of a [`ManyFiles`]: its position among them.
#[derive(Clone, Copy, Debug, Default, PartialEq, Eq, Structural)]
pub struct ManyFilesId(pub usize);

/// A set of source files, each known by a [`ManyFilesId`].
pub struct ManyFiles<'s, Name> {
    files: Vec<OneFile<'s, Name>>,
}

impl<'s, Name> ManyFiles<'s, Name> {
    pub closed spec fn files_spec(&self) -> Seq<OneFile<'s, Name>> {
        self.files@
    }

    /// The names and texts of the files, in the order they were added.
    pub open spec fn entries(&self) -> Seq<(Name, Seq<char>)> {
        self.files_spec().map_values(|f: OneFile<'s, Name>| (f.name_spec(), f.source_spec()@))
    }

    /// The file with the given identifier, or [`Error::MissingFile`].
    pub open spec fn get_spec(&self, id: ManyFilesId) -> Result<OneFile<'s, Name>> {
        if id.0 < self.files_spec().len() {
            Ok(self.files_spec()[id.0 as int])
        } else {
            Err(Error::MissingFile)
        }
    }

    /// Creates an empty set of files.
    pub fn new() -> (m: Self)
        ensures
            m.files_spec() == Seq::<OneFile<'s, Name>>::empty(),
            m.entries() == Seq::<(Name, Seq<char>)>::empty(),
            forall|k: ManyFilesId| #[trigger] m.get_spec(k) == Err::<OneFile<'s, Name>, Error>(Error::MissingFile),
    {
        let m = ManyFiles { files: Vec::new() };
        proof {
            assert(m.entries() =~= Seq::<(Name, Seq<char>)>::empty());
        }
        m
    }

    /// Adds a file with the given name and text, and returns its identifier.
    pub fn add(&mut self, name: Name, source: &'s str) -> (id: ManyFilesId)
        requires
            text_bytes(source).len() < usize::MAX,
        ensures
            id.0 == old(self).files_spec().len(),
            final(self).files_spec().len() == old(self).files_spec().len() + 1,
            final(self).files_spec().take(id.0 as int) == old(self).files_spec(),
            final(self).files_spec()[id.0 as int].name_spec() == name,
            final(self).files_spec()[id.0 as int].source_spec() == source,
            final(self).get_spec(id) matches Ok(f) && f.name_spec() == name && f.source_spec() == source,
            final(self).entries() == old(self).entries().push((name, source@)),
            forall|k: ManyFilesId|
                k.0 < old(self).files_spec().len() ==> #[trigger] final(self).get_spec(k) == old(self).get_spec(k),
            forall|k: ManyFilesId|
                k.0 > id.0 ==> #[trigger] final(self).get_spec(k) == Err::<OneFile<'s, Name>, Error>(Error::MissingFile),
    {
        let file_id = self.files.len();
        self.files.push(OneFile::new(name, source));
        proof {
            assert(self.files@.take(file_id as int) =~= old(self).files@);
            assert(self.entries() =~= old(self).entries().push((name, source@)));
            assert forall|k: ManyFilesId| k.0 < old(self).files_spec().len() implies #[trigger] self.get_spec(k)
                == old(self).get_spec(k) by {
                assert(self.files@[k.0 as int] == old(self).files@[k.0 as int]);
            }
        }
        ManyFilesId(file_id)
    }

    /// Files are found again by the identifiers that adding them gave: after
    /// the files `added` are added, one at a time, to a set whose entries
    /// were `before`, the `i`-th of them is found under the identifier
    /// `before.len() + i` (the identifier its `add` returned), with its
    /// name and text; no identifier past them finds a file.
    pub proof fn lemma_get_after_adds(&self, before: Seq<(Name, Seq<char>)>, added: Seq<(Name, Seq<char>)>)
        requires
            self.entries() == before + added,
            before.len() + added.len() <= usize::MAX,
        ensures
            forall|i: int|
                0 <= i < added.len() ==> ((#[trigger] self.get_spec(
                    ManyFilesId((before.len() + i) as usize),
                )) matches Ok(f) && f.name_spec() == added[i].0 && f.source_spec()@ == added[i].1),
            forall|id: ManyFilesId|
                id.0 >= before.len() + added.len() ==> #[trigger] self.get_spec(id) == Err::<
                    OneFile<'s, Name>,
                    Error,
                >(Error::MissingFile),
    {
        assert forall|i: int| 0 <= i < added.len() implies ((#[trigger] self.get_spec(
            ManyFilesId((before.len() + i) as usize),
        )) matches Ok(f) && f.name_spec() == added[i].0 && f.source_spec()@ == added[i].1) by {
            let k = before.len() + i;
            assert(self.entries()[k] == added[i]);
            assert(self.files_spec().len() == self.entries().len());
            assert(((k as usize) as int) == k);
            let f = self.files_spec()[k];
            assert(self.entries()[k] == (f.name_spec(), f.source_spec()@));
        }
        assert(self.files_spec().len() == self.entries().len());
    }

    /// Returns the file with the given identifier, or
    /// [`Error::MissingFile`] if there is none.
    pub fn get(&self, file_id: ManyFilesId) -> (r: Result<&OneFile<'s, Name>>)
        ensures
            match r {
                Ok(f) => self.get_spec(file_id) == Ok::<OneFile<'s, Name>, Error>(*f),
                Err(e) => self.get_spec(file_id) == Err::<OneFile<'s, Name>, Error>(e),
            },
    {
        if file_id.0 < self.files.len() {
            Ok(&self.files[file_id.0])
        } else {
            Err(Error::MissingFile)
        }
    }
}

impl<'a, 's: 'a, Name: 'a + Display + Clone> FileInspector<'a> for ManyFiles<'s, Name> {
    type FileId = ManyFilesId;

    type Name = Name;

    type Source = &'a str;

    fn name(&'a self, id: ManyFilesId) -> (r: Result<Name>) {
        let f = self.get(id)?;
        Ok(f.name.clone())
    }

    /// The name is a clone of the name of the file with the identifier, or
    /// the error that there is no such file.
    open spec fn name_given(&self, id: ManyFilesId, r: Result<Name>) -> bool {
        match self.get_spec(id) {
            Ok(f) => r matches Ok(n) && cloned(f.name_spec(), n),
            Err(e) => r == Err::<Name, Error>(e),
        }
    }

    fn source(&'a self, id: ManyFilesId) -> (r: Result<&'a str>) {
        let f = self.get(id)?;
        Ok(f.source)
    }

    /// The text of the file with the identifier, or the error that there
    /// is no such file.
    open spec fn source_given(&self, id: ManyFilesId) -> Result<&'a str> {
        match self.get_spec(id) {
            Ok(f) => Ok(f.source_spec()),
            Err(e) => Err(e),
        }
    }

    fn line_count(&'a self, id: ManyFilesId) -> (r: Result<usize>)
        ensures
            r == (match self.get_spec(id) {
                Ok(f) => Ok(f.starts().len() as usize),
                Err(e) => Err(e),
            }),
    {
        let f = self.get(id)?;
        Ok(f.count_lines())
    }

    fn line_index(&'a self, id: ManyFilesId, byte_index: usize) -> (r: Result<usize>)
        ensures
            r == (match self.get_spec(id) {
                Ok(f) => Ok(last_start_at_or_before(f.starts(), byte_index as int) as usize),
                Err(e) => Err(e),
            }),
    {
        let f = self.get(id)?;
        Ok(f.index_of_line(byte_index))
    }

    fn line_number(&'a self, id: ManyFilesId, byte_index: usize) -> (r: Result<usize>)
        ensures
            r == (match self.get_spec(id) {
                Ok(f) => Ok((last_start_at_or_before(f.starts(), byte_index as int) + 1) as usize),
                Err(e) => Err(e),
            }),
    {
        let f = self.get(id)?;
        let i = f.index_of_line(byte_index);
        Ok(i + 1)
    }

    fn line_range(&'a self, id: ManyFilesId, line_index: usize) -> (r: Result<Range<usize>>)
        ensures
            r == (match self.get_spec(id) {
                Ok(f) => f.line_range_result(line_index as int),
                Err(e) => Err(e),
            }),
    {
        let f = self.get(id)?;
        f.range_of_line(line_index)
    }

    fn column_index(&'a self, id: ManyFilesId, line_index: usize, byte_index: usize) -> (r: Result<
        usize,
    >)
        ensures
            r == (match self.get_spec(id) {
                Ok(f) => match f.line_range_result(line_index as int) {
                    Ok(range) => Ok(
                        column_of(
                            text_bytes(f.source_spec()),
                            range.start as int,
                            range.end as int,
                            byte_index as int,
                        ) as usize,
                    ),
                    Err(e) => Err(e),
                },
                Err(e) => Err(e),
            }),
    {
        let f = self.get(id)?;
        f.column_index((), line_index, byte_index)
    }

    fn column_number(&'a self, id: ManyFilesId, line_index: usize, byte_index: usize) -> (r: Result<
        usize,
    >)
        ensures
            r == (match self.get_spec(id) {
                Ok(f) => match f.line_range_result(line_index as int) {
                    Ok(range) => Ok(
                        (column_of(
                            text_bytes(f.source_spec()),
                            range.start as int,
                            range.end as int,
                            byte_index as int,
                        ) + 1) as usize,
                    ),
                    Err(e) => Err(e),
                },
                Err(e) => Err(e),
            }),
    {
        let f = self.get(id)?;
        f.column_number((), line_index, byte_index)
    }
}

} // verus!
