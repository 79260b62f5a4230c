//! Keeping the text of an open document in step with the edits of the
//! editor.
//!
//! The protocol counts character offsets in UTF-16 code units: an edit
//! replaces the units between two (line, character) positions with the
//! units of its text, or replaces the whole text when it has no range. The
//! text is kept as UTF-16 units while the edits are applied, and decoded at
//! the end, with each unpaired surrogate read as U+FFFD.

use std::ops::Range;
use vstd::prelude::*;

verus! {

/// A position in a document: a line index and a UTF-16 offset in the line.
#[derive(Clone, Copy, Debug, PartialEq, Eq, Structural)]
pub struct Position {
    pub line: u32,
    pub character: u32,
}

/// The span of a document between two positions.
#[derive(Clone, Copy, Debug, PartialEq, Eq, Structural)]
pub struct ChangeRange {
    pub start: Position,
    pub end: Position,
}

/// An edit of a document: the text that replaces a range, or the whole
/// document when there is no range.
#[derive(Clone, Debug, PartialEq, Eq)]
pub struct ContentChange {
    pub range: Option<ChangeRange>,
    pub text: String,
}

/// The UTF-16 code units of a character: one unit below U+10000, and a
/// surrogate pair above.
pub open spec fn char_units(c: char) -> Seq<u16> {
    let v = c as u32;
    if v < 0x10000 {
        seq![v as u16]
    } else {
        seq![(0xD800 + (v - 0x10000) / 1024) as u16, (0xDC00 + (v - 0x10000) % 1024) as u16]
    }
}

/// The UTF-16 encoding of a text.
pub open spec fn encode_utf16_spec(s: Seq<char>) -> Seq<u16>
    decreases s.len(),
{
    if s.len() == 0 {
        Seq::empty()
    } else {
        encode_utf16_spec(s.drop_last()) + char_units(s.last())
    }
}

/// Whether the unit is a high (leading) surrogate.
pub open spec fn is_high_surrogate(u: u16) -> bool {
    0xD800 <= u <= 0xDBFF
}

/// Whether the unit is a low (trailing) surrogate.
pub open spec fn is_low_surrogate(u: u16) -> bool {
    0xDC00 <= u <= 0xDFFF
}

/// The character that replaces units that are not a character.
pub open spec fn replacement_char() -> char {
    '\u{FFFD}'
}

/// The characters of UTF-16 units from index `i` on: a unit that is not a
/// surrogate is a character, a high surrogate followed by a low one is the
/// character they encode together, and any other surrogate is U+FFFD.
pub open spec fn decode_utf16_from(u: Seq<u16>, i: int) -> Seq<char>
    decreases u.len() - i,
{
    if i < 0 || i >= u.len() {
        Seq::empty()
    } else if !is_high_surrogate(u[i]) && !is_low_surrogate(u[i]) {
        seq![u[i] as char] + decode_utf16_from(u, i + 1)
    } else if is_high_surrogate(u[i]) && i + 1 < u.len() && is_low_surrogate(u[i + 1]) {
        seq![
            ((0x10000 + (u[i] - 0xD800) * 1024 + (u[i + 1] - 0xDC00)) as u32) as char,
        ] + decode_utf16_from(u, i + 2)
    } else {
        seq![replacement_char()] + decode_utf16_from(u, i + 1)
    }
}

/// The characters of UTF-16 units, as `String::from_utf16_lossy` reads
/// them.
pub open spec fn decode_utf16_spec(u: Seq<u16>) -> Seq<char> {
    decode_utf16_from(u, 0)
}

/// The indexes where the lines of the first `k` units start: `0`, and the
/// index after each line feed.
pub open spec fn unit_line_starts(u: Seq<u16>, k: int) -> Seq<int>
    decreases k,
{
    if k <= 0 {
        seq![0int]
    } else if u[k - 1] == 10u16 {
        unit_line_starts(u, k - 1).push(k)
    } else {
        unit_line_starts(u, k - 1)
    }
}

/// The unit offset of a position: the start of its line plus its
/// character offset, if the line exists.
pub open spec fn offset_of(u: Seq<u16>, p: Position) -> Option<int> {
    let starts = unit_line_starts(u, u.len() as int);
    if (p.line as int) < starts.len() {
        Some(starts[p.line as int] + p.character)
    } else {
        None
    }
}

/// The units after one edit, or `None` if its range does not lie within
/// the text.
pub open spec fn apply_change_spec(u: Seq<u16>, range: Option<ChangeRange>, text: Seq<char>) -> Option<
    Seq<u16>,
> {
    match range {
        None => Some(encode_utf16_spec(text)),
        Some(r) => match (offset_of(u, r.start), offset_of(u, r.end)) {
            (Some(a), Some(b)) => if a <= b <= u.len() {
                Some(u.take(a) + encode_utf16_spec(text) + u.skip(b))
            } else {
                None
            },
            _ => None,
        },
    }
}

/// The units after the first `k` edits, or `None` if one of them does not
/// fit.
pub open spec fn apply_changes_spec(u: Seq<u16>, changes: Seq<ContentChange>, k: int) -> Option<
    Seq<u16>,
>
    decreases k,
{
    if k <= 0 {
        Some(u)
    } else {
        match apply_changes_spec(u, changes, k - 1) {
            Some(v) => apply_change_spec(v, changes[k - 1].range, changes[k - 1].text@),
            None => None,
        }
    }
}

/// The first `k` edits act the same in any two lists that agree on them.
proof fn lemma_changes_prefix(u: Seq<u16>, c1: Seq<ContentChange>, c2: Seq<ContentChange>, k: int)
    requires
        0 <= k <= c1.len(),
        k <= c2.len(),
        forall|i: int| 0 <= i < k ==> c1[i] == c2[i],
    ensures
        apply_changes_spec(u, c1, k) == apply_changes_spec(u, c2, k),
    decreases k,
{
    if k > 0 {
        lemma_changes_prefix(u, c1, c2, k - 1);
    }
}

/// Making the edits of one list and then those of another gives what
/// making the edits of both lists, one after the other, gives at once; if
/// an edit of the first list does not fit, neither way gives a text.
pub proof fn lemma_changes_compose(u: Seq<u16>, a: Seq<ContentChange>, b: Seq<ContentChange>)
    ensures
        apply_changes_spec(u, a + b, (a.len() + b.len()) as int) == match apply_changes_spec(
            u,
            a,
            a.len() as int,
        ) {
            Some(v) => apply_changes_spec(v, b, b.len() as int),
            None => None,
        },
{
    lemma_changes_compose_upto(u, a, b, b.len() as int);
}

/// The edits of a list and then the first `k` edits of another.
proof fn lemma_changes_compose_upto(u: Seq<u16>, a: Seq<ContentChange>, b: Seq<ContentChange>, k: int)
    requires
        0 <= k <= b.len(),
    ensures
        apply_changes_spec(u, a + b, a.len() + k) == match apply_changes_spec(u, a, a.len() as int) {
            Some(v) => apply_changes_spec(v, b, k),
            None => None,
        },
    decreases k,
{
    if k == 0 {
        lemma_changes_prefix(u, a + b, a, a.len() as int);
    } else {
        lemma_changes_compose_upto(u, a, b, k - 1);
        assert((a + b)[a.len() + k - 1] == b[k - 1]);
    }
}

/// Whether UTF-16 units from index `i` on are well formed: every high
/// surrogate is followed by a low one, and every low surrogate follows a
/// high one.
pub open spec fn well_formed_from(u: Seq<u16>, i: int) -> bool
    decreases u.len() - i,
{
    if i < 0 || i >= u.len() {
        true
    } else if !is_high_surrogate(u[i]) && !is_low_surrogate(u[i]) {
        well_formed_from(u, i + 1)
    } else if is_high_surrogate(u[i]) && i + 1 < u.len() && is_low_surrogate(u[i + 1]) {
        well_formed_from(u, i + 2)
    } else {
        false
    }
}

/// Encoding a concatenation encodes each part in turn.
proof fn lemma_encode_utf16_concat(a: Seq<char>, b: Seq<char>)
    ensures
        encode_utf16_spec(a + b) == encode_utf16_spec(a) + encode_utf16_spec(b),
    decreases b.len(),
{
    if b.len() == 0 {
        assert(a + b =~= a);
        assert(encode_utf16_spec(a) + encode_utf16_spec(b) =~= encode_utf16_spec(a));
    } else {
        lemma_encode_utf16_concat(a, b.drop_last());
        assert((a + b).drop_last() =~= a + b.drop_last());
        assert((a + b).last() == b.last());
        assert(encode_utf16_spec(a) + encode_utf16_spec(b) =~= encode_utf16_spec(a)
            + encode_utf16_spec(b.drop_last()) + char_units(b.last()));
    }
}

/// The units of one character, as `char_units` gives them, for a character
/// that a surrogate pair encodes.
proof fn lemma_pair_units(h: u16, l: u16)
    requires
        is_high_surrogate(h),
        is_low_surrogate(l),
    ensures
        ({
            let v = (0x10000 + (h - 0xD800) * 1024 + (l - 0xDC00)) as u32;
            &&& 0x10000 <= v <= 0x10FFFF
            &&& (0xD800 + (v - 0x10000) / 1024) as u16 == h
            &&& (0xDC00 + (v - 0x10000) % 1024) as u16 == l
        }),
{
    let hi = h - 0xD800;
    let lo = l - 0xDC00;
    assert((hi * 1024 + lo) / 1024 == hi && (hi * 1024 + lo) % 1024 == lo) by (nonlinear_arith)
        requires
            0 <= hi < 1024,
            0 <= lo < 1024,
    ;
}

/// Decoding well-formed UTF-16 units and encoding the characters again gives
/// the units back.
pub proof fn lemma_decode_encode_utf16(u: Seq<u16>, i: int)
    requires
        0 <= i <= u.len(),
        well_formed_from(u, i),
    ensures
        encode_utf16_spec(decode_utf16_from(u, i)) == u.skip(i),
    decreases u.len() - i,
{
    if i == u.len() {
        assert(u.skip(i) =~= Seq::<u16>::empty());
    } else if !is_high_surrogate(u[i]) && !is_low_surrogate(u[i]) {
        lemma_decode_encode_utf16(u, i + 1);
        let c = u[i] as char;
        assert(c as u32 == u[i] as u32);
        lemma_encode_utf16_concat(seq![c], decode_utf16_from(u, i + 1));
        assert(encode_utf16_spec(seq![c]) =~= char_units(c)) by {
            assert(seq![c].drop_last() =~= Seq::<char>::empty());
            assert(encode_utf16_spec(Seq::<char>::empty()) =~= Seq::<u16>::empty());
            assert(Seq::<u16>::empty() + char_units(c) =~= char_units(c));
        }
        assert(u.skip(i) =~= seq![u[i]] + u.skip(i + 1));
    } else {
        lemma_decode_encode_utf16(u, i + 2);
        lemma_pair_units(u[i], u[i + 1]);
        let v = (0x10000 + (u[i] - 0xD800) * 1024 + (u[i + 1] - 0xDC00)) as u32;
        let c = v as char;
        assert(c as u32 == v);
        lemma_encode_utf16_concat(seq![c], decode_utf16_from(u, i + 2));
        assert(encode_utf16_spec(seq![c]) =~= char_units(c)) by {
            assert(seq![c].drop_last() =~= Seq::<char>::empty());
            assert(encode_utf16_spec(Seq::<char>::empty()) =~= Seq::<u16>::empty());
            assert(Seq::<u16>::empty() + char_units(c) =~= char_units(c));
        }
        assert(u.skip(i) =~= seq![u[i], u[i + 1]] + u.skip(i + 2));
    }
}

/// Making edits to a text in two rounds gives the text that making them in
/// one round gives, when the units between the rounds are well-formed
/// UTF-16 (without an unpaired surrogate, which reading would replace).
pub proof fn lemma_content_changes_compose(t: Seq<char>, a: Seq<ContentChange>, b: Seq<ContentChange>)
    requires
        apply_changes_spec(encode_utf16_spec(t), a, a.len() as int) is Some,
        well_formed_from(apply_changes_spec(encode_utf16_spec(t), a, a.len() as int)->Some_0, 0),
    ensures
        ({
            let v = apply_changes_spec(encode_utf16_spec(t), a, a.len() as int)->Some_0;
            apply_changes_spec(encode_utf16_spec(decode_utf16_spec(v)), b, b.len() as int)
                == apply_changes_spec(encode_utf16_spec(t), a + b, (a.len() + b.len()) as int)
        }),
{
    let v = apply_changes_spec(encode_utf16_spec(t), a, a.len() as int)->Some_0;
    lemma_decode_encode_utf16(v, 0);
    assert(v.skip(0) =~= v);
    lemma_changes_compose(encode_utf16_spec(t), a, b);
}

/// Returns the UTF-16 code units of a text.
pub fn encode_utf16(s: &str) -> (u: Vec<u16>)
    ensures
        u@ == encode_utf16_spec(s@),
{
    let mut u: Vec<u16> = Vec::new();
    for c in it: s.chars()
        invariant
            it.seq() == s@,
            u@ == encode_utf16_spec(it.seq().take(it.index() as int)),
    {
        let ghost before = it.seq().take(it.index() as int);
        let v = c as u32;
        proof {
            assert(it.seq().take(it.index() + 1).drop_last() =~= before);
            crate::utf8::lemma_char_is_scalar(c);
        }
        if v < 0x10000 {
            u.push(v as u16);
        } else {
            let w = v - 0x10000;
            u.push((0xD800 + w / 1024) as u16);
            u.push((0xDC00 + w % 1024) as u16);
        }
        proof {
            assert(u@ =~= encode_utf16_spec(before) + char_units(c));
        }
    }
    proof {
        assert(s@.take(s@.len() as int) =~= s@);
    }
    u
}

/// Returns the character with the given scalar value.
///
/// This is `char::from_u32` of std, which gives the character whose scalar
/// value is `v` when `v` is one (outside the surrogates, at most
/// U+10FFFF).
#[verifier::external_body]
fn char_from_scalar(v: u32) -> (c: char)
    requires
        v <= 0xD7FF || (0xE000 <= v <= 0x10FFFF),
    ensures
        c == (v as char),
{
    char::from_u32(v).unwrap()
}

/// Returns the text made of the given characters.
///
/// This is `FromIterator<char>` for `String` in std, which appends the
/// characters in order.
#[verifier::external_body]
fn string_from_chars(chars: &Vec<char>) -> (s: String)
    ensures
        s@ == chars@,
{
    chars.iter().collect()
}

/// Returns the text of UTF-16 units, with each unpaired surrogate read as
/// U+FFFD.
pub fn decode_utf16_lossy(u: &Vec<u16>) -> (s: String)
    ensures
        s@ == decode_utf16_spec(u@),
{
    let mut chars: Vec<char> = Vec::new();
    let mut i: usize = 0;
    let n = u.len();
    while i < n
        invariant
            n == u@.len(),
            i <= n,
            chars@ + decode_utf16_from(u@, i as int) == decode_utf16_spec(u@),
        decreases n - i,
    {
        let a = u[i];
        let ghost rest = decode_utf16_from(u@, i as int);
        if !(0xD800 <= a && a <= 0xDFFF) {
            let c = char_from_scalar(a as u32);
            chars.push(c);
            i = i + 1;
            proof {
                assert(rest == seq![c] + decode_utf16_from(u@, i as int));
                assert(chars@ + decode_utf16_from(u@, i as int) =~= chars@.drop_last() + rest);
            }
        } else if a <= 0xDBFF && i + 1 < n && 0xDC00 <= u[i + 1] && u[i + 1] <= 0xDFFF {
            let b = u[i + 1];
            let v: u32 = 0x10000 + (a as u32 - 0xD800) * 1024 + (b as u32 - 0xDC00);
            let c = char_from_scalar(v);
            chars.push(c);
            i = i + 2;
            proof {
                assert(rest == seq![c] + decode_utf16_from(u@, i as int));
                assert(chars@ + decode_utf16_from(u@, i as int) =~= chars@.drop_last() + rest);
            }
        } else {
            chars.push('\u{FFFD}');
            i = i + 1;
            proof {
                assert(rest == seq![replacement_char()] + decode_utf16_from(u@, i as int));
                assert(chars@ + decode_utf16_from(u@, i as int) =~= chars@.drop_last() + rest);
            }
        }
    }
    proof {
        assert(chars@ + Seq::<char>::empty() =~= chars@);
    }
    string_from_chars(&chars)
}

/// Returns where the lines of UTF-16 units start.
fn unit_line_indices(u: &Vec<u16>) -> (r: Vec<usize>)
    ensures
        r@.len() == unit_line_starts(u@, u@.len() as int).len(),
        forall|i: int| 0 <= i < r@.len() ==> r@[i] == unit_line_starts(u@, u@.len() as int)[i],
{
    let mut r: Vec<usize> = Vec::new();
    r.push(0);
    let mut i: usize = 0;
    while i < u.len()
        invariant
            i <= u@.len(),
            r@.len() == unit_line_starts(u@, i as int).len(),
            forall|j: int| 0 <= j < r@.len() ==> r@[j] == unit_line_starts(u@, i as int)[j],
        decreases u@.len() - i,
    {
        if u[i] == 10u16 {
            r.push(i + 1);
        }
        i = i + 1;
    }
    r
}

/// Returns the unit offsets of a range of positions, which must both be on
/// lines of the text.
pub fn range_over(u: &Vec<u16>, range: ChangeRange) -> (r: Range<usize>)
    requires
        offset_of(u@, range.start) matches Some(a) && a <= usize::MAX,
        offset_of(u@, range.end) matches Some(b) && b <= usize::MAX,
    ensures
        offset_of(u@, range.start) == Some(r.start as int),
        offset_of(u@, range.end) == Some(r.end as int),
{
    let indices = unit_line_indices(u);
    let start = indices[range.start.line as usize] + range.start.character as usize;
    let end = indices[range.end.line as usize] + range.end.character as usize;
    start..end
}

/// Checks whether the edit fits the text: its positions are on lines of the
/// text, in order, and within it.
fn change_fits(u: &Vec<u16>, range: ChangeRange) -> (b: bool)
    ensures
        b == (offset_of(u@, range.start) matches Some(a) && offset_of(u@, range.end) matches Some(
            e,
        ) && a <= e <= u@.len()),
{
    let indices = unit_line_indices(u);
    let sl = range.start.line as usize;
    let el = range.end.line as usize;
    if sl >= indices.len() || el >= indices.len() {
        return false;
    }
    let a = indices[sl] as u128 + range.start.character as u128;
    let e = indices[el] as u128 + range.end.character as u128;
    a <= e && e <= u.len() as u128
}

/// Returns the units after one edit that fits the text.
fn apply_change(u: &Vec<u16>, change: &ContentChange) -> (r: Vec<u16>)
    requires
        apply_change_spec(u@, change.range, change.text@) is Some,
    ensures
        Some(r@) == apply_change_spec(u@, change.range, change.text@),
{
    let text = encode_utf16(change.text.as_str());
    match change.range {
        None => text,
        Some(range) => {
            let len = u.len();
            let r = range_over(u, range);
            let mut out: Vec<u16> = Vec::new();
            let mut i: usize = 0;
            while i < r.start
                invariant
                    r.start <= r.end <= u@.len(),
                    i <= r.start,
                    out@ == u@.take(i as int),
                decreases r.start - i,
            {
                out.push(u[i]);
                i = i + 1;
                proof {
                    assert(out@ =~= u@.take(i as int));
                }
            }
            let mut j: usize = 0;
            while j < text.len()
                invariant
                    out@ == u@.take(r.start as int) + text@.take(j as int),
                    j <= text@.len(),
                decreases text@.len() - j,
            {
                out.push(text[j]);
                j = j + 1;
                proof {
                    assert(out@ =~= u@.take(r.start as int) + text@.take(j as int));
                }
            }
            let mut k: usize = r.end;
            while k < u.len()
                invariant
                    r.end <= k <= u@.len(),
                    out@ == u@.take(r.start as int) + text@ + u@.subrange(r.end as int, k as int),
                decreases u@.len() - k,
            {
                out.push(u[k]);
                k = k + 1;
                proof {
                    assert(out@ =~= u@.take(r.start as int) + text@ + u@.subrange(r.end as int, k as int));
                }
            }
            proof {
                assert(text@.take(text@.len() as int) =~= text@);
                assert(u@.subrange(r.end as int, u@.len() as int) =~= u@.skip(r.end as int));
            }
            out
        },
    }
}

/// Checks whether every edit fits the text as the edits before it left
/// it.
pub fn content_changes_fit(old_text: &str, content_changes: &Vec<ContentChange>) -> (b: bool)
    ensures
        b == (apply_changes_spec(
            encode_utf16_spec(old_text@),
            content_changes@,
            content_changes@.len() as int,
        ) is Some),
{
    let mut u = encode_utf16(old_text);
    let mut i: usize = 0;
    while i < content_changes.len()
        invariant
            i <= content_changes@.len(),
            apply_changes_spec(encode_utf16_spec(old_text@), content_changes@, i as int) == Some(u@),
        decreases content_changes@.len() - i,
    {
        let change = &content_changes[i];
        match change.range {
            Some(range) => {
                if !change_fits(&u, range) {
                    proof {
                        lemma_apply_changes_none(encode_utf16_spec(old_text@), content_changes@, i + 1, content_changes@.len() as int);
                    }
                    return false;
                }
            },
            None => {},
        }
        u = apply_change(&u, change);
        i = i + 1;
    }
    true
}

/// Once an edit does not fit, the edits after it do not either.
proof fn lemma_apply_changes_none(u: Seq<u16>, changes: Seq<ContentChange>, k: int, n: int)
    requires
        0 <= k <= n,
        apply_changes_spec(u, changes, k) is None,
    ensures
        apply_changes_spec(u, changes, n) is None,
    decreases n - k,
{
    if k < n {
        lemma_apply_changes_none(u, changes, k + 1, n);
    }
}

/// Applies the edits, in order, to the text, and returns the text they
/// give. Every edit must fit the text as the edits before it left it.
pub fn apply_content_changes(old_text: &str, content_changes: Vec<ContentChange>) -> (s: String)
    requires
        apply_changes_spec(
            encode_utf16_spec(old_text@),
            content_changes@,
            content_changes@.len() as int,
        ) is Some,
    ensures
        s@ == decode_utf16_spec(
            apply_changes_spec(
                encode_utf16_spec(old_text@),
                content_changes@,
                content_changes@.len() as int,
            )->Some_0,
        ),
{
    let mut u = encode_utf16(old_text);
    let mut i: usize = 0;
    let n = content_changes.len();
    while i < n
        invariant
            n == content_changes@.len(),
            i <= n,
            apply_changes_spec(encode_utf16_spec(old_text@), content_changes@, i as int) == Some(u@),
            apply_changes_spec(encode_utf16_spec(old_text@), content_changes@, n as int) is Some,
        decreases n - i,
    {
        proof {
            if apply_change_spec(u@, content_changes@[i as int].range, content_changes@[i as int].text@) is None {
                lemma_apply_changes_none(encode_utf16_spec(old_text@), content_changes@, i + 1, n as int);
            }
        }
        u = apply_change(&u, &content_changes[i]);
        i = i + 1;
    }
    decode_utf16_lossy(&u)
}

} // verus!
