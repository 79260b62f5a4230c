//! Iterating over the characters of a Helios source text.
//!
//! A [`Cursor`] walks the characters of a source text from the start, keeping
//! track of its position both as a character index and as a byte offset, and
//! of a stack of checkpoints from which the consumed text can be sliced.

use vstd::prelude::*;

use std::ops::Range;
use vstd::utf8::encode_utf8;

use crate::utf8::{
    byte_len, byte_offset, char_len_utf8, lemma_byte_offset_injective, lemma_byte_offset_mono,
    lemma_byte_offset_step,
    str_slice,
};

verus! {

/// The character that peeking past the end of the input yields.
pub const EOF_CHAR: char = '\0';

/// The abstract state of a [`Cursor`]: the source text, the number of
/// characters consumed, and the character indexes of the checkpoints (the
/// most recent last).
pub struct CursorView {
    pub text: Seq<char>,
    pub index: nat,
    pub checkpoints: Seq<nat>,
}

impl CursorView {
    /// The cursor stands within its text, which fits in memory, and each
    /// checkpoint lies at or before it.
    pub open spec fn valid(self) -> bool {
        &&& self.index <= self.text.len()
        &&& byte_len(self.text) <= usize::MAX
        &&& self.pos() <= byte_len(self.text)
        &&& forall|k: int| 0 <= k < self.checkpoints.len() ==> #[trigger] self.checkpoints[k] <= self.index
    }

    /// The byte offset of the cursor.
    pub open spec fn pos(self) -> nat {
        byte_offset(self.text, self.index as int)
    }

    /// The character index where the next slice starts: the most recent
    /// checkpoint, or the start of the text if there is none.
    pub open spec fn slice_start(self) -> nat {
        if self.checkpoints.len() == 0 {
            0
        } else {
            self.checkpoints.last()
        }
    }

    /// The checkpoints that remain once the most recent one is removed.
    pub open spec fn popped(self) -> Seq<nat> {
        if self.checkpoints.len() == 0 {
            self.checkpoints
        } else {
            self.checkpoints.drop_last()
        }
    }

    /// The character `n` places after the cursor, or [`EOF_CHAR`] past the end.
    pub open spec fn peek(self, n: int) -> char {
        if 0 <= self.index + n < self.text.len() {
            self.text[self.index + n]
        } else {
            EOF_CHAR
        }
    }
}

/// A position in a Helios source text.
pub struct Cursor<'source> {
    source: &'source str,
    chars: Vec<char>,
    index: usize,
    pos: usize,
    checkpoints: Vec<(usize, usize)>,
}

impl<'source> View for Cursor<'source> {
    type V = CursorView;

    closed spec fn view(&self) -> CursorView {
        CursorView {
            text: self.chars@,
            index: self.index as nat,
            checkpoints: self.checkpoints@.map_values(|p: (usize, usize)| p.1 as nat),
        }
    }
}

impl<'source> Cursor<'source> {
    /// The cursor is consistent: it walks the characters of its source, its
    /// byte offset matches its character index, and each checkpoint lies at
    /// or before the cursor with a matching byte offset.
    pub closed spec fn wf(&self) -> bool {
        &&& self.chars@ == self.source@
        &&& self.index <= self.chars.len()
        &&& self.pos == byte_offset(self.chars@, self.index as int)
        &&& byte_len(self.chars@) <= usize::MAX
        &&& forall|k: int|
            0 <= k < self.checkpoints.len() ==> {
                let (p, i) = #[trigger] self.checkpoints@[k];
                &&& i <= self.index
                &&& p == byte_offset(self.chars@, i as int)
            }
    }

    /// The source text that the cursor walks.
    pub closed spec fn source_spec(&self) -> &'source str {
        self.source
    }

    /// Constructs a new cursor at the start of the given source text.
    pub fn new(source: &'source str) -> (c: Self)
        ensures
            c.wf(),
            c@.valid(),
            c@.text == source@,
            c@.index == 0,
            c@.checkpoints == Seq::<nat>::empty(),
            c.source_spec() == source,
    {
        let mut chars: Vec<char> = Vec::new();
        for ch in it: source.chars()
            invariant
                it.seq() == source@,
                chars@ == it.seq().take(it.index() as int),
        {
            chars.push(ch);
            proof {
                assert(chars@ =~= it.seq().take(it.index() + 1));
            }
        }
        proof {
            assert(chars@ =~= source@);
            assert(chars@.take(0) =~= Seq::<char>::empty());
        }
        let _total = source.as_bytes().len();
        let c = Cursor { source, chars, index: 0, pos: 0, checkpoints: Vec::new() };
        proof {
            assert(c@.checkpoints =~= Seq::<nat>::empty());
            c.lemma_bounds();
        }
        c
    }

    /// Advances to the next character, returning it, or returns `None` at
    /// the end of the input.
    pub fn advance(&mut self) -> (c: Option<char>)
        requires
            old(self).wf(),
        ensures
            final(self).wf(),
            final(self)@.valid(),
            final(self).source_spec() == old(self).source_spec(),
            final(self)@.text == old(self)@.text,
            final(self)@.checkpoints == old(self)@.checkpoints,
            old(self)@.index < old(self)@.text.len() ==> {
                &&& c == Some(old(self)@.text[old(self)@.index as int])
                &&& final(self)@.index == old(self)@.index + 1
            },
            old(self)@.index >= old(self)@.text.len() ==> {
                &&& c is None
                &&& final(self)@.index == old(self)@.index
            },
    {
        if self.index < self.chars.len() {
            let c = self.chars[self.index];
            proof {
                lemma_byte_offset_step(self.chars@, self.index as int);
                lemma_byte_offset_mono(self.chars@, self.index + 1, self.chars@.len() as int);
            }
            let width = char_len_utf8(c);
            self.pos = self.pos + width;
            self.index = self.index + 1;
            proof {
                assert forall|k: int| 0 <= k < self.checkpoints.len() implies {
                    let (p, i) = #[trigger] self.checkpoints@[k];
                    &&& i <= self.index
                    &&& p == byte_offset(self.chars@, i as int)
                } by {}
                assert(self@.checkpoints =~= old(self)@.checkpoints);
                self.lemma_bounds();
            }
            Some(c)
        } else {
            proof {
                self.lemma_bounds();
            }
            None
        }
    }

    /// Creates a new checkpoint at the current position.
    ///
    /// A checkpoint marks where the next slice of consumed text starts; see
    /// [`Cursor::span`] and [`Cursor::slice`].
    pub fn checkpoint(&mut self)
        requires
            old(self).wf(),
        ensures
            final(self).wf(),
            final(self)@.valid(),
            final(self).source_spec() == old(self).source_spec(),
            final(self)@.text == old(self)@.text,
            final(self)@.index == old(self)@.index,
            final(self)@.checkpoints == old(self)@.checkpoints.push(old(self)@.index),
    {
        self.checkpoints.push((self.pos, self.index));
        proof {
            assert(self@.checkpoints =~= old(self)@.checkpoints.push(old(self)@.index));
            self.lemma_bounds();
        }
    }

    /// Removes the most recent checkpoint, returning its byte offset and
    /// character index (the start of the text if there was none).
    fn pop_checkpoint(&mut self) -> (r: (usize, usize))
        requires
            old(self).wf(),
        ensures
            final(self).wf(),
            final(self)@.valid(),
            final(self).source_spec() == old(self).source_spec(),
            final(self)@.text == old(self)@.text,
            final(self)@.index == old(self)@.index,
            final(self)@.checkpoints == old(self)@.popped(),
            r.1 == old(self)@.slice_start(),
            r.0 == byte_offset(old(self)@.text, r.1 as int),
            r.1 <= old(self)@.index,
    {
        match self.checkpoints.pop() {
            Some(p) => {
                proof {
                    let k = old(self).checkpoints@.len() - 1;
                    assert(old(self).checkpoints@[k] == p);
                    assert(self@.checkpoints =~= old(self)@.popped());
                    self.lemma_bounds();
                }
                p
            },
            None => {
                proof {
                    assert(self.chars@.take(0) =~= Seq::<char>::empty());
                    assert(encode_utf8(Seq::<char>::empty()) =~= Seq::<u8>::empty());
                    self.lemma_bounds();
                }
                (0, 0)
            },
        }
    }

    /// The byte range of the text consumed since the most recent checkpoint
    /// (or since the start, if there is none).
    ///
    /// The most recent checkpoint is removed from the stack.
    pub fn span(&mut self) -> (r: Range<usize>)
        requires
            old(self).wf(),
        ensures
            final(self).wf(),
            final(self)@.valid(),
            final(self).source_spec() == old(self).source_spec(),
            final(self)@.text == old(self)@.text,
            final(self)@.index == old(self)@.index,
            final(self)@.checkpoints == old(self)@.popped(),
            r.start == byte_offset(old(self)@.text, old(self)@.slice_start() as int),
            r.end == old(self)@.pos(),
            r.start <= r.end,
    {
        let (start, i) = self.pop_checkpoint();
        proof {
            lemma_byte_offset_mono(self.chars@, i as int, self.index as int);
        }
        start..self.pos
    }

    /// The text consumed since the most recent checkpoint (or since the
    /// start, if there is none).
    ///
    /// The most recent checkpoint is removed from the stack.
    pub fn slice(&mut self) -> (r: &'source str)
        requires
            old(self).wf(),
        ensures
            final(self).wf(),
            final(self)@.valid(),
            final(self).source_spec() == old(self).source_spec(),
            final(self)@.text == old(self)@.text,
            final(self)@.index == old(self)@.index,
            final(self)@.checkpoints == old(self)@.popped(),
            r@ == old(self)@.text.subrange(old(self)@.slice_start() as int, old(self)@.index as int),
    {
        let (start, i) = self.pop_checkpoint();
        proof {
            lemma_byte_offset_mono(self.chars@, i as int, self.index as int);
            assert(self.source@.len() == self.chars@.len());
        }
        let r = str_slice(self.source, start, self.pos);
        proof {
            assert(r@ == self.source@.subrange(i as int, self.index as int));
        }
        r
    }

    /// The length of the whole source text, in bytes.
    pub fn source_len(&self) -> (n: usize)
        requires
            self.wf(),
        ensures
            n == byte_len(self@.text),
    {
        self.source.as_bytes().len()
    }

    /// The length of the input that is not consumed yet, in bytes.
    pub fn remaining_len(&self) -> (n: usize)
        requires
            self.wf(),
        ensures
            n == byte_len(self@.text) - self@.pos(),
    {
        proof {
            lemma_byte_offset_mono(self.chars@, self.index as int, self.chars@.len() as int);
        }
        self.source_len() - self.pos()
    }

    /// The position of the cursor, in bytes.
    pub fn pos(&self) -> (n: usize)
        requires
            self.wf(),
        ensures
            n == self@.pos(),
    {
        self.pos
    }

    /// The number of characters consumed so far.
    pub fn char_index(&self) -> (n: usize)
        requires
            self.wf(),
        ensures
            n == self@.index,
    {
        self.index
    }

    /// Returns the character `n` places after the cursor without consuming
    /// anything, or [`EOF_CHAR`] past the end of the input.
    pub fn nth(&self, n: usize) -> (c: char)
        requires
            self.wf(),
        ensures
            c == self@.peek(n as int),
    {
        if n < self.chars.len() - self.index {
            self.chars[self.index + n]
        } else {
            EOF_CHAR
        }
    }

    /// Checks if the cursor has reached the end of the input.
    pub fn is_at_end(&self) -> (b: bool)
        requires
            self.wf(),
        ensures
            b == (self@.index >= self@.text.len()),
    {
        proof {
            let len = self.chars@.len() as int;
            lemma_byte_offset_mono(self.chars@, self.index as int, len);
            assert(self.chars@.take(len) =~= self.chars@);
        }
        self.pos() >= self.source_len()
    }

    /// What consistency gives a caller: the cursor lies within its text, the
    /// text fits in memory, and each checkpoint lies at or before the cursor.
    pub proof fn lemma_bounds(&self)
        requires
            self.wf(),
        ensures
            self@.index <= self@.text.len(),
            self@.text.len() <= usize::MAX,
            byte_len(self@.text) <= usize::MAX,
            self@.pos() <= byte_len(self@.text),
            self.source_spec()@ == self@.text,
            forall|k: int| 0 <= k < self@.checkpoints.len() ==> self@.checkpoints[k] <= self@.index,
    {
        lemma_byte_offset_mono(self.chars@, self.index as int, self.chars@.len() as int);
        assert forall|k: int| 0 <= k < self@.checkpoints.len() implies self@.checkpoints[k] <= self@.index by {
            let (p, i) = self.checkpoints@[k];
        }
    }

    /// The cursor is at the end of its input exactly when its byte offset is
    /// the length of the source, that is when no byte of the input remains;
    /// and only then does [`Cursor::advance`] yield nothing.
    pub proof fn lemma_at_end(&self)
        requires
            self.wf(),
        ensures
            self@.index >= self@.text.len() <==> self@.pos() == byte_len(self@.text),
            self@.index >= self@.text.len() <==> byte_len(self@.text) - self@.pos() == 0,
            self@.pos() <= byte_len(self@.text),
    {
        let len = self.chars@.len() as int;
        lemma_byte_offset_mono(self.chars@, self.index as int, len);
        assert(self.chars@.take(len) =~= self.chars@);
        if self@.pos() == byte_len(self@.text) {
            lemma_byte_offset_injective(self.chars@, self.index as int, len);
        }
    }
}

impl CursorView {
    /// Checkpoints are taken back last in, first out: once a checkpoint is
    /// pushed at the cursor, a later span or slice that finds it on top of the
    /// stack starts where the cursor stood then, and leaves the stack as it
    /// was before the checkpoint.
    pub proof fn lemma_checkpoint_lifo(self, later: CursorView)
        requires
            later.text == self.text,
            later.checkpoints == self.checkpoints.push(self.index),
        ensures
            later.slice_start() == self.index,
            later.popped() == self.checkpoints,
            byte_offset(later.text, later.slice_start() as int) == self.pos(),
    {
        assert(later.checkpoints.drop_last() =~= self.checkpoints);
    }

    /// Spans nest: with a checkpoint taken at `outer`, then the cursor moved
    /// on, then a checkpoint taken at `inner`, then the cursor moved on to
    /// `now`, the first span runs from `inner`'s position to the cursor and
    /// leaves the stack as it was at `inner`, and the second runs from
    /// `outer`'s position to the cursor and leaves the stack as it was at
    /// `outer`. (A span never moves the cursor: see [`Cursor::span`].)
    pub proof fn lemma_nested_spans(outer: CursorView, inner: CursorView, now: CursorView)
        requires
            inner.text == outer.text,
            inner.checkpoints == outer.checkpoints.push(outer.index),
            now.text == outer.text,
            now.checkpoints == inner.checkpoints.push(inner.index),
        ensures
            byte_offset(now.text, now.slice_start() as int) == inner.pos(),
            now.popped() == inner.checkpoints,
            ({
                let after = CursorView { checkpoints: now.popped(), ..now };
                &&& byte_offset(after.text, after.slice_start() as int) == outer.pos()
                &&& after.popped() == outer.checkpoints
            }),
    {
        inner.lemma_checkpoint_lifo(now);
        let after = CursorView { checkpoints: now.popped(), ..now };
        outer.lemma_checkpoint_lifo(after);
    }

    /// At the end exactly when no byte remains: for a cursor that stands
    /// within its text, being at the end of it, standing at its byte
    /// length, and having no byte left are the same.
    pub proof fn lemma_end(self)
        requires
            self.valid(),
        ensures
            self.index >= self.text.len() <==> self.pos() == byte_len(self.text),
            self.index >= self.text.len() <==> byte_len(self.text) - self.pos() == 0,
    {
        let len = self.text.len() as int;
        lemma_byte_offset_mono(self.text, self.index as int, len);
        assert(self.text.take(len) =~= self.text);
        if self.pos() == byte_len(self.text) {
            lemma_byte_offset_injective(self.text, self.index as int, len);
        }
    }

    /// With no checkpoint, a span or slice starts at the start of the text
    /// and leaves the stack empty.
    pub proof fn lemma_no_checkpoint(self)
        requires
            self.checkpoints.len() == 0,
        ensures
            self.slice_start() == 0,
            byte_offset(self.text, self.slice_start() as int) == 0,
            self.popped() == self.checkpoints,
    {
        assert(self.text.take(0) =~= Seq::<char>::empty());
        assert(vstd::utf8::encode_utf8(Seq::<char>::empty()) =~= Seq::<u8>::empty());
    }
}

} // verus!
