//! Turning the line feeds of a token list into indentation tokens.
//!
//! A line feed token holds the spaces that follow it, which are the
//! indentation of the next line. Against a stack of the indentations of the
//! enclosing blocks (starting with `0`), a line feed at the same indentation
//! as the innermost block stays as it is; a deeper one opens a block and
//! becomes an `Indent` token; a shallower one closes blocks until it finds
//! one of the same indentation and becomes a `Dedent` token, or, if it falls
//! between two blocks, the rest of its line becomes an `Error` token.

use vstd::prelude::*;
use vstd::string::*;

use crate::lexer::Token;
use crate::syntax_kind::SyntaxKind;
use crate::utf8::byte_len;

verus! {

/// A token as plain values: its kind, its text and its byte range.
pub type TokenView = (SyntaxKind, Seq<char>, usize, usize);

/// The plain values of a token.
pub open spec fn token_view(t: Token) -> TokenView {
    (t.kind, t.text@, t.range.start, t.range.end)
}

/// The plain values of the given tokens, in order.
pub open spec fn token_views(ts: Seq<Token>) -> Seq<TokenView> {
    ts.map_values(|t: Token| token_view(t))
}

/// The indentation that a line feed token holds: the number of bytes of its
/// text after the line feed.
pub open spec fn indent_of(t: Token) -> usize {
    (byte_len(t.text@) - 1) as usize
}

/// Every line feed token starts with a line feed.
pub open spec fn newlines_ok(ts: Seq<Token>) -> bool {
    forall|i: int|
        0 <= i < ts.len() && (#[trigger] ts[i]).kind == SyntaxKind::Newline ==> ts[i].text@.len()
            >= 1 && ts[i].text@[0] == '\n'
}

/// The innermost indentation of the stack, or `0` if it is empty.
pub open spec fn top_of(stack: Seq<usize>) -> usize {
    if stack.len() > 0 {
        stack.last()
    } else {
        0
    }
}

/// Closes blocks for a line at indentation `c`: pops the innermost block,
/// then goes on while `c` is less than the next one. Returns the stack that
/// remains and whether `c` is the indentation of its innermost block.
pub open spec fn unwind(stack: Seq<usize>, c: usize) -> (Seq<usize>, bool)
    decreases stack.len(),
{
    let rest = if stack.len() > 0 {
        stack.drop_last()
    } else {
        stack
    };
    if c == top_of(rest) {
        (rest, true)
    } else if c < top_of(rest) && rest.len() < stack.len() {
        unwind(rest, c)
    } else {
        (rest, false)
    }
}

/// The index of the first line feed token at or after `i`, or the number of
/// tokens if there is none.
pub open spec fn next_newline(ts: Seq<Token>, i: int) -> int
    decreases ts.len() - i,
{
    if i < 0 || i >= ts.len() {
        ts.len() as int
    } else if ts[i].kind == SyntaxKind::Newline {
        i
    } else {
        next_newline(ts, i + 1)
    }
}

/// The next line feed lies at or after the index, within the tokens.
pub proof fn lemma_next_newline(ts: Seq<Token>, i: int)
    requires
        0 <= i,
    ensures
        i <= next_newline(ts, i) || next_newline(ts, i) == ts.len(),
        next_newline(ts, i) <= ts.len(),
        next_newline(ts, i) < ts.len() ==> ts[next_newline(ts, i)].kind == SyntaxKind::Newline,
    decreases ts.len() - i,
{
    if i < ts.len() && ts[i].kind != SyntaxKind::Newline {
        lemma_next_newline(ts, i + 1);
    }
}

/// The end of the last token before the next line feed from `i` on, or
/// `end` if there is none.
pub open spec fn line_end(ts: Seq<Token>, i: int, end: usize) -> usize
    decreases ts.len() - i,
{
    if i < 0 || i >= ts.len() || ts[i].kind == SyntaxKind::Newline {
        end
    } else {
        line_end(ts, i + 1, ts[i].range.end)
    }
}

/// The processed tokens from index `i` on, with the given stack of block
/// indentations.
pub open spec fn process_from(ts: Seq<Token>, i: int, stack: Seq<usize>) -> Seq<TokenView>
    decreases ts.len() - i,
{
    if i < 0 || i >= ts.len() {
        Seq::empty()
    } else {
        let t = ts[i];
        if t.kind != SyntaxKind::Newline {
            seq![token_view(t)] + process_from(ts, i + 1, stack)
        } else {
            let c = indent_of(t);
            if c == top_of(stack) {
                seq![token_view(t)] + process_from(ts, i + 1, stack)
            } else if c > top_of(stack) {
                seq![(SyntaxKind::Indent, t.text@, t.range.start, t.range.end)] + process_from(
                    ts,
                    i + 1,
                    stack.push(c),
                )
            } else {
                let (rest, same) = unwind(stack, c);
                if same {
                    seq![(SyntaxKind::Dedent, t.text@, t.range.start, t.range.end)] + process_from(
                        ts,
                        i + 1,
                        rest,
                    )
                } else {
                    let j = next_newline(ts, i + 1);
                    proof {
                        lemma_next_newline(ts, i + 1);
                    }
                    seq![
                        (SyntaxKind::Error, Seq::<char>::empty(), t.range.start, line_end(ts, i + 1, t.range.end)),
                    ] + process_from(
                        ts,
                        if j < ts.len() {
                            j + 1
                        } else {
                            ts.len() as int
                        },
                        rest,
                    )
                }
            }
        }
    }
}

/// The processed tokens of a token list.
pub open spec fn process_indentations_spec(ts: Seq<Token>) -> Seq<TokenView> {
    process_from(ts, 0, seq![0usize])
}

/// The token with the same text and range and the given kind.
fn with_kind<'source>(t: &Token<'source>, kind: SyntaxKind) -> (r: Token<'source>)
    ensures
        token_view(r) == (kind, t.text@, t.range.start, t.range.end),
{
    Token { kind, text: t.text, range: t.range.start..t.range.end }
}

/// Replaces the line feed tokens of the list by indentation tokens, as the
/// module documentation describes.
pub fn process_indentations<'source>(tokens: Vec<Token<'source>>) -> (r: Vec<Token<'source>>)
    requires
        newlines_ok(tokens@),
    ensures
        token_views(r@) == process_indentations_spec(tokens@),
{
    let ghost ts = tokens@;
    let mut out: Vec<Token<'source>> = Vec::new();
    let mut stack: Vec<usize> = Vec::new();
    stack.push(0);
    let mut i: usize = 0;
    proof {
        assert(stack@ =~= seq![0usize]);
        assert(token_views(out@) + process_from(ts, 0, stack@) =~= process_indentations_spec(ts));
    }
    while i < tokens.len()
        invariant
            ts == tokens@,
            newlines_ok(ts),
            i <= ts.len(),
            token_views(out@) + process_from(ts, i as int, stack@) == process_indentations_spec(ts),
        decreases ts.len() - i,
    {
        let ghost old_out = token_views(out@);
        let ghost old_stack = stack@;
        let ghost ii = i as int;
        let t = &tokens[i];
        if t.kind != SyntaxKind::Newline {
            out.push(t.clone());
            i = i + 1;
            proof {
                assert(token_views(out@) =~= old_out + seq![token_view(ts[ii])]);
            }
        } else {
            let len = t.text.as_bytes().len();
            proof {
                assert(ts[ii].text@.len() >= 1);
                assert(len == byte_len(ts[ii].text@));
                crate::utf8::lemma_byte_offset_mono(ts[ii].text@, 0, 1);
                assert(ts[ii].text@.take(1) =~= seq!['\n']);
                crate::utf8::lemma_byte_len_single('\n');
            }
            let c = len - 1;
            let top = if stack.len() > 0 {
                stack[stack.len() - 1]
            } else {
                0
            };
            if c == top {
                out.push(t.clone());
                i = i + 1;
                proof {
                    assert(token_views(out@) =~= old_out + seq![token_view(ts[ii])]);
                }
            } else if c > top {
                stack.push(c);
                out.push(with_kind(t, SyntaxKind::Indent));
                i = i + 1;
                proof {
                    assert(token_views(out@) =~= old_out + seq![
                        (SyntaxKind::Indent, ts[ii].text@, ts[ii].range.start, ts[ii].range.end),
                    ]);
                }
            } else {
                let mut done = false;
                let mut same = false;
                while !done
                    invariant
                        !done ==> !same,
                        unwind(old_stack, c) == (if done {
                            (stack@, same)
                        } else {
                            unwind(stack@, c)
                        }),
                    decreases stack@.len() + (if done {
                        0int
                    } else {
                        1int
                    }),
                {
                    let ghost before = stack@;
                    stack.pop();
                    proof {
                        if before.len() > 0 {
                            assert(stack@ =~= before.drop_last());
                        } else {
                            assert(stack@ =~= before);
                        }
                    }
                    let older = if stack.len() > 0 {
                        stack[stack.len() - 1]
                    } else {
                        0
                    };
                    proof {
                        assert(older == top_of(stack@));
                        assert(unwind(before, c) == (if c == top_of(stack@) {
                            (stack@, true)
                        } else if c < top_of(stack@) && stack@.len() < before.len() {
                            unwind(stack@, c)
                        } else {
                            (stack@, false)
                        }));
                        if c < older {
                            assert(before.len() > 0);
                        }
                    }
                    if c == older {
                        done = true;
                        same = true;
                    } else if c < older {
                    } else {
                        done = true;
                    }
                }
                if same {
                    out.push(with_kind(t, SyntaxKind::Dedent));
                    i = i + 1;
                    proof {
                        assert(token_views(out@) =~= old_out + seq![
                            (SyntaxKind::Dedent, ts[ii].text@, ts[ii].range.start, ts[ii].range.end),
                        ]);
                    }
                } else {
                    let start = t.range.start;
                    let mut end = t.range.end;
                    i = i + 1;
                    while i < tokens.len() && tokens[i].kind != SyntaxKind::Newline
                        invariant
                            ts == tokens@,
                            ii < i <= ts.len(),
                            next_newline(ts, i as int) == next_newline(ts, ii + 1),
                            line_end(ts, i as int, end) == line_end(ts, ii + 1, ts[ii].range.end),
                        decreases ts.len() - i,
                    {
                        end = tokens[i].range.end;
                        i = i + 1;
                    }
                    if i < tokens.len() {
                        i = i + 1;
                    }
                    proof {
                        reveal_strlit("");
                        assert(""@ =~= Seq::<char>::empty());
                        lemma_next_newline(ts, ii + 1);
                    }
                    out.push(Token { kind: SyntaxKind::Error, text: "", range: start..end });
                    proof {
                        assert(token_views(out@) =~= old_out + seq![
                            (SyntaxKind::Error, Seq::<char>::empty(), start, end),
                        ]);
                    }
                }
            }
        }
    }
    proof {
        assert(process_from(ts, i as int, stack@) =~= Seq::<TokenView>::empty());
        assert(token_views(out@) =~= token_views(out@) + Seq::<TokenView>::empty());
    }
    out
}

} // verus!
