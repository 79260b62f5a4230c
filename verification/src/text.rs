//! Small pieces of text handling shared by the modules that write messages:
//! decimal numbers and trimming.

use vstd::prelude::*;
use vstd::string::*;

verus! {

/// The decimal digit `d` (`0` to `9`) as a character.
pub open spec fn digit_char(d: nat) -> char {
    if d == 0 {
        '0'
    } else if d == 1 {
        '1'
    } else if d == 2 {
        '2'
    } else if d == 3 {
        '3'
    } else if d == 4 {
        '4'
    } else if d == 5 {
        '5'
    } else if d == 6 {
        '6'
    } else if d == 7 {
        '7'
    } else if d == 8 {
        '8'
    } else {
        '9'
    }
}

/// The decimal notation of `n`, without leading zeros.
pub open spec fn decimal_spec(n: nat) -> Seq<char>
    decreases n,
{
    if n < 10 {
        seq![digit_char(n)]
    } else {
        decimal_spec(n / 10).push(digit_char(n % 10))
    }
}

/// Ten to the power `k`.
pub open spec fn pow10(k: nat) -> nat
    decreases k,
{
    if k == 0 {
        1
    } else {
        10 * pow10((k - 1) as nat)
    }
}

/// A number below ten to the power `k` has at most `k` digits (and at least
/// one).
pub proof fn lemma_decimal_len_below(n: nat, k: nat)
    requires
        n < pow10(k),
    ensures
        1 <= decimal_spec(n).len() <= if k == 0 {
            1
        } else {
            k
        },
    decreases n,
{
    if n >= 10 {
        assert(k >= 2) by {
            if k == 0 {
            } else if k == 1 {
                reveal_with_fuel(pow10, 2);
                assert(pow10(1) == 10);
            }
        }
        let m = (k - 1) as nat;
        assert(n / 10 < pow10(m)) by (nonlinear_arith)
            requires
                n < pow10(k),
                pow10(k) == 10 * pow10(m),
        ;
        lemma_decimal_len_below(n / 10, m);
    }
}

/// A `usize` has at most twenty digits.
pub proof fn lemma_decimal_len(n: nat)
    requires
        n <= usize::MAX,
    ensures
        1 <= decimal_spec(n).len() <= 20,
{
    assert(pow10(20) == 100000000000000000000nat) by {
        reveal_with_fuel(pow10, 21);
    }
    lemma_decimal_len_below(n, 20);
}

/// Returns the decimal digit `d` as a text.
fn digit_str(d: usize) -> (s: &'static str)
    requires
        d < 10,
    ensures
        s@ == seq![digit_char(d as nat)],
{
    proof {
        reveal_strlit("0");
        reveal_strlit("1");
        reveal_strlit("2");
        reveal_strlit("3");
        reveal_strlit("4");
        reveal_strlit("5");
        reveal_strlit("6");
        reveal_strlit("7");
        reveal_strlit("8");
        reveal_strlit("9");
    }
    if d == 0 {
        "0"
    } else if d == 1 {
        "1"
    } else if d == 2 {
        "2"
    } else if d == 3 {
        "3"
    } else if d == 4 {
        "4"
    } else if d == 5 {
        "5"
    } else if d == 6 {
        "6"
    } else if d == 7 {
        "7"
    } else if d == 8 {
        "8"
    } else {
        "9"
    }
}

/// Returns the decimal notation of `n`.
pub fn decimal(n: usize) -> (s: String)
    ensures
        s@ == decimal_spec(n as nat),
    decreases n,
{
    if n < 10 {
        String::from_str(digit_str(n))
    } else {
        let mut s = decimal(n / 10);
        s.append(digit_str(n % 10));
        s
    }
}

/// Whether the character is white space by the Unicode `White_Space`
/// property.
pub uninterp spec fn white_space(c: char) -> bool;

/// Checks whether the character is white space.
///
/// This is `char::is_whitespace` of std, which tests the Unicode
/// `White_Space` property of the character.
#[verifier::external_body]
fn char_is_whitespace(c: char) -> (b: bool)
    ensures
        b == white_space(c),
{
    c.is_whitespace()
}

/// The text without the white space at its end.
pub open spec fn trim_end_spec(s: Seq<char>) -> Seq<char>
    decreases s.len(),
{
    if s.len() > 0 && white_space(s.last()) {
        trim_end_spec(s.drop_last())
    } else {
        s
    }
}

/// Returns the text without the white space at its end.
pub fn trim_end(s: &str) -> (r: String)
    ensures
        r@ == trim_end_spec(s@),
{
    let n = s.unicode_len();
    let mut k: usize = n;
    proof {
        assert(s@.take(n as int) =~= s@);
    }
    while k > 0 && char_is_whitespace(s.get_char(k - 1))
        invariant
            n == s@.len(),
            k <= n,
            trim_end_spec(s@.take(k as int)) == trim_end_spec(s@),
        decreases k,
    {
        proof {
            assert(s@.take(k as int).drop_last() =~= s@.take(k - 1));
        }
        k = k - 1;
    }
    proof {
        if k > 0 {
            assert(s@.take(k as int).last() == s@[k - 1]);
        }
        assert(trim_end_spec(s@.take(k as int)) == s@.take(k as int));
    }
    String::from_str(s.substring_char(0, k))
}

/// The text without the white space at its start.
pub open spec fn trim_start_spec(s: Seq<char>) -> Seq<char>
    decreases s.len(),
{
    if s.len() > 0 && white_space(s[0]) {
        trim_start_spec(s.drop_first())
    } else {
        s
    }
}

/// The text without the white space at either end.
pub open spec fn trim_spec(s: Seq<char>) -> Seq<char> {
    trim_start_spec(trim_end_spec(s))
}

/// Returns the text without the white space at either end.
pub fn trim(s: &str) -> (r: String)
    ensures
        r@ == trim_spec(s@),
{
    let t = trim_end(s);
    let t = t.as_str();
    let n = t.unicode_len();
    let mut k: usize = 0;
    proof {
        assert(t@.subrange(0, n as int) =~= t@);
    }
    while k < n && char_is_whitespace(t.get_char(k))
        invariant
            n == t@.len(),
            k <= n,
            trim_start_spec(t@.subrange(k as int, n as int)) == trim_start_spec(t@),
        decreases n - k,
    {
        proof {
            assert(t@.subrange(k as int, n as int).drop_first() =~= t@.subrange(k + 1, n as int));
        }
        k = k + 1;
    }
    proof {
        if k < n {
            assert(t@.subrange(k as int, n as int)[0] == t@[k as int]);
        }
        assert(trim_start_spec(t@.subrange(k as int, n as int)) == t@.subrange(k as int, n as int));
    }
    String::from_str(t.substring_char(k, n))
}

/// Checks whether the characters of `word` are exactly those of `text`.
pub fn str_eq(text: &str, word: &str) -> (b: bool)
    ensures
        b == (text@ == word@),
{
    let n = word.unicode_len();
    if text.unicode_len() != n {
        return false;
    }
    let mut k: usize = 0;
    while k < n
        invariant
            n == word@.len(),
            n == text@.len(),
            k <= n,
            forall|m: int| 0 <= m < k ==> text@[m] == word@[m],
        decreases n - k,
    {
        if text.get_char(k) != word.get_char(k) {
            return false;
        }
        k = k + 1;
    }
    proof {
        assert(text@ =~= word@);
    }
    true
}

} // verus!
