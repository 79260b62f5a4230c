//! The parts of the language server protocol that decide rather than move
//! bytes: request identifiers, error codes, the server status, and the
//! header of a message.
//!
//! A message is a header of `Field: value` lines, each ended by a carriage
//! return and a line feed, then an empty line, then as many bytes of
//! content as the `Content-Length` field says.

use vstd::prelude::*;
use vstd::string::*;

use crate::text::{decimal, decimal_spec, digit_char, str_eq};

verus! {

/// The identifier of a request: a number or a text.
#[derive(Clone, Debug, PartialEq, Eq)]
pub enum RequestId {
    Integer(i32),
    String(String),
}

impl From<i32> for RequestId {
    fn from(integer: i32) -> (r: RequestId)
        ensures
            r == RequestId::Integer(integer),
    {
        RequestId::Integer(integer)
    }
}

impl vstd::std_specs::convert::FromSpecImpl<i32> for RequestId {
    open spec fn obeys_from_spec() -> bool {
        true
    }

    open spec fn from_spec(integer: i32) -> RequestId {
        RequestId::Integer(integer)
    }
}

impl From<String> for RequestId {
    fn from(s: String) -> (r: RequestId)
        ensures
            r == RequestId::String(s),
    {
        RequestId::String(s)
    }
}

impl vstd::std_specs::convert::FromSpecImpl<String> for RequestId {
    open spec fn obeys_from_spec() -> bool {
        true
    }

    open spec fn from_spec(s: String) -> RequestId {
        RequestId::String(s)
    }
}

/// The text that `{:?}` writes for a text: the text between double quotes,
/// escaped as Rust escapes it.
pub uninterp spec fn str_debug_text(s: Seq<char>) -> Seq<char>;

/// Returns the text as `{:?}` writes it.
///
/// This is the `Debug` impl of `str` in std, which writes the text between
/// double quotes with Rust's escapes.
#[verifier::external_body]
fn str_debug(s: &str) -> (r: String)
    ensures
        r@ == str_debug_text(s@),
{
    format!("{:?}", s)
}

/// The decimal notation of an integer, with a minus sign if it is negative.
pub open spec fn signed_decimal_spec(i: int) -> Seq<char> {
    if i < 0 {
        "-"@ + decimal_spec((-i) as nat)
    } else {
        decimal_spec(i as nat)
    }
}

impl RequestId {
    /// Returns the identifier as the protocol writes it: a number in
    /// decimal, or a text between double quotes.
    pub fn to_display_string(&self) -> (s: String)
        ensures
            s@ == match self {
                RequestId::Integer(i) => signed_decimal_spec(*i as int),
                RequestId::String(t) => str_debug_text(t@),
            },
    {
        match self {
            RequestId::Integer(i) => {
                let i = *i;
                if i < 0 {
                    let magnitude: u32 = if i == i32::MIN {
                        2147483648u32
                    } else {
                        (-i) as u32
                    };
                    let mut s = String::from_str("-");
                    let d = decimal(magnitude as usize);
                    s.append(d.as_str());
                    proof {
                        reveal_strlit("-");
                    }
                    s
                } else {
                    decimal(i as usize)
                }
            },
            RequestId::String(t) => str_debug(t.as_str()),
        }
    }
}

/// The error codes of the protocol, as JSON-RPC defines them.
#[derive(Clone, Copy, Debug, PartialEq, Eq, Structural)]
pub enum ErrorCode {
    ParseError,
    InvalidRequest,
    MethodNotFound,
    InvalidParams,
    InternalError,
}

impl ErrorCode {
    /// The number of the error code.
    pub open spec fn code_spec(self) -> int {
        match self {
            ErrorCode::ParseError => -32700,
            ErrorCode::InvalidRequest => -32600,
            ErrorCode::MethodNotFound => -32601,
            ErrorCode::InvalidParams => -32602,
            ErrorCode::InternalError => -32603,
        }
    }

    /// Returns the number of the error code.
    pub fn code(self) -> (c: i32)
        ensures
            c == self.code_spec(),
    {
        match self {
            ErrorCode::ParseError => -32700,
            ErrorCode::InvalidRequest => -32600,
            ErrorCode::MethodNotFound => -32601,
            ErrorCode::InvalidParams => -32602,
            ErrorCode::InternalError => -32603,
        }
    }
}

/// The status of the language server.
#[derive(Clone, Copy, Debug, PartialEq, Eq, Structural)]
pub enum Status {
    Loading,
    Ready,
    Error,
}

impl Default for Status {
    /// A server starts out loading.
    fn default() -> (s: Status)
        ensures
            s == Status::Loading,
    {
        Status::Loading
    }
}

/// An error of the protocol, with its description.
#[derive(Debug, Clone)]
pub struct ProtocolError(pub String);

impl ProtocolError {
    /// Returns the description of the error.
    pub fn to_display_string(&self) -> (s: String)
        ensures
            s@ == self.0@,
    {
        self.0.clone()
    }
}

/// Whether the character is an ASCII decimal digit.
pub open spec fn is_ascii_digit(c: char) -> bool {
    '0' <= c <= '9'
}

/// The value of a sequence of decimal digits.
pub open spec fn digits_value(s: Seq<char>) -> nat
    decreases s.len(),
{
    if s.len() == 0 {
        0
    } else {
        digits_value(s.drop_last()) * 10 + ((s.last() as u32) - ('0' as u32)) as nat
    }
}

/// The text without its leading `+` sign, if it has one.
pub open spec fn digits_part(s: Seq<char>) -> Seq<char> {
    if s.len() > 0 && s[0] == '+' {
        s.drop_first()
    } else {
        s
    }
}

/// Whether every character of the text is a decimal digit.
pub open spec fn all_digits(d: Seq<char>) -> bool {
    forall|i: int| 0 <= i < d.len() ==> is_ascii_digit(#[trigger] d[i])
}

/// The number that a text spells as `usize::from_str` reads it: an
/// optional `+` sign and then one or more decimal digits, whose value fits
/// in a `usize`.
pub open spec fn parse_usize_spec(s: Seq<char>) -> Option<usize> {
    let d = digits_part(s);
    if d.len() > 0 && all_digits(d) && digits_value(d) <= usize::MAX {
        Some(digits_value(d) as usize)
    } else {
        None
    }
}

/// The decimal notation of a number is a non-empty run of digits whose
/// value is the number.
pub proof fn lemma_decimal_digits(n: nat)
    ensures
        decimal_spec(n).len() > 0,
        all_digits(decimal_spec(n)),
        digits_value(decimal_spec(n)) == n,
    decreases n,
{
    let d = decimal_spec(n);
    let c = digit_char(n % 10);
    assert(is_ascii_digit(c) && (c as u32) - ('0' as u32) == n % 10) by {
        assert(n % 10 < 10);
    }
    if n >= 10 {
        lemma_decimal_digits(n / 10);
        let p = decimal_spec(n / 10);
        assert(d.drop_last() =~= p);
        assert(d.last() == c);
        assert((n / 10) * 10 + n % 10 == n) by (nonlinear_arith);
        assert(digits_value(d) == digits_value(p) * 10 + ((c as u32) - ('0' as u32)) as nat);
        assert forall|i: int| 0 <= i < d.len() implies is_ascii_digit(#[trigger] d[i]) by {
            if i < p.len() {
                assert(d[i] == p[i]);
            }
        }
    } else {
        assert(n % 10 == n);
        assert(d.drop_last() =~= Seq::<char>::empty());
        assert(d.last() == c);
        assert(digits_value(d) == digits_value(d.drop_last()) * 10 + ((c as u32) - ('0' as u32)) as nat);
    }
}

/// What a header that states a content length is read back as: its
/// `Content-Length` line gives the length, and the empty line after it
/// ends the header with that length. The two lines make up the header that
/// [`message_header`] writes for a content of that many bytes.
pub proof fn lemma_header_roundtrip(n: usize)
    ensures
        header_step_spec(None, "Content-Length: "@ + decimal_spec(n as nat) + "\r\n"@) == Ok::<
            HeaderStep,
            HeaderError,
        >(HeaderStep::Continue(Some(n))),
        header_step_spec(Some(n), "\r\n"@) == Ok::<HeaderStep, HeaderError>(
            HeaderStep::End(Some(n)),
        ),
        "Content-Length: "@ + decimal_spec(n as nat) + "\r\n"@ + "\r\n"@ == "Content-Length: "@
            + decimal_spec(n as nat) + "\r\n\r\n"@,
{
    reveal_strlit("Content-Length: ");
    reveal_strlit("Content-Length");
    reveal_strlit("Content-Type");
    reveal_strlit("\r\n");
    reveal_strlit("\r\n\r\n");
    let d = decimal_spec(n as nat);
    lemma_decimal_digits(n as nat);
    let prefix = "Content-Length: "@;
    let line = prefix + d + "\r\n"@;
    let h = line.take(line.len() - 2);
    assert(h =~= prefix + d);
    assert(line[line.len() - 2] == '\r' && line[line.len() - 1] == '\n');
    assert forall|k: int| 0 <= k < 16 implies h[k] == prefix[k] by {}
    assert(find_separator(h, 0) == Some(14int)) by {
        reveal_with_fuel(find_separator, 16);
    }
    assert(header_field(h) =~= "Content-Length"@);
    assert(h.skip(16) =~= d);
    assert(digits_part(d) == d);
    assert(prefix + d + "\r\n"@ + "\r\n"@ =~= prefix + d + "\r\n\r\n"@);
}

/// What a written message is read back as: the text that [`message_header`]
/// and the content make up is a first line, read up to its line feed, that
/// gives the length of the content in bytes; then an empty line that ends
/// the header with that length; then exactly the content.
pub proof fn lemma_message_read_back(content: Seq<char>)
    requires
        crate::utf8::byte_len(content) <= usize::MAX,
    ensures
        ({
            let n = crate::utf8::byte_len(content) as usize;
            let first = "Content-Length: "@ + decimal_spec(n as nat) + "\r\n"@;
            let written = "Content-Length: "@ + decimal_spec(n as nat) + "\r\n\r\n"@ + content;
            &&& written == first + "\r\n"@ + content
            &&& first.last() == '\n'
            &&& forall|k: int| 0 <= k < first.len() - 1 ==> #[trigger] first[k] != '\n'
            &&& header_step_spec(None, first) == Ok::<HeaderStep, HeaderError>(
                HeaderStep::Continue(Some(n)),
            )
            &&& header_step_spec(Some(n), "\r\n"@) == Ok::<HeaderStep, HeaderError>(
                HeaderStep::End(Some(n)),
            )
            &&& written.skip(first.len() + 2int) == content
        }),
{
    let n = crate::utf8::byte_len(content) as usize;
    lemma_header_roundtrip(n);
    lemma_decimal_digits(n as nat);
    reveal_strlit("Content-Length: ");
    reveal_strlit("\r\n");
    reveal_strlit("\r\n\r\n");
    let d = decimal_spec(n as nat);
    let prefix = "Content-Length: "@;
    let first = prefix + d + "\r\n"@;
    let written = prefix + d + "\r\n\r\n"@ + content;
    assert(written =~= first + "\r\n"@ + content);
    assert forall|k: int| 0 <= k < first.len() - 1 implies #[trigger] first[k] != '\n' by {
        if k < prefix.len() {
            assert(first[k] == prefix[k]);
        } else if k < prefix.len() + d.len() {
            assert(first[k] == d[k - prefix.len()]);
            assert(is_ascii_digit(d[k - prefix.len()]));
        }
    }
    assert(written.skip(first.len() + 2int) =~= content);
}

/// The index just after the first line feed at or after `k` in the text,
/// or the end of the text if there is none: where a line read from `k`
/// ends.
pub open spec fn line_end(t: Seq<char>, k: int) -> int
    decreases t.len() - k,
{
    if k < 0 || k >= t.len() {
        t.len() as int
    } else if t[k] == '\n' {
        k + 1
    } else {
        line_end(t, k + 1)
    }
}

/// Reading a message's header from index `at` of the text, with the
/// content length known so far, one line at a time with [`header_step`]:
/// `None` when the text ends before the header does; otherwise the content
/// length and where the content starts, or the error the header has.
pub open spec fn read_header(t: Seq<char>, at: int, content_length: Option<usize>) -> Option<
    Result<(usize, int), HeaderError>,
>
    decreases t.len() - at,
{
    if at < 0 || at >= t.len() {
        None
    } else {
        let e = line_end(t, at);
        match header_step_spec(content_length, t.subrange(at, e)) {
            Ok(HeaderStep::Continue(length)) => if at < e <= t.len() {
                read_header(t, e, length)
            } else {
                None
            },
            Ok(HeaderStep::End(length)) => match length {
                Some(n) => Some(Ok((n, e))),
                None => Some(Err(HeaderError::MissingLength)),
            },
            Err(error) => Some(Err(error)),
        }
    }
}

/// A line that ends with a line feed, with none before, is read as a whole.
proof fn lemma_line_end(t: Seq<char>, k: int, j: int)
    requires
        0 <= k < j <= t.len(),
        t[j - 1] == '\n',
        forall|i: int| k <= i < j - 1 ==> t[i] != '\n',
    ensures
        line_end(t, k) == j,
    decreases j - k,
{
    if k < j - 1 {
        lemma_line_end(t, k + 1, j);
    }
}

/// A written message reads back: a text that starts with the header that
/// [`message_header`] writes for a content, then the content, then
/// anything, is read by [`header_step`], line after line, as a header that
/// gives the content's length in bytes and ends right before the content;
/// the bytes that follow, as many as that length, are exactly the
/// content's. An empty text holds no message.
pub proof fn lemma_message_round_trip(content: Seq<char>, rest: Seq<char>)
    requires
        crate::utf8::byte_len(content) <= usize::MAX,
    ensures
        read_header(Seq::empty(), 0, None) is None,
        ({
            let n = crate::utf8::byte_len(content) as usize;
            let header = "Content-Length: "@ + decimal_spec(n as nat) + "\r\n\r\n"@;
            let written = header + content + rest;
            &&& read_header(written, 0, None) == Some(Ok::<(usize, int), HeaderError>((n, header.len() as int)))
            &&& written.subrange(header.len() as int, (header.len() + content.len()) as int) == content
            &&& vstd::utf8::encode_utf8(written).subrange(
                crate::utf8::byte_len(header) as int,
                crate::utf8::byte_len(header) + n,
            ) == vstd::utf8::encode_utf8(content)
        }),
{
    let n = crate::utf8::byte_len(content) as usize;
    lemma_message_read_back(content);
    reveal_strlit("Content-Length: ");
    reveal_strlit("\r\n");
    reveal_strlit("\r\n\r\n");
    let d = decimal_spec(n as nat);
    let first = "Content-Length: "@ + d + "\r\n"@;
    let header = "Content-Length: "@ + d + "\r\n\r\n"@;
    let written = header + content + rest;
    assert(header =~= first + "\r\n"@);
    let l1 = first.len() as int;
    assert forall|i: int| 0 <= i < l1 - 1 implies written[i] != '\n' by {
        assert(written[i] == first[i]);
    }
    assert(written[l1 - 1] == '\n');
    lemma_line_end(written, 0, l1);
    assert(written.subrange(0, l1) =~= first);
    assert(written[l1] == '\r' && written[l1 + 1] == '\n');
    lemma_line_end(written, l1, l1 + 2);
    assert(written.subrange(l1, l1 + 2) =~= "\r\n"@);
    assert(read_header(written, l1, Some(n)) == Some(Ok::<(usize, int), HeaderError>((n, l1 + 2))));
    assert(written.subrange(header.len() as int, (header.len() + content.len()) as int) =~= content);
    crate::utf8::lemma_encode_concat(header, content);
    crate::utf8::lemma_encode_concat(header + content, rest);
    assert(vstd::utf8::encode_utf8(written).subrange(
        crate::utf8::byte_len(header) as int,
        crate::utf8::byte_len(header) + n,
    ) =~= vstd::utf8::encode_utf8(content));
}

/// Reads a number as `usize::from_str` of std does.
pub fn parse_usize(s: &str) -> (r: Option<usize>)
    ensures
        r == parse_usize_spec(s@),
{
    let n = s.unicode_len();
    let mut k: usize = 0;
    if n > 0 && s.get_char(0) == '+' {
        k = 1;
    }
    let ghost d = digits_part(s@);
    proof {
        assert(d =~= s@.skip(k as int));
    }
    if k == n {
        return None;
    }
    let mut value: usize = 0;
    let start = k;
    while k < n
        invariant
            n == s@.len(),
            d == s@.skip(start as int),
            d == digits_part(s@),
            start <= k <= n,
            start < n,
            value == digits_value(s@.subrange(start as int, k as int)),
            forall|i: int| start <= i < k ==> is_ascii_digit(#[trigger] s@[i]),
        decreases n - k,
    {
        let c = s.get_char(k);
        if !('0' <= c && c <= '9') {
            proof {
                assert(!is_ascii_digit(d[k - start]));
            }
            return None;
        }
        let digit = (c as u32 - '0' as u32) as usize;
        proof {
            assert(s@.subrange(start as int, k + 1).drop_last() =~= s@.subrange(start as int, k as int));
        }
        if value > (usize::MAX - digit) / 10 {
            proof {
                assert(s@.subrange(start as int, k + 1) =~= d.take(k + 1 - start));
                lemma_digits_value_mono(s@.subrange(start as int, k + 1), d);
                assert(digits_value(s@.subrange(start as int, k + 1)) == value * 10 + digit) by (nonlinear_arith)
                    requires
                        digits_value(s@.subrange(start as int, k + 1)) == digits_value(
                            s@.subrange(start as int, k as int),
                        ) * 10 + digit,
                        value == digits_value(s@.subrange(start as int, k as int)),
                ;
                assert(value * 10 + digit > usize::MAX) by (nonlinear_arith)
                    requires
                        value > (usize::MAX - digit) / 10,
                        digit <= 9,
                ;
            }
            return None;
        }
        proof {
            assert(value * 10 + digit <= usize::MAX) by (nonlinear_arith)
                requires
                    value <= (usize::MAX - digit) / 10,
                    digit <= 9,
            ;
        }
        value = value * 10 + digit;
        k = k + 1;
    }
    proof {
        assert(s@.subrange(start as int, n as int) =~= d);
    }
    Some(value)
}

/// Digits that start a longer sequence of digits have a value no greater
/// than it.
proof fn lemma_digits_value_mono(prefix: Seq<char>, s: Seq<char>)
    requires
        prefix.len() <= s.len(),
        prefix == s.take(prefix.len() as int),
    ensures
        digits_value(prefix) <= digits_value(s),
    decreases s.len(),
{
    if prefix.len() < s.len() {
        assert(s.drop_last().take(prefix.len() as int) =~= prefix);
        lemma_digits_value_mono(prefix, s.drop_last());
    } else {
        assert(prefix =~= s);
    }
}

/// What the header lines read so far say: go on reading with the content
/// length known so far, or the header is over.
#[derive(Debug, PartialEq, Eq)]
pub enum HeaderStep {
    Continue(Option<usize>),
    End(Option<usize>),
}

/// What is wrong with a header.
#[derive(Debug, PartialEq, Eq)]
pub enum HeaderError {
    /// A line does not end with a carriage return and a line feed.
    Malformed(String),
    /// The `Content-Length` field has no value.
    MissingValue,
    /// The value of the `Content-Length` field is not a number.
    InvalidLength(String),
    /// A field is not one the protocol knows.
    UnrecognizedField(String),
    /// The header has no `Content-Length` field.
    MissingLength,
}

/// The index of the first `: ` in the text from index `k` on.
pub open spec fn find_separator(h: Seq<char>, k: int) -> Option<int>
    decreases h.len() - k,
{
    if k < 0 || k + 1 >= h.len() {
        None
    } else if h[k] == ':' && h[k + 1] == ' ' {
        Some(k)
    } else {
        find_separator(h, k + 1)
    }
}

/// The field of a header line: the text before the first `: `, or the
/// whole line if there is none.
pub open spec fn header_field(h: Seq<char>) -> Seq<char> {
    match find_separator(h, 0) {
        Some(k) => h.take(k),
        None => h,
    }
}

/// The outcome of reading one more header line (as read, with its line
/// feed), with the content length known so far: a line that does not end
/// with a carriage return and a line feed is malformed; an empty line ends
/// the header; a `Content-Length` line gives the length, a `Content-Type`
/// line ends the header, and any other field is refused.
pub open spec fn header_step_spec(content_length: Option<usize>, line: Seq<char>) -> Result<
    HeaderStep,
    HeaderError,
> {
    if !(line.len() >= 2 && line[line.len() - 2] == '\r' && line[line.len() - 1] == '\n') {
        Err(HeaderError::Malformed(arbitrary()))
    } else {
        let h = line.take(line.len() - 2);
        if h.len() == 0 {
            Ok(HeaderStep::End(content_length))
        } else {
            let field = header_field(h);
            if field == "Content-Length"@ {
                match find_separator(h, 0) {
                    None => Err(HeaderError::MissingValue),
                    Some(k) => match parse_usize_spec(h.skip(k + 2)) {
                        Some(n) => Ok(HeaderStep::Continue(Some(n))),
                        None => Err(HeaderError::InvalidLength(arbitrary())),
                    },
                }
            } else if field == "Content-Type"@ {
                Ok(HeaderStep::End(content_length))
            } else {
                Err(HeaderError::UnrecognizedField(arbitrary()))
            }
        }
    }
}

/// The two outcomes agree, the texts that errors carry aside.
pub open spec fn same_step(a: Result<HeaderStep, HeaderError>, b: Result<HeaderStep, HeaderError>) -> bool {
    match (a, b) {
        (Ok(x), Ok(y)) => x == y,
        (Err(HeaderError::Malformed(_)), Err(HeaderError::Malformed(_))) => true,
        (Err(HeaderError::MissingValue), Err(HeaderError::MissingValue)) => true,
        (Err(HeaderError::InvalidLength(_)), Err(HeaderError::InvalidLength(_))) => true,
        (Err(HeaderError::UnrecognizedField(_)), Err(HeaderError::UnrecognizedField(_))) => true,
        (Err(HeaderError::MissingLength), Err(HeaderError::MissingLength)) => true,
        _ => false,
    }
}

/// Returns the index of the first `: ` in the text.
fn find_separator_in(h: &str) -> (r: Option<usize>)
    ensures
        r matches Some(k) ==> find_separator(h@, 0) == Some(k as int) && k + 1 < h@.len(),
        r is None ==> find_separator(h@, 0) is None,
{
    let n = h.unicode_len();
    let mut k: usize = 0;
    while k < n && k + 1 < n
        invariant
            n == h@.len(),
            k <= n,
            find_separator(h@, k as int) == find_separator(h@, 0),
        decreases n - k,
    {
        if h.get_char(k) == ':' && h.get_char(k + 1) == ' ' {
            return Some(k);
        }
        k = k + 1;
    }
    None
}

/// Reads one more header line (as read, with its line feed), with the
/// content length known so far.
///
/// Errors carry the line that is malformed, the value that is not a
/// number, or the field that is refused.
pub fn header_step(content_length: Option<usize>, line: &str) -> (r: Result<HeaderStep, HeaderError>)
    ensures
        same_step(r, header_step_spec(content_length, line@)),
        r matches Err(HeaderError::Malformed(l)) ==> l@ == line@,
        r matches Err(HeaderError::InvalidLength(v)) ==> v@ == line@.take(line@.len() - 2).skip(
            find_separator(line@.take(line@.len() - 2), 0)->Some_0 + 2,
        ),
        r matches Err(HeaderError::UnrecognizedField(f)) ==> f@ == header_field(
            line@.take(line@.len() - 2),
        ),
{
    let n = line.unicode_len();
    if !(n >= 2 && line.get_char(n - 2) == '\r' && line.get_char(n - 1) == '\n') {
        return Err(HeaderError::Malformed(String::from_str(line)));
    }
    let h = line.substring_char(0, n - 2);
    proof {
        assert(h@ =~= line@.take(line@.len() - 2));
    }
    let m = h.unicode_len();
    if m == 0 {
        return Ok(HeaderStep::End(content_length));
    }
    let sep = find_separator_in(h);
    let field = match sep {
        Some(k) => h.substring_char(0, k),
        None => h,
    };
    proof {
        reveal_strlit("Content-Length");
        reveal_strlit("Content-Type");
        match sep {
            Some(k) => {
                assert(field@ =~= h@.take(k as int));
            },
            None => {},
        }
        assert(field@ == header_field(h@));
    }
    if str_eq(field, "Content-Length") {
        match sep {
            None => Err(HeaderError::MissingValue),
            Some(k) => {
                let value = h.substring_char(k + 2, m);
                proof {
                    assert(value@ =~= h@.skip(k + 2));
                }
                match parse_usize(value) {
                    Some(len) => Ok(HeaderStep::Continue(Some(len))),
                    None => Err(HeaderError::InvalidLength(String::from_str(value))),
                }
            },
        }
    } else if str_eq(field, "Content-Type") {
        Ok(HeaderStep::End(content_length))
    } else {
        Err(HeaderError::UnrecognizedField(String::from_str(field)))
    }
}

/// Returns the content length that the header gave, or
/// [`HeaderError::MissingLength`] if it gave none.
pub fn content_length_of(content_length: Option<usize>) -> (r: Result<usize, HeaderError>)
    ensures
        match content_length {
            Some(n) => r == Ok::<usize, HeaderError>(n),
            None => r == Err::<usize, HeaderError>(HeaderError::MissingLength),
        },
{
    match content_length {
        Some(n) => Ok(n),
        None => Err(HeaderError::MissingLength),
    }
}

/// Returns the header of a message whose content is the given text.
pub fn message_header(content: &str) -> (h: String)
    ensures
        h@ == "Content-Length: "@ + decimal_spec(crate::utf8::byte_len(content@)) + "\r\n\r\n"@,
{
    let mut h = String::from_str("Content-Length: ");
    let len = content.as_bytes().len();
    let d = decimal(len);
    h.append(d.as_str());
    h.append("\r\n\r\n");
    h
}

} // verus!
