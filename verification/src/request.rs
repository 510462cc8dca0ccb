//! The request line: decoding, tokenization, and classification.
//!
//! A raw byte buffer is decoded as UTF-8 text and tokenized left to right; a
//! space or a carriage return ends a token. The first three tokens are the
//! method, the path (with an optional query string after `?`), and the
//! protocol, which must be exactly `HTTP/1.1`. The first failing step wins,
//! and classifies the error.

use vstd::prelude::*;
use vstd::utf8::decode_utf8;
use vstd::utf8::valid_utf8;

use crate::method::method_of;
use crate::method::Method;
use crate::query_string::query_string_map;
use crate::query_string::QueryString;
use crate::text::find_char;
use crate::text::find_char_in;
use crate::text::lemma_find_char;
use crate::text::lemma_find_char_none;
use crate::text::str_eq;

verus! {

/// A space or a carriage return ends a token. The carriage return of the
/// `\r\n` line ending is consumed as the delimiter of the protocol token.
pub open spec fn is_delim(c: char) -> bool {
    c == ' ' || c == '\r'
}

/// Index of the first token delimiter in `s`, if there is one.
pub open spec fn find_delim(s: Seq<char>) -> Option<int>
    decreases s.len(),
{
    if s.len() == 0 {
        None
    } else if is_delim(s[0]) {
        Some(0)
    } else {
        match find_delim(s.skip(1)) {
            None => None,
            Some(i) => Some(i + 1),
        }
    }
}

/// `find_delim` returns the smallest delimiter index, or `None` when no
/// delimiter occurs.
pub proof fn lemma_find_delim(s: Seq<char>)
    ensures
        match find_delim(s) {
            Some(i) => 0 <= i < s.len() && is_delim(s[i]) && (forall|j: int|
                0 <= j < i ==> !is_delim(s[j])),
            None => forall|j: int| 0 <= j < s.len() ==> !is_delim(s[j]),
        },
    decreases s.len(),
{
    if s.len() == 0 {
    } else if is_delim(s[0]) {
    } else {
        let t = s.skip(1);
        lemma_find_delim(t);
        assert(forall|j: int| 0 <= j < t.len() ==> t[j] == s[j + 1]);
        match find_delim(t) {
            Some(i) => {
                assert(s[i + 1] == t[i]);
                assert forall|j: int| 0 <= j < i + 1 implies !is_delim(s[j]) by {
                    if j > 0 {
                        assert(!is_delim(t[j - 1]));
                    }
                }
            },
            None => {
                assert forall|j: int| 0 <= j < s.len() implies !is_delim(s[j]) by {
                    if j > 0 {
                        assert(!is_delim(t[j - 1]));
                    }
                }
            },
        }
    }
}

/// A delimiter index with no earlier delimiter is what `find_delim` returns.
pub proof fn lemma_find_delim_is_first(s: Seq<char>, i: int)
    requires
        0 <= i < s.len(),
        is_delim(s[i]),
        forall|j: int| 0 <= j < i ==> !is_delim(s[j]),
    ensures
        find_delim(s) == Some(i),
{
    lemma_find_delim(s);
    match find_delim(s) {
        Some(k) => {
            if k < i {
                assert(!is_delim(s[k]));
            } else if k > i {
                assert(!is_delim(s[i]));
            }
        },
        None => {
            assert(!is_delim(s[i]));
        },
    }
}

/// Delimiter-free text has no token boundary.
pub proof fn lemma_find_delim_none(s: Seq<char>)
    requires
        forall|j: int| 0 <= j < s.len() ==> !is_delim(s[j]),
    ensures
        find_delim(s) is None,
{
    lemma_find_delim(s);
    match find_delim(s) {
        Some(i) => {
            assert(!is_delim(s[i]));
        },
        None => {},
    }
}

/// The token before the first delimiter, and everything after that
/// delimiter; `None` when no delimiter occurs before the end of the text.
pub open spec fn next_word(s: Seq<char>) -> Option<(Seq<char>, Seq<char>)> {
    match find_delim(s) {
        None => None,
        Some(i) => Some((s.take(i), s.skip(i + 1))),
    }
}

/// In `a + [c] + b` with `c` a delimiter absent from `a`, the first token is
/// exactly `a` and the remainder is exactly `b`.
pub proof fn lemma_next_word_concat(a: Seq<char>, c: char, b: Seq<char>)
    requires
        is_delim(c),
        forall|j: int| 0 <= j < a.len() ==> !is_delim(a[j]),
    ensures
        next_word(a + seq![c] + b) == Some((a, b)),
{
    let s = a + seq![c] + b;
    assert(s[a.len() as int] == c);
    assert forall|j: int| 0 <= j < a.len() implies !is_delim(s[j]) by {
        assert(s[j] == a[j]);
    }
    lemma_find_delim_is_first(s, a.len() as int);
    assert(s.take(a.len() as int) =~= a);
    assert(s.skip(a.len() as int + 1) =~= b);
}

/// Splits off the next whitespace-or-CR-delimited token, returning the token
/// and the remaining text, or `None` for truncated input.
pub fn get_next_word(s: &str) -> (r: Option<(&str, &str)>)
    ensures
        match next_word(s@) {
            Some(pair) => r matches Some((word, rest)) && word@ == pair.0 && rest@ == pair.1,
            None => r is None,
        },
{
    let len: usize = s.unicode_len();
    let mut i: usize = 0;
    while i < len
        invariant
            len == s@.len(),
            i <= len,
            forall|j: int| 0 <= j < i ==> !is_delim(s@[j]),
        decreases len - i,
    {
        let c = s.get_char(i);
        if c == ' ' || c == '\r' {
            proof {
                lemma_find_delim_is_first(s@, i as int);
            }
            let word: &str = s.substring_char(0, i);
            let rest: &str = s.substring_char(i + 1, len);
            return Some((word, rest));
        }
        i = i + 1;
    }
    proof {
        lemma_find_delim_none(s@);
    }
    None
}

/// Why a buffer failed to parse as a request line.
#[derive(Clone, Copy, Debug, PartialEq, Eq, Structural)]
pub enum ParseError {
    /// A token was missing: truncated or malformed line structure.
    InvalidRequest,
    /// The buffer was not valid UTF-8.
    InvalidEncoding,
    /// The protocol token was not the literal `HTTP/1.1`.
    InvalidProtocol,
    /// The method token matched no recognized method.
    InvalidMethod,
}

/// The stable name of each error kind.
pub open spec fn spec_message(e: ParseError) -> Seq<char> {
    match e {
        ParseError::InvalidRequest => "InvalidRequest"@,
        ParseError::InvalidEncoding => "InvalidEncoding"@,
        ParseError::InvalidProtocol => "InvalidProtocol"@,
        ParseError::InvalidMethod => "InvalidMethod"@,
    }
}

impl ParseError {
    /// The stable name of this error kind.
    pub fn message(&self) -> (r: &str)
        ensures
            r@ == spec_message(*self),
    {
        match self {
            ParseError::InvalidRequest => "InvalidRequest",
            ParseError::InvalidEncoding => "InvalidEncoding",
            ParseError::InvalidProtocol => "InvalidProtocol",
            ParseError::InvalidMethod => "InvalidMethod",
        }
    }
}

/// What a parsed request line denotes: the method, the path, and the query
/// string's mapping when one is present.
pub type RequestView = (Method, Seq<char>, Option<Map<Seq<char>, Seq<Seq<char>>>>);

/// What parsing a decoded request-line text yields: the request's parts, or
/// the first failing step's error.
pub open spec fn parse_text(text: Seq<char>) -> Result<RequestView, ParseError> {
    match next_word(text) {
        None => Err(ParseError::InvalidRequest),
        Some((method_text, rest1)) => match next_word(rest1) {
            None => Err(ParseError::InvalidRequest),
            Some((path_and_query, rest2)) => match next_word(rest2) {
                None => Err(ParseError::InvalidRequest),
                Some((protocol, _rest3)) => if protocol != "HTTP/1.1"@ {
                    Err(ParseError::InvalidProtocol)
                } else {
                    match method_of(method_text) {
                        None => Err(ParseError::InvalidMethod),
                        Some(m) => match find_char(path_and_query, '?') {
                            None => Ok((m, path_and_query, None)),
                            Some(i) => Ok(
                                (
                                    m,
                                    path_and_query.take(i),
                                    Some(query_string_map(path_and_query.skip(i + 1))),
                                ),
                            ),
                        },
                    }
                },
            },
        },
    }
}

/// A parsed request line: the method, the path, and the query string when
/// the path token carried one. Holds owned copies of the matched text.
#[derive(Debug)]
pub struct Request {
    method: Method,
    path: String,
    query_string: Option<QueryString>,
}

impl View for Request {
    type V = RequestView;

    closed spec fn view(&self) -> RequestView {
        (
            self.method,
            self.path@,
            match self.query_string {
                None => None,
                Some(q) => Some(q@),
            },
        )
    }
}

/// Relies on core::str::from_utf8: decoding succeeds exactly on valid UTF-8
/// and yields the text the bytes encode.
#[verifier::external_body]
fn decode_text(buffer: &[u8]) -> (r: Option<&str>)
    ensures
        r is Some <==> valid_utf8(buffer@),
        r matches Some(s) ==> s@ == decode_utf8(buffer@),
{
    core::str::from_utf8(buffer).ok()
}

impl Request {
    /// The query string's entries are well formed.
    pub closed spec fn wf(&self) -> bool {
        self.query_string matches Some(q) ==> q.wf()
    }

    /// Parses one request line out of a raw byte buffer: the buffer is
    /// decoded as UTF-8, tokenized, and classified, and the first failing
    /// step's error is returned.
    pub fn try_from(buffer: &[u8]) -> (r: Result<Request, ParseError>)
        ensures
            !valid_utf8(buffer@) ==> r == Err::<Request, ParseError>(ParseError::InvalidEncoding),
            valid_utf8(buffer@) ==> match parse_text(decode_utf8(buffer@)) {
                Ok(t) => r matches Ok(req) && req.wf() && req@ == t,
                Err(e) => r == Err::<Request, ParseError>(e),
            },
    {
        let text = match decode_text(buffer) {
            Some(t) => t,
            None => {
                return Err(ParseError::InvalidEncoding);
            },
        };
        let (method_text, rest1) = match get_next_word(text) {
            Some(pair) => pair,
            None => {
                return Err(ParseError::InvalidRequest);
            },
        };
        let (path_and_query, rest2) = match get_next_word(rest1) {
            Some(pair) => pair,
            None => {
                return Err(ParseError::InvalidRequest);
            },
        };
        let (protocol, _rest3) = match get_next_word(rest2) {
            Some(pair) => pair,
            None => {
                return Err(ParseError::InvalidRequest);
            },
        };
        if !str_eq(protocol, "HTTP/1.1") {
            return Err(ParseError::InvalidProtocol);
        }
        let method = match Method::parse(method_text) {
            Ok(m) => m,
            Err(_) => {
                return Err(ParseError::InvalidMethod);
            },
        };
        match find_char_in(path_and_query, '?') {
            None => Ok(
                Request { method, path: path_and_query.to_owned(), query_string: None },
            ),
            Some(i) => {
                proof {
                    lemma_find_char(path_and_query@, '?');
                }
                let len: usize = path_and_query.unicode_len();
                let path: &str = path_and_query.substring_char(0, i);
                let query_text: &str = path_and_query.substring_char(i + 1, len);
                let qs = QueryString::from(query_text);
                proof {
                    assert(path@ =~= path_and_query@.take(i as int));
                    assert(query_text@ =~= path_and_query@.skip(i as int + 1));
                }
                Ok(Request { method, path: path.to_owned(), query_string: Some(qs) })
            },
        }
    }

    /// The parsed method.
    pub fn method(&self) -> (m: Method)
        ensures
            m == self@.0,
    {
        self.method
    }

    /// The parsed path: the path token up to (not including) any `?`.
    pub fn path(&self) -> (p: &str)
        ensures
            p@ == self@.1,
    {
        self.path.as_str()
    }

    /// The parsed query string, when the path token carried one.
    pub fn query_string(&self) -> (q: &Option<QueryString>)
        ensures
            (*q) matches Some(qs) ==> self@.2 == Some(qs@) && (self.wf() ==> qs.wf()),
            (*q) is None ==> self@.2 is None,
    {
        &self.query_string
    }
}

/// The protocol literal contains no token delimiter.
proof fn lemma_http11_no_delim()
    ensures
        forall|j: int| 0 <= j < "HTTP/1.1"@.len() ==> !is_delim("HTTP/1.1"@[j]),
{
    reveal_strlit("HTTP/1.1");
    assert("HTTP/1.1"@ =~= seq!['H', 'T', 'T', 'P', '/', '1', '.', '1']);
}

/// Law: a well-formed request line `METHOD PATH HTTP/1.1\r...` parses to
/// exactly its method and path, with no query string.
pub proof fn lemma_request_line_roundtrip(m: Method, path: Seq<char>, tail: Seq<char>)
    requires
        forall|j: int| 0 <= j < path.len() ==> !is_delim(path[j]) && path[j] != '?',
    ensures
        parse_text(
            crate::method::method_text(m) + seq![' '] + path + seq![' '] + "HTTP/1.1"@ + seq!['\r']
                + tail,
        ) == Ok::<RequestView, ParseError>((m, path, None)),
{
    crate::method::lemma_method_text(m);
    let mt = crate::method::method_text(m);
    let s3 = "HTTP/1.1"@ + seq!['\r'] + tail;
    let s2 = path + seq![' '] + s3;
    let s1 = mt + seq![' '] + s2;
    let text = mt + seq![' '] + path + seq![' '] + "HTTP/1.1"@ + seq!['\r'] + tail;
    assert(text =~= s1);
    lemma_next_word_concat(mt, ' ', s2);
    lemma_next_word_concat(path, ' ', s3);
    lemma_http11_no_delim();
    lemma_next_word_concat("HTTP/1.1"@, '\r', tail);
    lemma_find_char_none(path, '?');
}

/// Law: a well-formed request line whose path token carries a query string,
/// `METHOD PATH?QUERY HTTP/1.1\r...`, parses to its method, its path, and
/// the query string's mapping.
pub proof fn lemma_request_line_with_query(
    m: Method,
    path: Seq<char>,
    query: Seq<char>,
    tail: Seq<char>,
)
    requires
        forall|j: int| 0 <= j < path.len() ==> !is_delim(path[j]) && path[j] != '?',
        forall|j: int| 0 <= j < query.len() ==> !is_delim(query[j]),
    ensures
        parse_text(
            crate::method::method_text(m) + seq![' '] + path + seq!['?'] + query + seq![' ']
                + "HTTP/1.1"@ + seq!['\r'] + tail,
        ) == Ok::<RequestView, ParseError>((m, path, Some(query_string_map(query)))),
{
    crate::method::lemma_method_text(m);
    let mt = crate::method::method_text(m);
    let pq = path + seq!['?'] + query;
    let s3 = "HTTP/1.1"@ + seq!['\r'] + tail;
    let s2 = pq + seq![' '] + s3;
    let s1 = mt + seq![' '] + s2;
    let text = mt + seq![' '] + path + seq!['?'] + query + seq![' '] + "HTTP/1.1"@ + seq!['\r']
        + tail;
    assert(text =~= s1);
    assert forall|j: int| 0 <= j < pq.len() implies !is_delim(pq[j]) by {
        if j < path.len() {
            assert(pq[j] == path[j]);
        } else if j == path.len() {
            assert(pq[j] == '?');
        } else {
            assert(pq[j] == query[j - path.len() - 1]);
        }
    }
    lemma_next_word_concat(mt, ' ', s2);
    lemma_next_word_concat(pq, ' ', s3);
    lemma_http11_no_delim();
    lemma_next_word_concat("HTTP/1.1"@, '\r', tail);
    crate::text::lemma_find_char_concat(path, '?', query);
    assert(pq.take(path.len() as int) =~= path);
    assert(pq.skip(path.len() as int + 1) =~= query);
}

/// Law: whatever the method token, a protocol token other than the literal
/// `HTTP/1.1` is rejected as an invalid protocol.
pub proof fn lemma_wrong_protocol(mt: Seq<char>, path: Seq<char>, proto: Seq<char>, tail: Seq<char>)
    requires
        forall|j: int| 0 <= j < mt.len() ==> !is_delim(mt[j]),
        forall|j: int| 0 <= j < path.len() ==> !is_delim(path[j]),
        forall|j: int| 0 <= j < proto.len() ==> !is_delim(proto[j]),
        proto != "HTTP/1.1"@,
    ensures
        parse_text(mt + seq![' '] + path + seq![' '] + proto + seq!['\r'] + tail) == Err::<
            RequestView,
            ParseError,
        >(ParseError::InvalidProtocol),
{
    let s3 = proto + seq!['\r'] + tail;
    let s2 = path + seq![' '] + s3;
    let s1 = mt + seq![' '] + s2;
    let text = mt + seq![' '] + path + seq![' '] + proto + seq!['\r'] + tail;
    assert(text =~= s1);
    lemma_next_word_concat(mt, ' ', s2);
    lemma_next_word_concat(path, ' ', s3);
    lemma_next_word_concat(proto, '\r', tail);
}

/// Law: with the protocol in order, a method token that matches no
/// recognized method is rejected as an invalid method.
pub proof fn lemma_unknown_method(mt: Seq<char>, path: Seq<char>, tail: Seq<char>)
    requires
        forall|j: int| 0 <= j < mt.len() ==> !is_delim(mt[j]),
        forall|j: int| 0 <= j < path.len() ==> !is_delim(path[j]),
        method_of(mt) is None,
    ensures
        parse_text(mt + seq![' '] + path + seq![' '] + "HTTP/1.1"@ + seq!['\r'] + tail) == Err::<
            RequestView,
            ParseError,
        >(ParseError::InvalidMethod),
{
    let s3 = "HTTP/1.1"@ + seq!['\r'] + tail;
    let s2 = path + seq![' '] + s3;
    let s1 = mt + seq![' '] + s2;
    let text = mt + seq![' '] + path + seq![' '] + "HTTP/1.1"@ + seq!['\r'] + tail;
    assert(text =~= s1);
    lemma_next_word_concat(mt, ' ', s2);
    lemma_next_word_concat(path, ' ', s3);
    lemma_http11_no_delim();
    lemma_next_word_concat("HTTP/1.1"@, '\r', tail);
}

/// Law: text holding no delimiter at all — the empty buffer included —
/// is rejected as an invalid request.
pub proof fn lemma_no_delimiter(text: Seq<char>)
    requires
        forall|j: int| 0 <= j < text.len() ==> !is_delim(text[j]),
    ensures
        parse_text(text) == Err::<RequestView, ParseError>(ParseError::InvalidRequest),
{
    lemma_find_delim_none(text);
}

/// Law: a line that ends after its second token — `METHOD PATH\r...` with
/// nothing delimited after the carriage return — is rejected as an invalid
/// request.
pub proof fn lemma_missing_protocol(mt: Seq<char>, path: Seq<char>, tail: Seq<char>)
    requires
        forall|j: int| 0 <= j < mt.len() ==> !is_delim(mt[j]),
        forall|j: int| 0 <= j < path.len() ==> !is_delim(path[j]),
        forall|j: int| 0 <= j < tail.len() ==> !is_delim(tail[j]),
    ensures
        parse_text(mt + seq![' '] + path + seq!['\r'] + tail) == Err::<RequestView, ParseError>(
            ParseError::InvalidRequest,
        ),
{
    let s2 = path + seq!['\r'] + tail;
    let s1 = mt + seq![' '] + s2;
    let text = mt + seq![' '] + path + seq!['\r'] + tail;
    assert(text =~= s1);
    lemma_next_word_concat(mt, ' ', s2);
    lemma_next_word_concat(path, '\r', tail);
    lemma_find_delim_none(tail);
}

} // verus!
