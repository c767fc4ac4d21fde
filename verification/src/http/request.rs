//! The request-line parser: decoding, tokenization, protocol validation, and
//! assembly of a borrowed [`Request`] view.

use vstd::prelude::*;
use vstd::string::StringSliceAdditionalSpecFns;
use vstd::string::StrSliceExecFns;
use vstd::utf8::decode_utf8;
use vstd::utf8::encode_utf8;
use vstd::utf8::encode_utf8_decode_utf8;
use vstd::utf8::encode_utf8_valid_utf8;
use vstd::utf8::valid_utf8;

use crate::http::method::lemma_method_name;
use crate::http::method::spec_method_name;
use crate::http::method::spec_method_of;
use crate::http::method::Method;
use crate::http::method::MethodError;
use crate::text::str_eq;

verus! {

#[verifier::external_type_specification]
#[verifier::external_body]
pub struct ExUtf8Error(core::str::Utf8Error);

/// Relies on `core::str::from_utf8`: it succeeds exactly when the bytes are
/// well-formed UTF-8, and the text it returns is a view of those very bytes.
pub assume_specification[ core::str::from_utf8 ](v: &[u8]) -> (r: Result<
    &str,
    core::str::Utf8Error,
>)
    ensures
        r is Ok <==> valid_utf8(v@),
        r matches Ok(s) ==> s.spec_bytes() == v@,
;

/// Characters that end a token of the request line: the space and the
/// carriage return. Exactly this pair, not all whitespace: the carriage
/// return lets the protocol token stop at the `\r` of the line ending
/// without a `\n` having to be present at all.
pub open spec fn is_delim(c: char) -> bool {
    c == ' ' || c == '\r'
}

/// The position of the first delimiter in `s`, if any.
pub open spec fn first_delim(s: Seq<char>) -> Option<int>
    decreases s.len(),
{
    if s.len() == 0 {
        None
    } else if is_delim(s[0]) {
        Some(0)
    } else {
        match first_delim(s.drop_first()) {
            Some(i) => Some(i + 1),
            None => None,
        }
    }
}

/// The position of the first `?` in `s`, if any.
pub open spec fn first_question(s: Seq<char>) -> Option<int>
    decreases s.len(),
{
    if s.len() == 0 {
        None
    } else if s[0] == '?' {
        Some(0)
    } else {
        match first_question(s.drop_first()) {
            Some(i) => Some(i + 1),
            None => None,
        }
    }
}

/// `first_delim` finds `i` when position `i` holds a delimiter and no
/// position before it does.
pub proof fn lemma_first_delim_at(s: Seq<char>, i: int)
    requires
        0 <= i < s.len(),
        is_delim(s[i]),
        forall|j: int| 0 <= j < i ==> !is_delim(#[trigger] s[j]),
    ensures
        first_delim(s) == Some(i),
    decreases i,
{
    if i > 0 {
        let t = s.drop_first();
        assert(!is_delim(s[0]));
        assert(t[i - 1] == s[i]);
        assert forall|j: int| 0 <= j < i - 1 implies !is_delim(#[trigger] t[j]) by {
            assert(t[j] == s[j + 1]);
        }
        lemma_first_delim_at(t, i - 1);
    }
}

/// `first_delim` finds nothing when no position holds a delimiter.
pub proof fn lemma_first_delim_none(s: Seq<char>)
    requires
        forall|j: int| 0 <= j < s.len() ==> !is_delim(#[trigger] s[j]),
    ensures
        first_delim(s) is None,
    decreases s.len(),
{
    if s.len() > 0 {
        let t = s.drop_first();
        assert(!is_delim(s[0]));
        assert forall|j: int| 0 <= j < t.len() implies !is_delim(#[trigger] t[j]) by {
            assert(t[j] == s[j + 1]);
        }
        lemma_first_delim_none(t);
    }
}

/// `first_question` finds `i` when position `i` holds a `?` and no position
/// before it does.
pub proof fn lemma_first_question_at(s: Seq<char>, i: int)
    requires
        0 <= i < s.len(),
        s[i] == '?',
        forall|j: int| 0 <= j < i ==> #[trigger] s[j] != '?',
    ensures
        first_question(s) == Some(i),
    decreases i,
{
    if i > 0 {
        let t = s.drop_first();
        assert(s[0] != '?');
        assert(t[i - 1] == s[i]);
        assert forall|j: int| 0 <= j < i - 1 implies #[trigger] t[j] != '?' by {
            assert(t[j] == s[j + 1]);
        }
        lemma_first_question_at(t, i - 1);
    }
}

/// `first_question` finds nothing when no position holds a `?`.
pub proof fn lemma_first_question_none(s: Seq<char>)
    requires
        forall|j: int| 0 <= j < s.len() ==> #[trigger] s[j] != '?',
    ensures
        first_question(s) is None,
    decreases s.len(),
{
    if s.len() > 0 {
        let t = s.drop_first();
        assert(s[0] != '?');
        assert forall|j: int| 0 <= j < t.len() implies #[trigger] t[j] != '?' by {
            assert(t[j] == s[j + 1]);
        }
        lemma_first_question_none(t);
    }
}

/// The first delimiter-terminated token of `s` together with the remainder
/// after the delimiter; nothing when no delimiter occurs before the end.
pub open spec fn spec_next_word(s: Seq<char>) -> Option<(Seq<char>, Seq<char>)> {
    match first_delim(s) {
        Some(i) => Some((s.subrange(0, i), s.subrange(i + 1, s.len() as int))),
        None => None,
    }
}

/// The request target split at its first `?`: the path before it and, when a
/// `?` occurs at all, the query after it.
pub open spec fn spec_split_target(t: Seq<char>) -> (Seq<char>, Option<Seq<char>>) {
    match first_question(t) {
        Some(i) => (t.subrange(0, i), Some(t.subrange(i + 1, t.len() as int))),
        None => (t, None),
    }
}

/// The mathematical content of a parsed request line.
#[verifier::ext_equal]
pub ghost struct RequestView {
    pub method: Method,
    pub path: Seq<char>,
    pub query: Option<Seq<char>>,
}

/// The ways a request line can fail to parse, each with a fixed message.
#[derive(Clone, Copy, Debug, PartialEq, Eq, Structural)]
pub enum ParseError {
    InvalidRequest,
    InvalidEncoding,
    InvalidProtocol,
    InvalidMethod,
}

/// What parsing the decoded request-line text yields: three
/// delimiter-terminated tokens in fixed order, the protocol check, the verb
/// conversion, and the split of the target at its first `?`. Anything after
/// the third delimiter is ignored.
pub open spec fn spec_parse_line(s: Seq<char>) -> Result<RequestView, ParseError> {
    match spec_next_word(s) {
        None => Err(ParseError::InvalidRequest),
        Some((method_token, after_method)) => match spec_next_word(after_method) {
            None => Err(ParseError::InvalidRequest),
            Some((target, after_target)) => match spec_next_word(after_target) {
                None => Err(ParseError::InvalidRequest),
                Some((protocol, _)) => if protocol != "HTTP/1.1"@ {
                    Err(ParseError::InvalidProtocol)
                } else {
                    match spec_method_of(method_token) {
                        None => Err(ParseError::InvalidMethod),
                        Some(m) => {
                            let (path, query) = spec_split_target(target);
                            Ok(RequestView { method: m, path, query })
                        },
                    }
                },
            },
        },
    }
}

/// What parsing a raw buffer yields: buffers that are not well-formed UTF-8
/// are rejected before any tokenization, everything else parses as its
/// decoded text.
pub open spec fn spec_parse_request(bytes: Seq<u8>) -> Result<RequestView, ParseError> {
    if !valid_utf8(bytes) {
        Err(ParseError::InvalidEncoding)
    } else {
        spec_parse_line(decode_utf8(bytes))
    }
}

/// A parsed request line. `path` and `query` borrow from the buffer the line
/// was parsed from, so the value cannot outlive that buffer; nothing is
/// copied out of it.
pub struct Request<'a> {
    pub method: Method,
    pub path: &'a str,
    pub query: Option<&'a str>,
}

impl<'a> View for Request<'a> {
    type V = RequestView;

    open spec fn view(&self) -> RequestView {
        RequestView {
            method: self.method,
            path: self.path@,
            query: match self.query {
                Some(q) => Some(q@),
                None => None,
            },
        }
    }
}

/// The next token of `value` up to the first delimiter (space or carriage
/// return) and the remainder after that delimiter; `None` when no delimiter
/// occurs before the end of `value`.
pub fn get_next_word(value: &str) -> (r: Option<(&str, &str)>)
    ensures
        match r {
            Some(pair) => spec_next_word(value@) == Some((pair.0@, pair.1@)),
            None => spec_next_word(value@) is None,
        },
{
    let n = value.unicode_len();
    let mut i: usize = 0;
    while i < n
        invariant
            n == value@.len(),
            i <= n,
            forall|j: int| 0 <= j < i ==> !is_delim(#[trigger] value@[j]),
        decreases n - i,
    {
        let c = value.get_char(i);
        if c == ' ' || c == '\r' {
            proof {
                lemma_first_delim_at(value@, i as int);
            }
            let token = value.substring_char(0, i);
            let rest = value.substring_char(i + 1, n);
            return Some((token, rest));
        }
        i += 1;
    }
    proof {
        lemma_first_delim_none(value@);
    }
    None
}

/// Split the request target at its first `?`, without validating or decoding
/// either part.
fn split_target<'a>(target: &'a str) -> (r: (&'a str, Option<&'a str>))
    ensures
        ({
            let (p, q) = spec_split_target(target@);
            &&& r.0@ == p
            &&& match r.1 {
                Some(qs) => q == Some(qs@),
                None => q is None,
            }
        }),
{
    let n = target.unicode_len();
    let mut i: usize = 0;
    while i < n
        invariant
            n == target@.len(),
            i <= n,
            forall|j: int| 0 <= j < i ==> #[trigger] target@[j] != '?',
        decreases n - i,
    {
        let c = target.get_char(i);
        if c == '?' {
            proof {
                lemma_first_question_at(target@, i as int);
            }
            let path = target.substring_char(0, i);
            let query = target.substring_char(i + 1, n);
            return (path, Some(query));
        }
        i += 1;
    }
    proof {
        lemma_first_question_none(target@);
    }
    (target, None)
}

impl<'a> Request<'a> {
    /// Parse the first line of an HTTP/1.1 request out of `value`.
    ///
    /// Every outcome, success or failure, is pinned to
    /// [`spec_parse_request`] applied to the bytes: the operation is a total,
    /// deterministic function of its input, and the parsed `path` and `query`
    /// are the stated spans of the decoded input.
    pub fn try_from(value: &'a [u8]) -> (r: Result<Request<'a>, ParseError>)
        ensures
            match r {
                Ok(req) => spec_parse_request(value@) == Ok::<RequestView, ParseError>(req@),
                Err(e) => spec_parse_request(value@) == Err::<RequestView, ParseError>(e),
            },
    {
        let text = match core::str::from_utf8(value) {
            Ok(t) => t,
            Err(e) => {
                return Err(ParseError::from(e));
            },
        };
        proof {
            encode_utf8_decode_utf8(text@);
        }
        let (method_token, after_method) = match get_next_word(text) {
            Some(pair) => pair,
            None => {
                return Err(ParseError::InvalidRequest);
            },
        };
        let (target, after_target) = match get_next_word(after_method) {
            Some(pair) => pair,
            None => {
                return Err(ParseError::InvalidRequest);
            },
        };
        let (protocol, _rest) = match get_next_word(after_target) {
            Some(pair) => pair,
            None => {
                return Err(ParseError::InvalidRequest);
            },
        };
        if !str_eq(protocol, "HTTP/1.1") {
            return Err(ParseError::InvalidProtocol);
        }
        let method = match Method::from_name(method_token) {
            Ok(m) => m,
            Err(e) => {
                return Err(ParseError::from(e));
            },
        };
        let (path, query) = split_target(target);
        Ok(Request { method, path, query })
    }
}

impl ParseError {
    /// The fixed human-readable message for this failure kind.
    pub fn message(&self) -> (r: &str)
        ensures
            r@ == match *self {
                ParseError::InvalidRequest => "Invalid Request"@,
                ParseError::InvalidEncoding => "Invalid Encoding"@,
                ParseError::InvalidProtocol => "Invalid Protocol"@,
                ParseError::InvalidMethod => "Invalid Method"@,
            },
    {
        match *self {
            ParseError::InvalidRequest => "Invalid Request",
            ParseError::InvalidEncoding => "Invalid Encoding",
            ParseError::InvalidProtocol => "Invalid Protocol",
            ParseError::InvalidMethod => "Invalid Method",
        }
    }
}

/// A buffer that is not well-formed UTF-8 is rejected as `InvalidEncoding`
/// whatever else it contains: the decoding check comes before tokenization,
/// so no structural error can pre-empt it.
pub proof fn lemma_encoding_checked_first(bytes: Seq<u8>)
    requires
        !valid_utf8(bytes),
    ensures
        spec_parse_request(bytes) == Err::<RequestView, ParseError>(ParseError::InvalidEncoding),
{
}

/// Tokenizing a token, a delimiter, and a remainder in sequence yields
/// exactly that token and that remainder.
pub proof fn lemma_next_word_concat(token: Seq<char>, d: char, rest: Seq<char>)
    requires
        is_delim(d),
        forall|j: int| 0 <= j < token.len() ==> !is_delim(#[trigger] token[j]),
    ensures
        spec_next_word(token + seq![d] + rest) == Some((token, rest)),
{
    let s = token + seq![d] + rest;
    assert(s[token.len() as int] == d);
    assert forall|j: int| 0 <= j < token.len() implies !is_delim(#[trigger] s[j]) by {
        assert(s[j] == token[j]);
    }
    lemma_first_delim_at(s, token.len() as int);
    assert(s.subrange(0, token.len() as int) =~= token);
    assert(s.subrange(token.len() as int + 1, s.len() as int) =~= rest);
}

/// The request line spelled out from a verb, a path, and a query.
pub open spec fn spec_request_line(m: Method, path: Seq<char>, query: Seq<char>) -> Seq<char> {
    spec_method_name(m) + seq![' '] + (path + seq!['?'] + query) + seq![' '] + "HTTP/1.1"@
        + seq!['\r'] + seq!['\n']
}

/// Round trip: the request line built from any supported verb, any non-empty
/// path free of delimiters and of `?`, and any query free of delimiters
/// parses back to exactly that verb, that path, and that query.
pub proof fn lemma_round_trip(m: Method, path: Seq<char>, query: Seq<char>)
    requires
        path.len() > 0,
        forall|j: int| 0 <= j < path.len() ==> !is_delim(#[trigger] path[j]) && path[j] != '?',
        forall|j: int| 0 <= j < query.len() ==> !is_delim(#[trigger] query[j]),
    ensures
        ({
            let expected = RequestView { method: m, path: path, query: Some(query) };
            spec_parse_request(encode_utf8(spec_request_line(m, path, query)))
                == Ok::<RequestView, ParseError>(expected)
        }),
{
    let name = spec_method_name(m);
    let proto = "HTTP/1.1"@;
    let target = path + seq!['?'] + query;
    let line = spec_request_line(m, path, query);
    let rest2 = proto + seq!['\r'] + seq!['\n'];
    let rest1 = target + seq![' '] + rest2;
    lemma_method_name(m);
    reveal_strlit("HTTP/1.1");

    assert forall|j: int| 0 <= j < name.len() implies !is_delim(#[trigger] name[j]) by {
        assert(name[j] != ' ' && name[j] != '\r');
    }
    assert(line =~= name + seq![' '] + rest1);
    lemma_next_word_concat(name, ' ', rest1);

    assert forall|j: int| 0 <= j < target.len() implies !is_delim(#[trigger] target[j]) by {
        if j < path.len() {
            assert(target[j] == path[j]);
        } else if j == path.len() {
            assert(target[j] == '?');
        } else {
            assert(target[j] == query[j - path.len() - 1]);
        }
    }
    lemma_next_word_concat(target, ' ', rest2);

    assert(proto.len() == 8);
    assert forall|j: int| 0 <= j < proto.len() implies !is_delim(#[trigger] proto[j]) by {
        assert(proto[0] == 'H');
        assert(proto[1] == 'T');
        assert(proto[2] == 'T');
        assert(proto[3] == 'P');
        assert(proto[4] == '/');
        assert(proto[5] == '1');
        assert(proto[6] == '.');
        assert(proto[7] == '1');
    }
    lemma_next_word_concat(proto, '\r', seq!['\n']);

    assert(target[path.len() as int] == '?');
    assert forall|j: int| 0 <= j < path.len() implies #[trigger] target[j] != '?' by {
        assert(target[j] == path[j]);
    }
    lemma_first_question_at(target, path.len() as int);
    assert(target.subrange(0, path.len() as int) =~= path);
    assert(target.subrange(path.len() as int + 1, target.len() as int) =~= query);

    encode_utf8_valid_utf8(line);
    encode_utf8_decode_utf8(line);
}

impl From<MethodError> for ParseError {
    fn from(_value: MethodError) -> (r: ParseError) {
        ParseError::InvalidMethod
    }
}

impl vstd::std_specs::convert::FromSpecImpl<MethodError> for ParseError {
    open spec fn obeys_from_spec() -> bool {
        true
    }

    open spec fn from_spec(v: MethodError) -> ParseError {
        ParseError::InvalidMethod
    }
}

impl From<core::str::Utf8Error> for ParseError {
    fn from(_value: core::str::Utf8Error) -> (r: ParseError) {
        ParseError::InvalidEncoding
    }
}

impl vstd::std_specs::convert::FromSpecImpl<core::str::Utf8Error> for ParseError {
    open spec fn obeys_from_spec() -> bool {
        true
    }

    open spec fn from_spec(v: core::str::Utf8Error) -> ParseError {
        ParseError::InvalidEncoding
    }
}

} // verus!
