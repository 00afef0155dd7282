//! Reading a request: the request line, the header fields and the body.

use vstd::prelude::*;
use vstd::slice::slice_subrange;
use vstd::string::*;
use vstd::utf8::{decode_utf8, encode_utf8, valid_utf8};
use crate::headers::{
    distinct_names, lemma_position_from, lemma_put_keeps_distinct, position, put, Field, Headers,
};
use crate::message::{text_view, Method, ParseError, Request, RequestView, Version};
use crate::server::HttpServer;
use crate::text::{
    chars_of, find_char, find_seq, index_of_char, index_of_seq, is_token, lemma_find_char,
    lemma_find_char_is, lemma_find_seq, lemma_tokens_of_three, lowercase, same_text,
    split_at_whitespace, to_lowercase, tokens,
};

verus! {

/// The line that starts at `from`, without its line break: a line ends
/// before the next line feed, or before the carriage return that precedes
/// that line feed, or where the text ends.
pub open spec fn line_text(s: Seq<char>, from: int) -> Seq<char> {
    let end = find_char(s, '\n', from);
    if end < s.len() && from < end && s[end - 1] == '\r' {
        s.subrange(from, end - 1)
    } else {
        s.subrange(from, end)
    }
}

/// Where the line after the one at `from` starts; `s.len()` if there is none.
pub open spec fn next_line(s: Seq<char>, from: int) -> int {
    let end = find_char(s, '\n', from);
    if end < s.len() {
        end + 1
    } else {
        s.len() as int
    }
}

/// The lines from `from` up to the first empty line or the end of the text.
pub open spec fn head_lines(s: Seq<char>, from: int) -> Seq<Seq<char>>
    decreases s.len() - from,
    via head_lines_decreases
{
    if from < 0 || from >= s.len() || line_text(s, from).len() == 0 {
        Seq::empty()
    } else {
        seq![line_text(s, from)] + head_lines(s, next_line(s, from))
    }
}

#[via_fn]
proof fn head_lines_decreases(s: Seq<char>, from: int) {
    if 0 <= from < s.len() {
        lemma_find_char(s, '\n', from);
    }
}

/// Where the first empty line at or after the line at `from` starts;
/// `s.len()` if no line is empty.
pub open spec fn head_end(s: Seq<char>, from: int) -> int
    decreases s.len() - from,
    via head_end_decreases
{
    if from < 0 || from >= s.len() {
        s.len() as int
    } else if line_text(s, from).len() == 0 {
        from
    } else {
        head_end(s, next_line(s, from))
    }
}

#[via_fn]
proof fn head_end_decreases(s: Seq<char>, from: int) {
    if 0 <= from < s.len() {
        lemma_find_char(s, '\n', from);
    }
}

/// What parts a header line into name and value: a colon and a space.
pub open spec fn separator() -> Seq<char> {
    seq![':', ' ']
}

/// The name and the value of a header line, parted at the first colon that a
/// space follows; `None` for a line that holds no such pair.
pub open spec fn split_field(line: Seq<char>) -> Option<Field> {
    let at = find_seq(line, separator(), 0);
    if at < line.len() {
        Some((line.subrange(0, at), line.subrange(at + 2, line.len() as int)))
    } else {
        None
    }
}

/// The header fields that `lines` give: each line that parts into name and
/// value gives the lower-case name that value, a later line overriding an
/// earlier one of the same name. Other lines give nothing.
pub open spec fn fields_of(lines: Seq<Seq<char>>) -> Seq<Field>
    decreases lines.len(),
{
    if lines.len() == 0 {
        Seq::empty()
    } else {
        match split_field(lines.last()) {
            Some((name, value)) => put(fields_of(lines.drop_last()), lowercase(name), value),
            None => fields_of(lines.drop_last()),
        }
    }
}

/// The last of `lines` that does not part into name and value.
pub open spec fn loose_line(lines: Seq<Seq<char>>) -> Option<Seq<char>>
    decreases lines.len(),
{
    if lines.len() == 0 {
        None
    } else if split_field(lines.last()) is None {
        Some(lines.last())
    } else {
        loose_line(lines.drop_last())
    }
}

/// The body of the request `s`: all that follows the first empty line after
/// the request line, as it stands. Where nothing follows an empty line, the
/// last header line that is no field stands for the body.
pub open spec fn body_of(s: Seq<char>) -> Option<Seq<char>> {
    let start = next_line(s, 0);
    let blank = head_end(s, start);
    if blank < s.len() && next_line(s, blank) < s.len() {
        Some(s.subrange(next_line(s, blank), s.len() as int))
    } else {
        loose_line(head_lines(s, start))
    }
}

/// The method that a token names.
pub open spec fn method_of(token: Seq<char>) -> Option<Method> {
    if token == "GET"@ {
        Some(Method::Get)
    } else if token == "POST"@ {
        Some(Method::Post)
    } else if token == "PUT"@ {
        Some(Method::Put)
    } else if token == "DELETE"@ {
        Some(Method::Delete)
    } else if token == "PATCH"@ {
        Some(Method::Patch)
    } else {
        None
    }
}

/// The version that a token names.
pub open spec fn version_of(token: Seq<char>) -> Option<Version> {
    if token == "HTTP/1.0"@ {
        Some(Version::Http1_0)
    } else if token == "HTTP/1.1"@ {
        Some(Version::Http1_1)
    } else if token == "HTTP/2.0"@ {
        Some(Version::Http2_0)
    } else {
        None
    }
}

/// What a request line says: it must part at white space into exactly three
/// tokens, a method, a path and a version.
pub open spec fn request_line_of(line: Seq<char>) -> Result<(Method, Seq<char>, Version), ParseError> {
    let parts = tokens(line);
    if parts.len() != 3 {
        Err(ParseError::InvalidRequest)
    } else {
        match method_of(parts[0]) {
            None => Err(ParseError::InvalidMethod),
            Some(method) => match version_of(parts[2]) {
                None => Err(ParseError::InvalidVersion),
                Some(version) => Ok((method, parts[1], version)),
            },
        }
    }
}

/// The request that the text `s` holds.
pub open spec fn parse_text(s: Seq<char>) -> Result<RequestView, ParseError> {
    if s.len() == 0 {
        Err(ParseError::InvalidRequest)
    } else {
        match request_line_of(line_text(s, 0)) {
            Err(e) => Err(e),
            Ok((method, path, version)) => Ok(
                RequestView {
                    method,
                    path,
                    version,
                    headers: fields_of(head_lines(s, next_line(s, 0))),
                    body: body_of(s),
                },
            ),
        }
    }
}

/// The request that the bytes `raw` hold: they must be UTF-8.
pub open spec fn parse_bytes(raw: Seq<u8>) -> Result<RequestView, ParseError> {
    if valid_utf8(raw) {
        parse_text(decode_utf8(raw))
    } else {
        Err(ParseError::EncodingError)
    }
}

/// The version under which a request that may be faulty is answered: the
/// version that its request line names where that line has three tokens and
/// the third names a version, HTTP/1.1 otherwise.
pub open spec fn nominal_version_of(s: Seq<char>) -> Version {
    let parts = tokens(line_text(s, 0));
    if s.len() > 0 && parts.len() == 3 && version_of(parts[2]) is Some {
        version_of(parts[2])->0
    } else {
        Version::Http1_1
    }
}

/// The version under which the request in the bytes `raw` is answered where
/// it is faulty: HTTP/1.1 for bytes that are no text.
pub open spec fn nominal_of(raw: Seq<u8>) -> Version {
    if valid_utf8(raw) {
        nominal_version_of(decode_utf8(raw))
    } else {
        Version::Http1_1
    }
}

/// Calls `core::str::from_utf8`, which checks that `bytes` are UTF-8 and, if
/// they are, hands the same bytes back as text.
#[verifier::external_body]
fn utf8_text(bytes: &[u8]) -> (text: Option<&str>)
    ensures
        text is Some <==> valid_utf8(bytes@),
        text matches Some(t) ==> encode_utf8(t@) == bytes@,
{
    core::str::from_utf8(bytes).ok()
}

/// Where the line at `from` ends, without and with its line break.
fn line_bounds(s: &[char], from: usize) -> (bounds: (usize, usize))
    requires
        from < s.len(),
    ensures
        from <= bounds.0 <= s.len(),
        from < bounds.1 <= s.len(),
        s@.subrange(from as int, bounds.0 as int) == line_text(s@, from as int),
        bounds.1 == next_line(s@, from as int),
{
    let end = index_of_char(s, '\n', from);
    let next = if end < s.len() {
        end + 1
    } else {
        s.len()
    };
    if end < s.len() && from < end && s[end - 1] == '\r' {
        (end - 1, next)
    } else {
        (end, next)
    }
}

/// The three tokens of the request line of `s`, as index pairs into `s`;
/// `None` where the line has fewer or more tokens.
fn request_tokens(s: &[char]) -> (found: Option<((usize, usize), (usize, usize), (usize, usize))>)
    requires
        s.len() > 0,
    ensures
        match found {
            Some((a, b, c)) => {
                let parts = tokens(line_text(s@, 0));
                &&& parts.len() == 3
                &&& a.0 <= a.1 <= s.len()
                &&& b.0 <= b.1 <= s.len()
                &&& c.0 <= c.1 <= s.len()
                &&& parts[0] == s@.subrange(a.0 as int, a.1 as int)
                &&& parts[1] == s@.subrange(b.0 as int, b.1 as int)
                &&& parts[2] == s@.subrange(c.0 as int, c.1 as int)
            },
            None => tokens(line_text(s@, 0)).len() != 3,
        },
{
    let (end, _) = line_bounds(s, 0);
    let line = slice_subrange(s, 0, end);
    let ranges = split_at_whitespace(line);
    let ghost parts = tokens(line@);
    assert(parts.len() == ranges@.len());
    if ranges.len() != 3 {
        return None;
    }
    let a = ranges[0];
    let b = ranges[1];
    let c = ranges[2];
    proof {
        assert(parts[0] == line@.subrange(a.0 as int, a.1 as int));
        assert(parts[1] == line@.subrange(b.0 as int, b.1 as int));
        assert(parts[2] == line@.subrange(c.0 as int, c.1 as int));
        assert(line@.subrange(a.0 as int, a.1 as int) =~= s@.subrange(a.0 as int, a.1 as int));
        assert(line@.subrange(b.0 as int, b.1 as int) =~= s@.subrange(b.0 as int, b.1 as int));
        assert(line@.subrange(c.0 as int, c.1 as int) =~= s@.subrange(c.0 as int, c.1 as int));
    }
    Some((a, b, c))
}

impl HttpServer {
    /// Reads a method token. Only the five names in upper case are methods.
    pub fn parse_method(method: &str) -> (r: Result<Method, ParseError>)
        ensures
            r == match method_of(method@) {
                Some(m) => Ok::<Method, ParseError>(m),
                None => Err(ParseError::InvalidMethod),
            },
    {
        if same_text(method, "GET") {
            Ok(Method::Get)
        } else if same_text(method, "POST") {
            Ok(Method::Post)
        } else if same_text(method, "PUT") {
            Ok(Method::Put)
        } else if same_text(method, "DELETE") {
            Ok(Method::Delete)
        } else if same_text(method, "PATCH") {
            Ok(Method::Patch)
        } else {
            Err(ParseError::InvalidMethod)
        }
    }

    /// Reads a version token. Only `HTTP/1.0`, `HTTP/1.1` and `HTTP/2.0` are versions.
    pub fn parse_version(version: &str) -> (r: Result<Version, ParseError>)
        ensures
            r == match version_of(version@) {
                Some(v) => Ok::<Version, ParseError>(v),
                None => Err(ParseError::InvalidVersion),
            },
    {
        if same_text(version, "HTTP/1.0") {
            Ok(Version::Http1_0)
        } else if same_text(version, "HTTP/1.1") {
            Ok(Version::Http1_1)
        } else if same_text(version, "HTTP/2.0") {
            Ok(Version::Http2_0)
        } else {
            Err(ParseError::InvalidVersion)
        }
    }

    /// Reads a request from text. The first line must hold a method, a path
    /// and a version. The lines after it, up to the first empty line, are
    /// header fields; all that follows the empty line is the body.
    pub fn parse_request(input: &str) -> (r: Result<Request<'_>, ParseError>)
        ensures
            match r {
                Ok(request) => parse_text(input@) == Ok::<RequestView, ParseError>(request@)
                    && request.headers.well_formed(),
                Err(e) => parse_text(input@) == Err::<RequestView, ParseError>(e),
            },
    {
        let chars = chars_of(input);
        let s = chars.as_slice();
        if s.len() == 0 {
            return Err(ParseError::InvalidRequest);
        }
        let (a, b, c) = match request_tokens(s) {
            Some(found) => found,
            None => {
                return Err(ParseError::InvalidRequest);
            },
        };
        let method = match Self::parse_method(input.substring_char(a.0, a.1)) {
            Ok(m) => m,
            Err(e) => {
                return Err(e);
            },
        };
        let path = input.substring_char(b.0, b.1);
        let version = match Self::parse_version(input.substring_char(c.0, c.1)) {
            Ok(v) => v,
            Err(e) => {
                return Err(e);
            },
        };
        let (_, start) = line_bounds(s, 0);
        let (headers, body) = Self::parse_head(input, s, start);
        Ok(Request { method, path, version, headers, body })
    }

    /// Reads the header fields and the body of the request `input`, whose
    /// characters are `s` and whose second line starts at `start`.
    fn parse_head(input: &str, s: &[char], start: usize) -> (r: (Headers, Option<String>))
        requires
            s@ == input@,
            start <= s.len(),
            start == next_line(s@, 0),
        ensures
            r.0@ == fields_of(head_lines(s@, start as int)),
            r.0.well_formed(),
            text_view(r.1) == body_of(s@),
    {
        let pattern: Vec<char> = vec![':', ' '];
        assert(pattern@ =~= separator());
        let mut headers = Headers::new();
        let mut body: Option<String> = None;
        let mut pos: usize = start;
        let ghost mut seen: Seq<Seq<char>> = Seq::empty();
        assert(seen + head_lines(s@, pos as int) =~= head_lines(s@, start as int));
        loop
            invariant_except_break
                seen + head_lines(s@, pos as int) == head_lines(s@, start as int),
                head_end(s@, pos as int) == head_end(s@, start as int),
                headers@ == fields_of(seen),
                text_view(body) == loose_line(seen),
            invariant
                s@ == input@,
                start == next_line(s@, 0),
                start <= pos <= s.len(),
                pattern@ == separator(),
                headers.well_formed(),
            ensures
                headers@ == fields_of(head_lines(s@, start as int)),
                text_view(body) == body_of(s@),
            decreases s.len() - pos,
        {
            if pos >= s.len() {
                assert(seen + head_lines(s@, pos as int) =~= seen);
                break;
            }
            let (end, next) = line_bounds(s, pos);
            if end == pos {
                assert(seen + head_lines(s@, pos as int) =~= seen);
                if next < s.len() {
                    body = Some(String::from_str(input.substring_char(next, s.len())));
                }
                break;
            }
            let line = slice_subrange(s, pos, end);
            let at = index_of_seq(line, pattern.as_slice(), 0);
            proof {
                lemma_find_seq(line@, separator(), 0);
            }
            if at < line.len() {
                let name = input.substring_char(pos, pos + at);
                let value = input.substring_char(pos + at + 2, end);
                assert(name@ =~= line@.subrange(0, at as int));
                assert(value@ =~= line@.subrange(at + 2, line@.len() as int));
                headers.insert(to_lowercase(name), String::from_str(value));
            } else {
                body = Some(String::from_str(input.substring_char(pos, end)));
            }
            proof {
                let grown = seen.push(line@);
                assert(grown.drop_last() =~= seen);
                assert(grown.last() == line@);
                assert(grown + head_lines(s@, next as int) =~= seen + head_lines(s@, pos as int));
                seen = grown;
            }
            pos = next;
        }
        (headers, body)
    }

    /// The version under which a request that may be faulty is answered: the
    /// one that its request line names, HTTP/1.1 where it names none.
    pub fn nominal_version(input: &str) -> (version: Version)
        ensures
            version == nominal_version_of(input@),
    {
        let chars = chars_of(input);
        let s = chars.as_slice();
        if s.len() == 0 {
            return Version::Http1_1;
        }
        match request_tokens(s) {
            Some((_, _, c)) => match Self::parse_version(input.substring_char(c.0, c.1)) {
                Ok(version) => version,
                Err(_) => Version::Http1_1,
            },
            None => Version::Http1_1,
        }
    }

    /// The version under which the request in `raw` is answered where it is
    /// faulty.
    pub fn nominal_version_of_bytes(raw: &[u8]) -> (version: Version)
        ensures
            version == nominal_of(raw@),
    {
        match utf8_text(raw) {
            Some(text) => {
                proof {
                    vstd::utf8::encode_utf8_decode_utf8(text@);
                }
                Self::nominal_version(text)
            },
            None => Version::Http1_1,
        }
    }

    /// Reads a request from the bytes that came over the connection: they
    /// must be UTF-8 and then hold a request as `parse_request` reads it.
    pub fn parse(raw: &[u8]) -> (r: Result<Request<'_>, ParseError>)
        ensures
            match r {
                Ok(request) => parse_bytes(raw@) == Ok::<RequestView, ParseError>(request@)
                    && request.headers.well_formed(),
                Err(e) => parse_bytes(raw@) == Err::<RequestView, ParseError>(e),
            },
    {
        match utf8_text(raw) {
            Some(text) => {
                proof {
                    vstd::utf8::encode_utf8_decode_utf8(text@);
                }
                Self::parse_request(text)
            },
            None => Err(ParseError::EncodingError),
        }
    }
}

} // verus!

verus! {

/// The request line written from a method, a path and a version: the three
/// tokens, one space between each two.
pub open spec fn request_line(method: Method, path: Seq<char>, version: Version) -> Seq<char> {
    method.label() + seq![' '] + path + seq![' '] + version.label()
}

/// The name of a method is a token, and names that method only.
pub proof fn lemma_method_label(method: Method)
    ensures
        is_token(method.label()),
        method_of(method.label()) == Some(method),
{
    reveal_strlit("GET");
    reveal_strlit("POST");
    reveal_strlit("PUT");
    reveal_strlit("DELETE");
    reveal_strlit("PATCH");
    assert("GET"@ =~= seq!['G', 'E', 'T']);
    assert("POST"@ =~= seq!['P', 'O', 'S', 'T']);
    assert("PUT"@ =~= seq!['P', 'U', 'T']);
    assert("DELETE"@ =~= seq!['D', 'E', 'L', 'E', 'T', 'E']);
    assert("PATCH"@ =~= seq!['P', 'A', 'T', 'C', 'H']);
    assert("PUT"@[1] != "PATCH"@[1]);
}

/// The name of a version is a token, and names that version only.
pub proof fn lemma_version_label(version: Version)
    ensures
        is_token(version.label()),
        version_of(version.label()) == Some(version),
{
    reveal_strlit("HTTP/1.0");
    reveal_strlit("HTTP/1.1");
    reveal_strlit("HTTP/2.0");
    assert("HTTP/1.0"@ =~= seq!['H', 'T', 'T', 'P', '/', '1', '.', '0']);
    assert("HTTP/1.1"@ =~= seq!['H', 'T', 'T', 'P', '/', '1', '.', '1']);
    assert("HTTP/2.0"@ =~= seq!['H', 'T', 'T', 'P', '/', '2', '.', '0']);
    assert("HTTP/1.0"@[7] != "HTTP/1.1"@[7]);
    assert("HTTP/1.0"@[5] != "HTTP/2.0"@[5]);
    assert("HTTP/1.1"@[5] != "HTTP/2.0"@[5]);
}

/// A request line written from a method, a path and a version reads back as
/// these three, whatever the path, as long as it is a token.
pub proof fn lemma_request_line_round_trip(method: Method, path: Seq<char>, version: Version)
    requires
        is_token(path),
    ensures
        request_line_of(request_line(method, path, version)) == Ok::<
            (Method, Seq<char>, Version),
            ParseError,
        >((method, path, version)),
{
    lemma_method_label(method);
    lemma_version_label(version);
    lemma_tokens_of_three(method.label(), path, version.label(), ' ', ' ');
}

/// A request whose first line was written from a method, a path and a
/// version parses, and the request line written from what the parser
/// returns is that first line again.
pub proof fn lemma_parse_round_trip(s: Seq<char>, method: Method, path: Seq<char>, version: Version)
    requires
        is_token(path),
        s.len() > 0,
        line_text(s, 0) == request_line(method, path, version),
    ensures
        parse_text(s) is Ok,
        parse_text(s)->Ok_0.method == method,
        parse_text(s)->Ok_0.path == path,
        parse_text(s)->Ok_0.version == version,
        request_line(
            parse_text(s)->Ok_0.method,
            parse_text(s)->Ok_0.path,
            parse_text(s)->Ok_0.version,
        ) == line_text(s, 0),
{
    lemma_request_line_round_trip(method, path, version);
}

/// A request line alone is a request: it parses to its three tokens, with no
/// header field and no body.
pub proof fn lemma_parse_request_line(method: Method, path: Seq<char>, version: Version)
    requires
        is_token(path),
    ensures
        parse_text(request_line(method, path, version)) == Ok::<RequestView, ParseError>(
            RequestView { method, path, version, headers: Seq::empty(), body: None },
        ),
{
    let s = request_line(method, path, version);
    lemma_method_label(method);
    lemma_version_label(version);
    let a = method.label();
    let c = version.label();
    assert forall|k: int| 0 <= k < s.len() implies s[k] != '\n' by {
        if k < a.len() {
            assert(s[k] == a[k]);
        } else if k == a.len() {
        } else if k < a.len() + 1 + path.len() {
            assert(s[k] == path[k - a.len() - 1]);
        } else if k == a.len() + 1 + path.len() {
        } else {
            assert(s[k] == c[k - a.len() - path.len() - 2]);
        }
    }
    lemma_find_char_is(s, '\n', 0, s.len() as int);
    assert(line_text(s, 0) =~= s);
    lemma_request_line_round_trip(method, path, version);
    assert(head_lines(s, next_line(s, 0)) =~= Seq::<Seq<char>>::empty());
}

} // verus!

verus! {

/// Whether `name` is the lower-case form of some text.
pub open spec fn is_lowered(name: Seq<char>) -> bool {
    exists|raw: Seq<char>| name == #[trigger] lowercase(raw)
}

/// The header fields read from any lines have lower-case names, and no name
/// twice.
pub proof fn lemma_fields_are_lowered(lines: Seq<Seq<char>>)
    ensures
        distinct_names(fields_of(lines)),
        forall|i: int|
            0 <= i < fields_of(lines).len() ==> is_lowered((#[trigger] fields_of(lines)[i]).0),
    decreases lines.len(),
{
    if lines.len() > 0 {
        let before = fields_of(lines.drop_last());
        lemma_fields_are_lowered(lines.drop_last());
        match split_field(lines.last()) {
            Some((name, value)) => {
                let low = lowercase(name);
                lemma_put_keeps_distinct(before, low, value);
                lemma_position_from(before, low, 0);
                let after = put(before, low, value);
                assert(is_lowered(low));
                assert forall|i: int| 0 <= i < after.len() implies is_lowered(
                    (#[trigger] after[i]).0,
                ) by {
                    if i != position(before, low) {
                        assert(after[i] == before[i]);
                    }
                }
            },
            None => {},
        }
    }
}

} // verus!
