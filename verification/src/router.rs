//! Routing: from a request to the response that answers it, or to the one
//! file operation that has to happen before the response can be made.

use vstd::prelude::*;
use vstd::string::*;
use vstd::utf8::encode_utf8;
use crate::decimal::{decimal, decimal_string};
use crate::headers::{lookup, position_from, Field, Headers};
use crate::message::{
    Method, ParseError, Request, RequestView, Response, ResponseView, Version,
};
use crate::server::HttpServer;
use crate::text::{
    chars_of, contains_seq, free_of, index_of_seq, lemma_pieces_first, lemma_pieces_of_one,
    lowercase, pieces, same_text, split_at_char, to_lowercase,
};

verus! {

/// What a path asks for.
pub enum Route {
    /// `/`
    Root,
    /// `/user-agent`
    UserAgent,
    /// `/echo/` and one more segment: the text to send back.
    Echo(Seq<char>),
    /// `/files/` and one more segment: the name of a file.
    File(Seq<char>),
    /// Any other path.
    NotFound,
}

/// What `path` asks for: the path is split at every `/`, and the segments are
/// held against the five patterns in turn.
pub open spec fn route_of(path: Seq<char>) -> Route {
    let segments = pieces(path, '/');
    if segments.len() == 2 && segments[0].len() == 0 && segments[1].len() == 0 {
        Route::Root
    } else if segments.len() == 2 && segments[0].len() == 0 && segments[1] == "user-agent"@ {
        Route::UserAgent
    } else if segments.len() == 3 && segments[0].len() == 0 && segments[1] == "echo"@ {
        Route::Echo(segments[2])
    } else if segments.len() == 3 && segments[0].len() == 0 && segments[1] == "files"@ {
        Route::File(segments[2])
    } else {
        Route::NotFound
    }
}

/// What a path asks for, the segment it carries borrowed from the path.
#[derive(Debug, Clone, Copy)]
pub enum Target<'a> {
    Root,
    UserAgent,
    Echo(&'a str),
    File(&'a str),
    NotFound,
}

impl<'a> View for Target<'a> {
    type V = Route;

    open spec fn view(&self) -> Route {
        match self {
            Target::Root => Route::Root,
            Target::UserAgent => Route::UserAgent,
            Target::Echo(text) => Route::Echo(text@),
            Target::File(name) => Route::File(name@),
            Target::NotFound => Route::NotFound,
        }
    }
}

/// The number of bytes that `text` takes on the wire.
pub open spec fn byte_len(text: Seq<char>) -> nat {
    encode_utf8(text).len()
}

/// The two header fields that describe a body: its type and its length in bytes.
pub open spec fn content_fields(content_type: Seq<char>, length: nat) -> Seq<Field> {
    seq![("Content-Type"@, content_type), ("Content-Length"@, decimal(length))]
}

/// A response with no header field and no body.
pub open spec fn bare_response(status_code: u32, version: Version) -> ResponseView {
    ResponseView {
        status_code,
        version,
        headers: Seq::empty(),
        body: None,
        should_compress: false,
    }
}

/// The answer to `/user-agent`: the value of the `user-agent` field as the body.
pub open spec fn user_agent_response(request: RequestView) -> ResponseView {
    let agent = lookup(request.headers, "user-agent"@);
    ResponseView {
        status_code: 200,
        version: request.version,
        headers: content_fields(
            "text/plain"@,
            match agent {
                Some(a) => byte_len(a),
                None => 0,
            },
        ),
        body: agent,
        should_compress: false,
    }
}

/// The answer to `/echo/{text}`: the text as the body.
pub open spec fn echo_response(version: Version, text: Seq<char>) -> ResponseView {
    ResponseView {
        status_code: 200,
        version,
        headers: content_fields("text/plain"@, byte_len(text)),
        body: Some(text),
        should_compress: false,
    }
}

/// The answer to a `GET` on the file route, given what reading the file gave
/// (`None`: it is missing or could not be read).
pub open spec fn read_response(
    version: Version,
    content: Option<Seq<char>>,
    compress: bool,
) -> ResponseView {
    match content {
        Some(c) => ResponseView {
            status_code: 200,
            version,
            headers: content_fields("application/octet-stream"@, byte_len(c)),
            body: Some(c),
            should_compress: compress,
        },
        None => ResponseView { should_compress: compress, ..bare_response(404, version) },
    }
}

/// The answer to a `POST` on the file route, given whether `body` was
/// written to the file.
pub open spec fn write_response(version: Version, body: Seq<char>, written: bool) -> ResponseView {
    if written {
        ResponseView {
            status_code: 201,
            version,
            headers: seq![("Content-Type"@, "application/octet-stream"@)],
            body: Some(body),
            should_compress: false,
        }
    } else {
        bare_response(500, version)
    }
}

/// The status that answers a request that could not be read: 500 where the
/// declared length was no number, 404 for every other fault.
pub open spec fn error_status(error: ParseError) -> u32 {
    if error == ParseError::MalformedContentLength {
        500
    } else {
        404
    }
}

/// Where the file `name` lies under the directory `dir`.
pub open spec fn file_path(dir: Seq<char>, name: Seq<char>) -> Seq<char> {
    dir + "/"@ + name
}

/// Where routing a request ends: with a response, or with a file to read or
/// to write first.
#[derive(Debug)]
pub enum Outcome {
    /// The response is made.
    Reply(Response),
    /// The file at `path` is to be read; `file_read_response` makes the
    /// response from what the read gave.
    ReadFile { path: String, version: Version, compress: bool },
    /// `body` is to be written to the file at `path`, which is created or
    /// emptied first; `file_write_response` makes the response.
    WriteFile { path: String, body: String, version: Version },
}

/// An outcome as mathematics.
pub enum OutcomeView {
    Reply(ResponseView),
    ReadFile { path: Seq<char>, version: Version, compress: bool },
    WriteFile { path: Seq<char>, body: Seq<char>, version: Version },
}

impl View for Outcome {
    type V = OutcomeView;

    open spec fn view(&self) -> OutcomeView {
        match self {
            Outcome::Reply(response) => OutcomeView::Reply(response@),
            Outcome::ReadFile { path, version, compress } => OutcomeView::ReadFile {
                path: path@,
                version: *version,
                compress: *compress,
            },
            Outcome::WriteFile { path, body, version } => OutcomeView::WriteFile {
                path: path@,
                body: body@,
                version: *version,
            },
        }
    }
}

/// What the file route does with a request for the file `name`, the server's
/// directory being `dir`. Without a directory the answer is 404 whatever the
/// method. With one, `GET` reads the file, `POST` writes the body to it (500
/// where the request has no body), and any other method is answered 500.
pub open spec fn file_outcome(
    dir: Option<Seq<char>>,
    request: RequestView,
    name: Seq<char>,
) -> OutcomeView {
    match dir {
        None => OutcomeView::Reply(bare_response(404, request.version)),
        Some(d) => match request.method {
            Method::Get => OutcomeView::ReadFile {
                path: file_path(d, name),
                version: request.version,
                compress: false,
            },
            Method::Post => match request.body {
                Some(body) => OutcomeView::WriteFile {
                    path: file_path(d, name),
                    body,
                    version: request.version,
                },
                None => OutcomeView::Reply(bare_response(500, request.version)),
            },
            _ => OutcomeView::Reply(bare_response(500, request.version)),
        },
    }
}

/// Whether the request's `accept-encoding` field names gzip, in any case.
pub open spec fn accepts_gzip(headers: Seq<Field>) -> bool {
    match lookup(headers, "accept-encoding"@) {
        Some(encodings) => contains_seq(lowercase(encodings), "gzip"@),
        None => false,
    }
}

/// `outcome` with the request for an encoded body set to `compress`. A file
/// to write is left as it is.
pub open spec fn with_compress(outcome: OutcomeView, compress: bool) -> OutcomeView {
    match outcome {
        OutcomeView::Reply(response) => OutcomeView::Reply(
            ResponseView { should_compress: compress, ..response },
        ),
        OutcomeView::ReadFile { path, version, .. } => OutcomeView::ReadFile {
            path,
            version,
            compress,
        },
        OutcomeView::WriteFile { .. } => outcome,
    }
}

/// Where routing `request` ends on a server whose directory is `dir`. Only
/// the echo route and `GET` on the file route ever ask for an encoded body,
/// and only where the request accepts gzip.
pub open spec fn dispatch_outcome(dir: Option<Seq<char>>, request: RequestView) -> OutcomeView {
    let compress = accepts_gzip(request.headers);
    match route_of(request.path) {
        Route::Root => OutcomeView::Reply(bare_response(200, request.version)),
        Route::UserAgent => OutcomeView::Reply(user_agent_response(request)),
        Route::Echo(text) => with_compress(
            OutcomeView::Reply(echo_response(request.version, text)),
            compress,
        ),
        Route::File(name) => if request.method == Method::Get {
            with_compress(file_outcome(dir, request, name), compress)
        } else {
            file_outcome(dir, request, name)
        },
        Route::NotFound => OutcomeView::Reply(bare_response(404, request.version)),
    }
}

/// The server's directory as mathematics.
pub open spec fn dir_view(dir: Option<String>) -> Option<Seq<char>> {
    match dir {
        Some(d) => Some(d@),
        None => None,
    }
}

/// A response with no header field and no body.
fn bare(status_code: u32, version: Version) -> (response: Response)
    ensures
        response@ == bare_response(status_code, version),
        response.headers.well_formed(),
{
    Response { status_code, version, headers: Headers::new(), body: None, should_compress: false }
}

/// The header fields `Content-Type` and `Content-Length`.
fn content_headers(content_type: &str, length: usize) -> (headers: Headers)
    ensures
        headers@ == content_fields(content_type@, length as nat),
        headers.well_formed(),
{
    let mut headers = Headers::new();
    headers.insert(String::from_str("Content-Type"), String::from_str(content_type));
    headers.insert(String::from_str("Content-Length"), decimal_string(length as u64));
    proof {
        reveal_strlit("Content-Type");
        reveal_strlit("Content-Length");
        assert("Content-Type"@[8] != "Content-Length"@[8]);
        reveal_with_fuel(position_from, 3);
        assert(headers@ =~= content_fields(content_type@, length as nat));
    }
    headers
}

/// What `path` asks for.
pub fn route(path: &str) -> (target: Target<'_>)
    ensures
        target@ == route_of(path@),
{
    let chars = chars_of(path);
    let segments = split_at_char(chars.as_slice(), '/');
    let ghost parts = pieces(path@, '/');
    assert(parts.len() == segments@.len());
    assert(forall|k: int|
        0 <= k < segments@.len() ==> parts[k] == path@.subrange(
            segments@[k].0 as int,
            segments@[k].1 as int,
        ));
    if segments.len() == 2 {
        let first = segments[0];
        let second = segments[1];
        assert(parts[0] == path@.subrange(first.0 as int, first.1 as int));
        assert(parts[1] == path@.subrange(second.0 as int, second.1 as int));
        if first.0 != first.1 {
            return Target::NotFound;
        }
        if second.0 == second.1 {
            return Target::Root;
        }
        if same_text(path.substring_char(second.0, second.1), "user-agent") {
            return Target::UserAgent;
        }
        Target::NotFound
    } else if segments.len() == 3 {
        let first = segments[0];
        let second = segments[1];
        let third = segments[2];
        assert(parts[0] == path@.subrange(first.0 as int, first.1 as int));
        assert(parts[1] == path@.subrange(second.0 as int, second.1 as int));
        assert(parts[2] == path@.subrange(third.0 as int, third.1 as int));
        if first.0 != first.1 {
            return Target::NotFound;
        }
        let kind = path.substring_char(second.0, second.1);
        let rest = path.substring_char(third.0, third.1);
        if same_text(kind, "echo") {
            return Target::Echo(rest);
        }
        if same_text(kind, "files") {
            return Target::File(rest);
        }
        Target::NotFound
    } else {
        Target::NotFound
    }
}

/// Whether the request's `accept-encoding` field names gzip, in any case.
pub fn supports_gzip(headers: &Headers) -> (yes: bool)
    ensures
        yes == accepts_gzip(headers@),
{
    match headers.get("accept-encoding") {
        Some(encodings) => {
            let lower = to_lowercase(encodings);
            let chars = chars_of(lower.as_str());
            let pattern = chars_of("gzip");
            index_of_seq(chars.as_slice(), pattern.as_slice(), 0) < chars.len()
        },
        None => false,
    }
}

impl HttpServer {
    /// Answers `/`: 200, no header field, no body, whatever the request holds.
    pub fn handle_root_request(&self, request: &Request) -> (response: Response)
        ensures
            response@ == bare_response(200, request.version),
            response.headers.well_formed(),
    {
        bare(200, request.version)
    }

    /// Answers `/user-agent`: 200 with the value of the request's
    /// `user-agent` field as a plain-text body; no body where the request
    /// has no such field.
    pub fn handle_user_agent_request(&self, request: &Request) -> (response: Response)
        ensures
            response@ == user_agent_response(request@),
            response.headers.well_formed(),
    {
        let agent: Option<String> = match request.headers.get("user-agent") {
            Some(value) => Some(String::from_str(value)),
            None => None,
        };
        let length: usize = match &agent {
            Some(value) => value.as_str().as_bytes().len(),
            None => 0,
        };
        Response {
            status_code: 200,
            version: request.version,
            headers: content_headers("text/plain", length),
            body: agent,
            should_compress: false,
        }
    }

    /// Answers `/echo/{text}`: 200 with `echo_str` as a plain-text body.
    pub fn handle_echo_request(&self, request: &Request, echo_str: &str) -> (response: Response)
        ensures
            response@ == echo_response(request.version, echo_str@),
            response.headers.well_formed(),
    {
        let body = String::from_str(echo_str);
        let length: usize = echo_str.as_bytes().len();
        Response {
            status_code: 200,
            version: request.version,
            headers: content_headers("text/plain", length),
            body: Some(body),
            should_compress: false,
        }
    }

    /// Decides what the file route does with a request for the file
    /// `filename`: answer at once, read the file, or write the body to it.
    pub fn handle_file_request(&self, request: &Request, filename: &str) -> (outcome: Outcome)
        ensures
            outcome@ == file_outcome(dir_view(self.file_dir), request@, filename@),
    {
        match &self.file_dir {
            None => Outcome::Reply(bare(404, request.version)),
            Some(dir) => {
                match request.method {
                    Method::Get => {
                        let mut path = dir.clone();
                        path.append("/");
                        path.append(filename);
                        Outcome::ReadFile { path, version: request.version, compress: false }
                    },
                    Method::Post => match &request.body {
                        Some(body) => {
                            let mut path = dir.clone();
                            path.append("/");
                            path.append(filename);
                            Outcome::WriteFile {
                                path,
                                body: body.clone(),
                                version: request.version,
                            }
                        },
                        None => Outcome::Reply(bare(500, request.version)),
                    },
                    _ => Outcome::Reply(bare(500, request.version)),
                }
            },
        }
    }

    /// Makes the response to a `GET` on the file route from what reading the
    /// file gave: 200 with the content as the body, or 404 where there is
    /// none.
    pub fn file_read_response(version: Version, content: Option<String>, compress: bool) -> (response:
        Response)
        ensures
            response@ == read_response(version, dir_view(content), compress),
            response.headers.well_formed(),
    {
        match content {
            Some(body) => {
                let length: usize = body.as_str().as_bytes().len();
                Response {
                    status_code: 200,
                    version,
                    headers: content_headers("application/octet-stream", length),
                    body: Some(body),
                    should_compress: compress,
                }
            },
            None => Response {
                status_code: 404,
                version,
                headers: Headers::new(),
                body: None,
                should_compress: compress,
            },
        }
    }

    /// Makes the response to a `POST` on the file route: 201 with the body
    /// that was written, or 500 where the write failed.
    pub fn file_write_response(version: Version, body: String, written: bool) -> (response:
        Response)
        ensures
            response@ == write_response(version, body@, written),
            response.headers.well_formed(),
    {
        if written {
            let mut headers = Headers::new();
            headers.insert(
                String::from_str("Content-Type"),
                String::from_str("application/octet-stream"),
            );
            assert(headers@ =~= seq![("Content-Type"@, "application/octet-stream"@)]);
            Response { status_code: 201, version, headers, body: Some(body), should_compress: false }
        } else {
            bare(500, version)
        }
    }

    /// Answers a request that could not be read, under the version given.
    pub fn error_response(error: ParseError, version: Version) -> (response: Response)
        ensures
            response@ == bare_response(error_status(error), version),
            response.headers.well_formed(),
    {
        match error {
            ParseError::MalformedContentLength => bare(500, version),
            _ => bare(404, version),
        }
    }

    /// Answers a path that no route matches: 404, no header field, no body.
    pub fn handle_not_found(&self, request: &Request) -> (response: Response)
        ensures
            response@ == bare_response(404, request.version),
            response.headers.well_formed(),
    {
        bare(404, request.version)
    }

    /// The answer where nothing is known of the request: 500 under HTTP/1.1.
    pub fn handle_internal_server_error(&self) -> (response: Response)
        ensures
            response@ == bare_response(500, Version::Http1_1),
            response.headers.well_formed(),
    {
        bare(500, Version::Http1_1)
    }

    /// Routes `request`: the path picks the handler, and where the request
    /// accepts gzip, the echo route and `GET` on the file route ask for an
    /// encoded body.
    pub fn dispatch(&self, request: &Request) -> (outcome: Outcome)
        ensures
            outcome@ == dispatch_outcome(dir_view(self.file_dir), request@),
    {
        let compress = supports_gzip(&request.headers);
        match route(request.path) {
            Target::Root => Outcome::Reply(self.handle_root_request(request)),
            Target::UserAgent => Outcome::Reply(self.handle_user_agent_request(request)),
            Target::Echo(text) => {
                let mut response = self.handle_echo_request(request, text);
                response.should_compress = compress;
                Outcome::Reply(response)
            },
            Target::File(name) => {
                let outcome = self.handle_file_request(request, name);
                match request.method {
                    Method::Get => match outcome {
                        Outcome::Reply(mut response) => {
                            response.should_compress = compress;
                            Outcome::Reply(response)
                        },
                        Outcome::ReadFile { path, version, .. } => Outcome::ReadFile {
                            path,
                            version,
                            compress,
                        },
                        Outcome::WriteFile { path, body, version } => Outcome::WriteFile {
                            path,
                            body,
                            version,
                        },
                    },
                    _ => outcome,
                }
            },
            Target::NotFound => Outcome::Reply(self.handle_not_found(request)),
        }
    }
}

} // verus!

verus! {

/// The path `/` asks for the root.
pub proof fn lemma_route_root()
    ensures
        route_of("/"@) == Route::Root,
{
    reveal_strlit("/");
    let s = "/"@;
    lemma_pieces_first(s, '/', 0, 0);
    lemma_pieces_of_one(s, '/', 1);
    assert(pieces(s, '/').len() == 2);
    assert(pieces(s, '/')[0] =~= Seq::<char>::empty());
    assert(pieces(s, '/')[1] =~= Seq::<char>::empty());
}

/// The path `/user-agent` asks for the user agent.
pub proof fn lemma_route_user_agent()
    ensures
        route_of("/user-agent"@) == Route::UserAgent,
{
    reveal_strlit("/user-agent");
    reveal_strlit("user-agent");
    let s = "/user-agent"@;
    lemma_pieces_first(s, '/', 0, 0);
    lemma_pieces_of_one(s, '/', 1);
    assert(pieces(s, '/').len() == 2);
    assert(pieces(s, '/')[0] =~= Seq::<char>::empty());
    assert(pieces(s, '/')[1] =~= "user-agent"@);
}

/// The segments of a path made of one fixed segment of `n` characters and
/// one more that holds no slash.
proof fn lemma_two_segments(s: Seq<char>, n: int)
    requires
        0 < n,
        n + 2 <= s.len(),
        s[0] == '/',
        s[n + 1] == '/',
        forall|k: int| 1 <= k <= n ==> s[k] != '/',
        forall|k: int| n + 2 <= k < s.len() ==> s[k] != '/',
    ensures
        pieces(s, '/') == seq![
            Seq::<char>::empty(),
            s.subrange(1, n + 1),
            s.subrange(n + 2, s.len() as int),
        ],
{
    lemma_pieces_first(s, '/', 0, 0);
    lemma_pieces_first(s, '/', 1, n + 1);
    lemma_pieces_of_one(s, '/', n + 2);
    assert(s.subrange(0, 0) =~= Seq::<char>::empty());
    assert(pieces(s, '/') =~= seq![
        Seq::<char>::empty(),
        s.subrange(1, n + 1),
        s.subrange(n + 2, s.len() as int),
    ]);
}

/// A path made of `/echo/` and a text that holds no slash asks for that text
/// to be sent back.
pub proof fn lemma_route_echo(text: Seq<char>)
    requires
        free_of(text, '/'),
    ensures
        route_of("/echo/"@ + text) == Route::Echo(text),
{
    reveal_strlit("/echo/");
    reveal_strlit("echo");
    let s = "/echo/"@ + text;
    assert forall|k: int| 6 <= k < s.len() implies s[k] != '/' by {
        assert(s[k] == text[k - 6]);
    }
    lemma_two_segments(s, 4);
    assert(s.subrange(1, 5) =~= "echo"@);
    assert(s.subrange(6, s.len() as int) =~= text);
}

/// A path made of `/files/` and a name that holds no slash asks for the file
/// of that name.
pub proof fn lemma_route_file(name: Seq<char>)
    requires
        free_of(name, '/'),
    ensures
        route_of("/files/"@ + name) == Route::File(name),
{
    reveal_strlit("/files/");
    reveal_strlit("files");
    reveal_strlit("echo");
    let s = "/files/"@ + name;
    assert forall|k: int| 7 <= k < s.len() implies s[k] != '/' by {
        assert(s[k] == name[k - 7]);
    }
    lemma_two_segments(s, 5);
    assert(s.subrange(1, 6) =~= "files"@);
    assert(s.subrange(7, s.len() as int) =~= name);
    assert("files"@.len() != "echo"@.len());
}

/// A request for `/` is answered 200 without header field or body, whatever
/// its method, its header fields and its body, and whatever the server's
/// directory.
pub proof fn lemma_root_is_answered(dir: Option<Seq<char>>, request: RequestView)
    requires
        request.path == "/"@,
    ensures
        dispatch_outcome(dir, request) == OutcomeView::Reply(
            bare_response(200, request.version),
        ),
{
    lemma_route_root();
}

/// A request for `/echo/` and a text is answered 200 with that text as the
/// body, and asks for an encoded body just where the request accepts gzip.
pub proof fn lemma_echo_is_answered(dir: Option<Seq<char>>, request: RequestView, text: Seq<char>)
    requires
        free_of(text, '/'),
        request.path == "/echo/"@ + text,
    ensures
        dispatch_outcome(dir, request) == OutcomeView::Reply(
            ResponseView {
                should_compress: accepts_gzip(request.headers),
                ..echo_response(request.version, text)
            },
        ),
{
    lemma_route_echo(text);
}

/// With a directory set, what is posted to a file is what a later request
/// for that file sends back, as long as the file keeps what was written: the
/// post asks for the body to be written to the very path that the get asks
/// to be read, and the response made from what was read holds just that.
pub proof fn lemma_file_round_trip(
    dir: Seq<char>,
    name: Seq<char>,
    post: RequestView,
    get: RequestView,
    body: Seq<char>,
)
    requires
        free_of(name, '/'),
        post.method == Method::Post,
        post.path == "/files/"@ + name,
        post.body == Some(body),
        get.method == Method::Get,
        get.path == post.path,
    ensures
        dispatch_outcome(Some(dir), post) == (OutcomeView::WriteFile {
            path: file_path(dir, name),
            body,
            version: post.version,
        }),
        dispatch_outcome(Some(dir), get) == (OutcomeView::ReadFile {
            path: file_path(dir, name),
            version: get.version,
            compress: accepts_gzip(get.headers),
        }),
        write_response(post.version, body, true).status_code == 201,
        read_response(get.version, Some(body), accepts_gzip(get.headers)).status_code == 200,
        read_response(get.version, Some(body), accepts_gzip(get.headers)).body == Some(body),
{
    lemma_route_file(name);
}

} // verus!
