//! One connection from its first line to its close: what to do next, given
//! what has happened. The caller does the reading and the writing; every
//! decision is made here.

use vstd::prelude::*;
use vstd::string::*;
use vstd::utf8::encode_utf8;
use crate::codec::wire_form;
use crate::decimal::{parse_decimal, parse_usize};
use crate::message::{text_view, ParseError, Response, ResponseView, Version};
use crate::parser::{nominal_of, nominal_version_of, parse_bytes};
use crate::router::{
    bare_response, dir_view, dispatch_outcome, error_status, read_response, write_response,
    Outcome, OutcomeView,
};
use crate::server::HttpServer;
use crate::text::{
    chars_of, find_char, index_of_char, index_of_text, is_blank, matches_at, occurs_at, trim,
    trim_bounds,
};

verus! {

/// Where a connection stands. A connection moves through the phases in the
/// order in which they are listed and never back.
#[derive(Debug, Clone, Copy, PartialEq, Eq, Structural)]
pub enum Phase {
    Accepted,
    ReadingHeaders,
    ReadingBody,
    Dispatching,
    WritingResponse,
    Closed,
}

/// What has happened on the connection since the last step.
#[derive(Debug)]
pub enum Event {
    /// The connection was accepted.
    Opened,
    /// A line was read, line break included; it is empty where the input ended.
    Line(String),
    /// The body was read.
    Body(Vec<u8>),
    /// The file was read; `None` where it is missing or could not be read.
    FileRead(Option<String>),
    /// The file was written, or could not be.
    FileWritten(bool),
    /// The response was written.
    Sent,
    /// The read or the write that was asked for failed.
    Failed,
}

/// An event as mathematics.
pub enum EventView {
    Opened,
    Line(Seq<char>),
    Body(Seq<u8>),
    FileRead(Option<Seq<char>>),
    FileWritten(bool),
    Sent,
    Failed,
}

impl View for Event {
    type V = EventView;

    open spec fn view(&self) -> EventView {
        match self {
            Event::Opened => EventView::Opened,
            Event::Line(line) => EventView::Line(line@),
            Event::Body(body) => EventView::Body(body@),
            Event::FileRead(content) => EventView::FileRead(text_view(*content)),
            Event::FileWritten(written) => EventView::FileWritten(*written),
            Event::Sent => EventView::Sent,
            Event::Failed => EventView::Failed,
        }
    }
}

/// What the caller is to do next.
#[derive(Debug)]
pub enum Action {
    /// Read one line, line break included.
    ReadLine,
    /// Read exactly this many bytes.
    ReadBody(usize),
    /// Read the whole file at `path` as text.
    ReadFile { path: String },
    /// Create or empty the file at `path` and write `body` to it.
    WriteFile { path: String, body: String },
    /// Write these bytes to the connection.
    Send(Vec<u8>),
    /// Close the connection.
    Close,
}

/// An action as mathematics.
pub enum ActionView {
    ReadLine,
    ReadBody(usize),
    ReadFile { path: Seq<char> },
    WriteFile { path: Seq<char>, body: Seq<char> },
    Send(Seq<u8>),
    Close,
}

impl View for Action {
    type V = ActionView;

    open spec fn view(&self) -> ActionView {
        match self {
            Action::ReadLine => ActionView::ReadLine,
            Action::ReadBody(length) => ActionView::ReadBody(*length),
            Action::ReadFile { path } => ActionView::ReadFile { path: path@ },
            Action::WriteFile { path, body } => ActionView::WriteFile { path: path@, body: body@ },
            Action::Send(bytes) => ActionView::Send(bytes@),
            Action::Close => ActionView::Close,
        }
    }
}

/// What the response to a file operation still needs from the request.
#[derive(Debug)]
pub enum Pending {
    Nothing,
    Read { version: Version, compress: bool },
    Write { version: Version, body: String },
}

/// What is pending as mathematics.
pub enum PendingView {
    Nothing,
    Read { version: Version, compress: bool },
    Write { version: Version, body: Seq<char> },
}

impl View for Pending {
    type V = PendingView;

    open spec fn view(&self) -> PendingView {
        match self {
            Pending::Nothing => PendingView::Nothing,
            Pending::Read { version, compress } => PendingView::Read {
                version: *version,
                compress: *compress,
            },
            Pending::Write { version, body } => PendingView::Write {
                version: *version,
                body: body@,
            },
        }
    }
}

/// The state of one connection.
#[derive(Debug)]
pub struct Connection {
    phase: Phase,
    head: String,
    content_length: usize,
    pending: Pending,
    fault: Option<ParseError>,
}

/// The state of one connection as mathematics.
pub struct ConnectionView {
    pub phase: Phase,
    /// The request line and the header lines read so far, as they were read.
    pub head: Seq<char>,
    /// The length of the body as the header lines declare it; 0 where none does.
    pub content_length: usize,
    pub pending: PendingView,
    /// Why the request could not be read, if it could not.
    pub fault: Option<ParseError>,
}

impl View for Connection {
    type V = ConnectionView;

    closed spec fn view(&self) -> ConnectionView {
        ConnectionView {
            phase: self.phase,
            head: self.head@,
            content_length: self.content_length,
            pending: self.pending@,
            fault: self.fault,
        }
    }
}

/// What a header line says of the length of the body.
#[derive(Debug, Clone, Copy, PartialEq, Eq, Structural)]
pub enum Declared {
    /// The line declares no length.
    Nothing,
    /// The line declares this length.
    Length(usize),
    /// The line declares a length that is no number, or none that fits.
    Malformed,
}

/// How a line that declares the length of the body begins.
pub open spec fn length_prefix() -> Seq<char> {
    "Content-Length:"@
}

/// The text of the length that `line` declares: what follows
/// `Content-Length:`, less the white space around it. A line that begins
/// otherwise, or holds a second colon, declares nothing.
pub open spec fn length_text(line: Seq<char>) -> Option<Seq<char>> {
    let prefix = length_prefix();
    if occurs_at(line, prefix, 0) && find_char(line, ':', prefix.len() as int) >= line.len() {
        Some(trim(line.subrange(prefix.len() as int, line.len() as int)))
    } else {
        None
    }
}

/// What `line` says of the length of the body.
pub open spec fn declared(line: Seq<char>) -> Declared {
    match length_text(line) {
        None => Declared::Nothing,
        Some(text) => match parse_decimal(text) {
            Some(length) => if length <= usize::MAX {
                Declared::Length(length as usize)
            } else {
                Declared::Malformed
            },
            None => Declared::Malformed,
        },
    }
}

/// The request as it is handed to the parser: the lines read, a blank line,
/// the body.
pub open spec fn request_bytes(head: Seq<char>, body: Seq<u8>) -> Seq<u8> {
    encode_utf8(head) + seq![13u8, 10u8] + body
}

/// The rank of a phase in the order of the phases.
pub open spec fn rank(phase: Phase) -> nat {
    match phase {
        Phase::Accepted => 0,
        Phase::ReadingHeaders => 1,
        Phase::ReadingBody => 2,
        Phase::Dispatching => 3,
        Phase::WritingResponse => 4,
        Phase::Closed => 5,
    }
}

/// The connection closes.
pub open spec fn closing(c: ConnectionView) -> (ConnectionView, ActionView) {
    (ConnectionView { phase: Phase::Closed, pending: PendingView::Nothing, ..c }, ActionView::Close)
}

/// The connection goes on to write `response`.
pub open spec fn sending(c: ConnectionView, response: ResponseView) -> (
    ConnectionView,
    ActionView,
) {
    (
        ConnectionView { phase: Phase::WritingResponse, pending: PendingView::Nothing, ..c },
        ActionView::Send(wire_form(response)),
    )
}

/// The request could not be read: the fault is kept, and the response that
/// goes with it is written under `version`.
pub open spec fn failing(c: ConnectionView, error: ParseError, version: Version) -> (
    ConnectionView,
    ActionView,
) {
    sending(
        ConnectionView { fault: Some(error), ..c },
        bare_response(error_status(error), version),
    )
}

/// The request is complete with `body`: it is parsed and routed, and the
/// connection goes on to write the response, or first to the file operation
/// that the route asks for.
pub open spec fn settle(c: ConnectionView, dir: Option<Seq<char>>, body: Seq<u8>) -> (
    ConnectionView,
    ActionView,
) {
    let raw = request_bytes(c.head, body);
    match parse_bytes(raw) {
        Err(error) => failing(c, error, nominal_of(raw)),
        Ok(request) => match dispatch_outcome(dir, request) {
            OutcomeView::Reply(response) => sending(c, response),
            OutcomeView::ReadFile { path, version, compress } => (
                ConnectionView {
                    phase: Phase::Dispatching,
                    pending: PendingView::Read { version, compress },
                    ..c
                },
                ActionView::ReadFile { path },
            ),
            OutcomeView::WriteFile { path, body, version } => (
                ConnectionView {
                    phase: Phase::Dispatching,
                    pending: PendingView::Write { version, body },
                    ..c
                },
                ActionView::WriteFile { path, body },
            ),
        },
    }
}

/// A line came in while the header lines are read. A blank line ends them:
/// the body is read next where a length above 0 was declared, and the request
/// is complete otherwise. Any other line is kept, and the length it declares,
/// if any, replaces the one held; a declared length that is no number ends
/// the request with a 500.
pub open spec fn on_line(c: ConnectionView, dir: Option<Seq<char>>, line: Seq<char>) -> (
    ConnectionView,
    ActionView,
) {
    if is_blank(line) {
        if c.content_length > 0 {
            (
                ConnectionView { phase: Phase::ReadingBody, ..c },
                ActionView::ReadBody(c.content_length),
            )
        } else {
            settle(c, dir, Seq::empty())
        }
    } else {
        match declared(line) {
            Declared::Malformed => failing(
                c,
                ParseError::MalformedContentLength,
                nominal_version_of(c.head),
            ),
            Declared::Length(length) => (
                ConnectionView { head: c.head + line, content_length: length, ..c },
                ActionView::ReadLine,
            ),
            Declared::Nothing => (ConnectionView { head: c.head + line, ..c }, ActionView::ReadLine),
        }
    }
}

/// The body could not be read in full: a 500 is written, as far as it goes.
pub open spec fn short_body(c: ConnectionView) -> (ConnectionView, ActionView) {
    sending(c, bare_response(500, nominal_version_of(c.head)))
}

/// The state after `event` and the action to take, on a server whose
/// directory is `dir`. An event that the phase does not expect closes the
/// connection.
pub open spec fn next(c: ConnectionView, dir: Option<Seq<char>>, event: EventView) -> (
    ConnectionView,
    ActionView,
) {
    match (c.phase, event) {
        (Phase::Accepted, EventView::Opened) => (
            ConnectionView { phase: Phase::ReadingHeaders, ..c },
            ActionView::ReadLine,
        ),
        (Phase::ReadingHeaders, EventView::Line(line)) => on_line(c, dir, line),
        (Phase::ReadingBody, EventView::Body(body)) => if body.len() == c.content_length {
            settle(c, dir, body)
        } else {
            short_body(c)
        },
        (Phase::ReadingBody, EventView::Failed) => short_body(c),
        (Phase::Dispatching, EventView::FileRead(content)) => match c.pending {
            PendingView::Read { version, compress } => sending(
                c,
                read_response(version, content, compress),
            ),
            _ => closing(c),
        },
        (Phase::Dispatching, EventView::FileWritten(written)) => match c.pending {
            PendingView::Write { version, body } => sending(
                c,
                write_response(version, body, written),
            ),
            _ => closing(c),
        },
        _ => closing(c),
    }
}

/// What `line` says of the length of the body.
pub fn declared_length(line: &str) -> (found: Declared)
    ensures
        found == declared(line@),
{
    let chars = chars_of(line);
    let s = chars.as_slice();
    let prefix = chars_of("Content-Length:");
    proof {
        reveal_strlit("Content-Length:");
    }
    if !matches_at(s, prefix.as_slice(), 0) {
        return Declared::Nothing;
    }
    if index_of_char(s, ':', prefix.len()) < s.len() {
        return Declared::Nothing;
    }
    let (start, end) = trim_bounds(s, prefix.len());
    match parse_usize(s, start, end) {
        Some(length) => Declared::Length(length),
        None => Declared::Malformed,
    }
}

impl Connection {
    /// A connection that was just accepted: nothing read, no length declared.
    pub fn new() -> (c: Connection)
        ensures
            c@ == (ConnectionView {
                phase: Phase::Accepted,
                head: Seq::empty(),
                content_length: 0,
                pending: PendingView::Nothing,
                fault: None,
            }),
    {
        Connection {
            phase: Phase::Accepted,
            head: String::new(),
            content_length: 0,
            pending: Pending::Nothing,
            fault: None,
        }
    }

    /// Where the connection stands.
    pub fn phase(&self) -> (phase: Phase)
        ensures
            phase == self@.phase,
    {
        self.phase
    }

    /// The length of the body as the header lines read so far declare it.
    pub fn content_length(&self) -> (length: usize)
        ensures
            length == self@.content_length,
    {
        self.content_length
    }

    /// Why the request could not be read, if it could not.
    pub fn fault(&self) -> (fault: Option<ParseError>)
        ensures
            fault == self@.fault,
    {
        self.fault
    }

    fn close(self) -> (r: (Connection, Action))
        ensures
            (r.0@, r.1@) == closing(self@),
    {
        let Connection { head, content_length, fault, .. } = self;
        (
            Connection {
                phase: Phase::Closed,
                head,
                content_length,
                pending: Pending::Nothing,
                fault,
            },
            Action::Close,
        )
    }

    fn send(self, response: &Response) -> (r: (Connection, Action))
        ensures
            (r.0@, r.1@) == sending(self@, response@),
    {
        let Connection { head, content_length, fault, .. } = self;
        (
            Connection {
                phase: Phase::WritingResponse,
                head,
                content_length,
                pending: Pending::Nothing,
                fault,
            },
            Action::Send(response.to_http_string()),
        )
    }

    fn fail(self, error: ParseError, version: Version) -> (r: (Connection, Action))
        ensures
            (r.0@, r.1@) == failing(self@, error, version),
    {
        let Connection { phase, head, content_length, pending, .. } = self;
        let marked = Connection { phase, head, content_length, pending, fault: Some(error) };
        marked.send(&HttpServer::error_response(error, version))
    }

    fn fail_short(self) -> (r: (Connection, Action))
        ensures
            (r.0@, r.1@) == short_body(self@),
    {
        let version = HttpServer::nominal_version(self.head.as_str());
        let response = HttpServer::error_response(ParseError::MalformedContentLength, version);
        self.send(&response)
    }

    fn complete(self, server: &HttpServer, body: &[u8]) -> (r: (Connection, Action))
        ensures
            (r.0@, r.1@) == settle(self@, dir_view(server.file_dir), body@),
    {
        let mut raw: Vec<u8> = self.head.as_str().as_bytes_vec();
        raw.push(13u8);
        raw.push(10u8);
        raw.extend_from_slice(body);
        assert(raw@ =~= request_bytes(self@.head, body@));
        match HttpServer::parse(raw.as_slice()) {
            Err(error) => {
                let version = HttpServer::nominal_version_of_bytes(raw.as_slice());
                self.fail(error, version)
            },
            Ok(request) => match server.dispatch(&request) {
                Outcome::Reply(response) => self.send(&response),
                Outcome::ReadFile { path, version, compress } => {
                    let Connection { head, content_length, fault, .. } = self;
                    (
                        Connection {
                            phase: Phase::Dispatching,
                            head,
                            content_length,
                            pending: Pending::Read { version, compress },
                            fault,
                        },
                        Action::ReadFile { path },
                    )
                },
                Outcome::WriteFile { path, body, version } => {
                    let Connection { head, content_length, fault, .. } = self;
                    (
                        Connection {
                            phase: Phase::Dispatching,
                            head,
                            content_length,
                            pending: Pending::Write { version, body: body.clone() },
                            fault,
                        },
                        Action::WriteFile { path, body },
                    )
                },
            },
        }
    }

    fn take_line(self, server: &HttpServer, line: &str) -> (r: (Connection, Action))
        ensures
            (r.0@, r.1@) == on_line(self@, dir_view(server.file_dir), line@),
    {
        let chars = chars_of(line);
        if index_of_text(chars.as_slice(), 0) >= chars.len() {
            if self.content_length > 0 {
                let length = self.content_length;
                let Connection { head, content_length, pending, fault, .. } = self;
                return (
                    Connection { phase: Phase::ReadingBody, head, content_length, pending, fault },
                    Action::ReadBody(length),
                );
            }
            let body: Vec<u8> = Vec::new();
            return self.complete(server, body.as_slice());
        }
        match declared_length(line) {
            Declared::Malformed => {
                let version = HttpServer::nominal_version(self.head.as_str());
                self.fail(ParseError::MalformedContentLength, version)
            },
            Declared::Length(length) => {
                let Connection { phase, mut head, pending, fault, .. } = self;
                head.append(line);
                (
                    Connection { phase, head, content_length: length, pending, fault },
                    Action::ReadLine,
                )
            },
            Declared::Nothing => {
                let Connection { phase, mut head, content_length, pending, fault } = self;
                head.append(line);
                (Connection { phase, head, content_length, pending, fault }, Action::ReadLine)
            },
        }
    }

    /// Takes the connection one step on: given what happened, the state that
    /// follows and what the caller is to do next.
    pub fn step(self, server: &HttpServer, event: Event) -> (r: (Connection, Action))
        ensures
            (r.0@, r.1@) == next(self@, dir_view(server.file_dir), event@),
    {
        match self.phase {
            Phase::Accepted => match event {
                Event::Opened => {
                    let Connection { head, content_length, pending, fault, .. } = self;
                    (
                        Connection {
                            phase: Phase::ReadingHeaders,
                            head,
                            content_length,
                            pending,
                            fault,
                        },
                        Action::ReadLine,
                    )
                },
                _ => self.close(),
            },
            Phase::ReadingHeaders => match event {
                Event::Line(line) => self.take_line(server, line.as_str()),
                _ => self.close(),
            },
            Phase::ReadingBody => match event {
                Event::Body(body) => {
                    if body.len() == self.content_length {
                        self.complete(server, body.as_slice())
                    } else {
                        self.fail_short()
                    }
                },
                Event::Failed => self.fail_short(),
                _ => self.close(),
            },
            Phase::Dispatching => match event {
                Event::FileRead(content) => {
                    let Connection { phase, head, content_length, pending, fault } = self;
                    match pending {
                        Pending::Read { version, compress } => {
                            let response = HttpServer::file_read_response(
                                version,
                                content,
                                compress,
                            );
                            let held = Connection {
                                phase,
                                head,
                                content_length,
                                pending: Pending::Read { version, compress },
                                fault,
                            };
                            held.send(&response)
                        },
                        other => {
                            let held = Connection {
                                phase,
                                head,
                                content_length,
                                pending: other,
                                fault,
                            };
                            held.close()
                        },
                    }
                },
                Event::FileWritten(written) => {
                    let Connection { phase, head, content_length, pending, fault } = self;
                    match pending {
                        Pending::Write { version, body } => {
                            let response = HttpServer::file_write_response(version, body, written);
                            let held = Connection {
                                phase,
                                head,
                                content_length,
                                pending: Pending::Nothing,
                                fault,
                            };
                            held.send(&response)
                        },
                        other => {
                            let held = Connection {
                                phase,
                                head,
                                content_length,
                                pending: other,
                                fault,
                            };
                            held.close()
                        },
                    }
                },
                _ => self.close(),
            },
            Phase::WritingResponse => self.close(),
            Phase::Closed => self.close(),
        }
    }
}

} // verus!

verus! {

/// A connection never goes back to an earlier phase, and stays in a phase
/// only while it reads header lines or once it is closed.
pub proof fn lemma_step_never_goes_back(
    c: ConnectionView,
    dir: Option<Seq<char>>,
    event: EventView,
)
    ensures
        rank(next(c, dir, event).0.phase) >= rank(c.phase),
        rank(next(c, dir, event).0.phase) == rank(c.phase) ==> c.phase == Phase::Closed || (
        c.phase == Phase::ReadingHeaders && event is Line && next(c, dir, event).1
            == ActionView::ReadLine),
{
}

/// A response is written at most once: the step that asks for it is the
/// step that enters the phase of writing, which no later step enters again.
pub proof fn lemma_response_is_written_once(
    c: ConnectionView,
    dir: Option<Seq<char>>,
    event: EventView,
)
    ensures
        next(c, dir, event).1 is Send <==> next(c, dir, event).0.phase == Phase::WritingResponse,
        next(c, dir, event).1 is Send ==> rank(c.phase) < rank(Phase::WritingResponse),
{
}

/// Whatever happens once the response is to be written, the connection
/// closes; and closed it stays.
pub proof fn lemma_writing_ends_in_close(
    c: ConnectionView,
    dir: Option<Seq<char>>,
    event: EventView,
)
    requires
        c.phase == Phase::WritingResponse || c.phase == Phase::Closed,
    ensures
        next(c, dir, event).0.phase == Phase::Closed,
        next(c, dir, event).1 == ActionView::Close,
{
}

/// The caller is told to close just when the connection is closed.
pub proof fn lemma_close_is_told(c: ConnectionView, dir: Option<Seq<char>>, event: EventView)
    ensures
        next(c, dir, event).1 is Close <==> next(c, dir, event).0.phase == Phase::Closed,
{
}

/// The body is asked for only where a length above 0 was declared, and with
/// just that length.
pub proof fn lemma_body_is_read_as_declared(
    c: ConnectionView,
    dir: Option<Seq<char>>,
    event: EventView,
)
    ensures
        next(c, dir, event).1 matches ActionView::ReadBody(length) ==> length > 0 && length
            == c.content_length && next(c, dir, event).0.phase == Phase::ReadingBody,
{
}

} // verus!
