//! The vocabulary of the protocol: methods, versions, parse errors, and the
//! requests and responses built from them.

use vstd::prelude::*;
use crate::headers::{Field, Headers};

verus! {

/// The request methods the server recognises.
#[derive(Debug, Clone, Copy, PartialEq, Eq, Structural)]
pub enum Method {
    Get,
    Post,
    Put,
    Delete,
    Patch,
}

/// The protocol versions the server recognises. The version is a label only:
/// no behaviour depends on it.
#[derive(Debug, Clone, Copy, PartialEq, Eq, Structural)]
pub enum Version {
    Http1_0,
    Http1_1,
    Http2_0,
}

/// Why a request could not be understood.
#[derive(Debug, Clone, Copy, PartialEq, Eq, Structural)]
pub enum ParseError {
    InvalidRequest,
    InvalidMethod,
    InvalidVersion,
    MalformedContentLength,
    EncodingError,
}

impl Method {
    /// The token that names this method on the wire.
    pub open spec fn label(self) -> Seq<char> {
        match self {
            Method::Get => "GET"@,
            Method::Post => "POST"@,
            Method::Put => "PUT"@,
            Method::Delete => "DELETE"@,
            Method::Patch => "PATCH"@,
        }
    }

    pub fn to_str(&self) -> (s: &'static str)
        ensures
            s@ == self.label(),
    {
        match self {
            Method::Get => "GET",
            Method::Post => "POST",
            Method::Put => "PUT",
            Method::Delete => "DELETE",
            Method::Patch => "PATCH",
        }
    }
}

impl Version {
    /// The token that names this version on the wire.
    pub open spec fn label(self) -> Seq<char> {
        match self {
            Version::Http1_0 => "HTTP/1.0"@,
            Version::Http1_1 => "HTTP/1.1"@,
            Version::Http2_0 => "HTTP/2.0"@,
        }
    }

    pub fn to_str(&self) -> (s: &'static str)
        ensures
            s@ == self.label(),
    {
        match self {
            Version::Http1_0 => "HTTP/1.0",
            Version::Http1_1 => "HTTP/1.1",
            Version::Http2_0 => "HTTP/2.0",
        }
    }
}

/// A request as it was read off the connection. It is built once and not
/// changed afterwards.
#[derive(Debug)]
pub struct Request<'a> {
    pub method: Method,
    /// The path as it was sent: split by `/`, nothing decoded.
    pub path: &'a str,
    pub version: Version,
    /// The header fields, each under its lower-case name.
    pub headers: Headers,
    pub body: Option<String>,
}

/// A request as mathematics.
pub struct RequestView {
    pub method: Method,
    pub path: Seq<char>,
    pub version: Version,
    pub headers: Seq<Field>,
    pub body: Option<Seq<char>>,
}

impl<'a> View for Request<'a> {
    type V = RequestView;

    open spec fn view(&self) -> RequestView {
        RequestView {
            method: self.method,
            path: self.path@,
            version: self.version,
            headers: self.headers@,
            body: text_view(self.body),
        }
    }
}

/// A response as a handler made it, before it is put on the wire.
#[derive(Debug)]
pub struct Response {
    pub status_code: u32,
    /// The version of the request that is answered.
    pub version: Version,
    pub headers: Headers,
    pub body: Option<String>,
    /// Whether the body is to go out gzip-encoded.
    pub should_compress: bool,
}

/// A response as mathematics.
pub struct ResponseView {
    pub status_code: u32,
    pub version: Version,
    pub headers: Seq<Field>,
    pub body: Option<Seq<char>>,
    pub should_compress: bool,
}

impl View for Response {
    type V = ResponseView;

    open spec fn view(&self) -> ResponseView {
        ResponseView {
            status_code: self.status_code,
            version: self.version,
            headers: self.headers@,
            body: text_view(self.body),
            should_compress: self.should_compress,
        }
    }
}

/// The characters of an optional text.
pub open spec fn text_view(text: Option<String>) -> Option<Seq<char>> {
    match text {
        Some(t) => Some(t@),
        None => None,
    }
}

/// The phrase that goes with a status code on the status line.
pub open spec fn reason_of(status_code: u32) -> Seq<char> {
    if status_code == 200 {
        "OK"@
    } else if status_code == 201 {
        "Created"@
    } else if status_code == 404 {
        "Not Found"@
    } else if status_code == 500 {
        "Internal Server Error"@
    } else {
        "Unknown Status"@
    }
}

impl Response {
    /// The phrase that goes with this response's status code.
    pub fn reason_phrase(&self) -> (phrase: &'static str)
        ensures
            phrase@ == reason_of(self.status_code),
    {
        if self.status_code == 200 {
            "OK"
        } else if self.status_code == 201 {
            "Created"
        } else if self.status_code == 404 {
            "Not Found"
        } else if self.status_code == 500 {
            "Internal Server Error"
        } else {
            "Unknown Status"
        }
    }
}

} // verus!
