//! The wire form of a response: status line, header fields, a blank line and
//! the body, the body gzip-encoded where the response asks for it.

use vstd::prelude::*;
use vstd::string::*;
use vstd::utf8::encode_utf8;
use flate2::write::GzEncoder;
use flate2::Compression;
use std::io::Write;
use crate::decimal::{decimal, decimal_string, lemma_decimal_digits};
use crate::headers::{
    lemma_put_keeps_others, lemma_put_then_lookup, lookup, put, Field, Headers,
};
use crate::text::{free_of, occurs_at};
use crate::message::{reason_of, Response, ResponseView, Version};

verus! {

/// The gzip encoding of `data` at the default compression level, or `None`
/// where the encoder reports a failure.
pub uninterp spec fn gzip_encoding(data: Seq<u8>) -> Option<Seq<u8>>;

/// The bytes of an optional buffer.
pub open spec fn bytes_view(bytes: Option<Vec<u8>>) -> Option<Seq<u8>> {
    match bytes {
        Some(b) => Some(b@),
        None => None,
    }
}

/// Runs `flate2::write::GzEncoder` over `data`: `GzEncoder::new` on an empty
/// `Vec` with `Compression::default()`, `write_all`, then `finish`. The
/// encoder's header holds no time stamp, no file name and a fixed system
/// byte, so what comes out depends on `data` alone; the contract gives that
/// outcome its name and claims nothing else of it.
#[verifier::external_body]
fn gzip(data: &[u8]) -> (encoded: Option<Vec<u8>>)
    ensures
        bytes_view(encoded) == gzip_encoding(data@),
{
    let mut encoder = GzEncoder::new(Vec::new(), Compression::default());
    encoder.write_all(data).unwrap_or_default();
    encoder.finish().ok()
}

/// The status line, without its line break.
pub open spec fn status_line(version: Version, status_code: u32) -> Seq<char> {
    version.label() + " "@ + decimal(status_code as nat) + " "@ + reason_of(status_code)
}

/// One header field as a line, with its line break.
pub open spec fn header_line(field: Field) -> Seq<char> {
    field.0 + ": "@ + field.1 + "\r\n"@
}

/// The lines of all header fields, in their order.
pub open spec fn header_block(fields: Seq<Field>) -> Seq<char>
    decreases fields.len(),
{
    if fields.len() == 0 {
        Seq::empty()
    } else {
        header_block(fields.drop_last()) + header_line(fields.last())
    }
}

/// All that precedes the body: the status line, the header lines, and the
/// blank line that ends them.
pub open spec fn head_text(version: Version, status_code: u32, fields: Seq<Field>) -> Seq<char> {
    status_line(version, status_code) + "\r\n"@ + header_block(fields) + "\r\n"@
}

/// The plain body as bytes; nothing where there is no body.
pub open spec fn plain_body(r: ResponseView) -> Seq<u8> {
    match r.body {
        Some(b) => encode_utf8(b),
        None => Seq::empty(),
    }
}

/// Whether the body goes out encoded, given what the encoder returned.
pub open spec fn encodes(r: ResponseView, encoded: Option<Seq<u8>>) -> bool {
    r.should_compress && r.body is Some && encoded is Some
}

/// The header fields as they go out: those of the response, and where the
/// body goes out encoded also `Content-Encoding: gzip` and the encoded
/// length as `Content-Length`.
pub open spec fn wire_fields(r: ResponseView, encoded: Option<Seq<u8>>) -> Seq<Field> {
    if encodes(r, encoded) {
        put(
            put(r.headers, "Content-Encoding"@, "gzip"@),
            "Content-Length"@,
            decimal(encoded->0.len()),
        )
    } else {
        r.headers
    }
}

/// The bytes that follow the blank line.
pub open spec fn wire_body(r: ResponseView, encoded: Option<Seq<u8>>) -> Seq<u8> {
    if encodes(r, encoded) {
        encoded->0
    } else {
        plain_body(r)
    }
}

/// The response on the wire, given what the encoder returned for its body.
pub open spec fn wire(r: ResponseView, encoded: Option<Seq<u8>>) -> Seq<u8> {
    encode_utf8(head_text(r.version, r.status_code, wire_fields(r, encoded))) + wire_body(
        r,
        encoded,
    )
}

/// What the encoder returns for the body of `r`; `None` where `r` does not
/// ask for encoding or has no body.
pub open spec fn encoded_body(r: ResponseView) -> Option<Seq<u8>> {
    if r.should_compress && r.body is Some {
        gzip_encoding(encode_utf8(r.body->0))
    } else {
        None
    }
}

/// The response on the wire.
pub open spec fn wire_form(r: ResponseView) -> Seq<u8> {
    wire(r, encoded_body(r))
}

/// Appends the lines of `headers` to `head`.
fn append_header_lines(head: &mut String, headers: &Headers)
    ensures
        final(head)@ == old(head)@ + header_block(headers@),
{
    let mut i: usize = 0;
    assert(head@ =~= old(head)@ + header_block(headers@.take(0)));
    while i < headers.len()
        invariant
            i <= headers@.len(),
            head@ == old(head)@ + header_block(headers@.take(i as int)),
        decreases headers@.len() - i,
    {
        let ghost before = head@;
        head.append(headers.name_at(i));
        head.append(": ");
        head.append(headers.value_at(i));
        head.append("\r\n");
        proof {
            let fields = headers@.take(i + 1);
            assert(fields.drop_last() =~= headers@.take(i as int));
            assert(fields.last() == headers@[i as int]);
            assert(head@ =~= before + header_line(headers@[i as int]));
            assert(head@ =~= old(head)@ + header_block(fields));
        }
        i += 1;
    }
    assert(headers@.take(i as int) =~= headers@);
}

/// The bytes of all that precedes the body.
fn head_bytes(version: Version, status_code: u32, reason: &str, headers: &Headers) -> (out: Vec<u8>)
    requires
        reason@ == reason_of(status_code),
    ensures
        out@ == encode_utf8(head_text(version, status_code, headers@)),
{
    let mut head = String::from_str(version.to_str());
    head.append(" ");
    let code = decimal_string(status_code as u64);
    head.append(code.as_str());
    head.append(" ");
    head.append(reason);
    head.append("\r\n");
    append_header_lines(&mut head, headers);
    head.append("\r\n");
    assert(head@ =~= head_text(version, status_code, headers@));
    head.as_str().as_bytes_vec()
}

impl Response {
    /// Puts the response on the wire, given what the gzip encoder returned
    /// for its body (`None`: it failed, or was not asked). The encoded body
    /// is used only where the response asks for encoding and has a body;
    /// otherwise the body goes out as it is.
    pub fn serialize_with(&self, encoded: Option<Vec<u8>>) -> (out: Vec<u8>)
        ensures
            out@ == wire(self@, bytes_view(encoded)),
    {
        let reason = self.reason_phrase();
        match encoded {
            Some(bytes) if self.should_compress && self.body.is_some() => {
                let mut headers = self.headers.duplicate();
                headers.insert(String::from_str("Content-Encoding"), String::from_str("gzip"));
                headers.insert(
                    String::from_str("Content-Length"),
                    decimal_string(bytes.len() as u64),
                );
                let mut out = head_bytes(self.version, self.status_code, reason, &headers);
                out.extend_from_slice(bytes.as_slice());
                out
            },
            _ => {
                let mut out = head_bytes(self.version, self.status_code, reason, &self.headers);
                match &self.body {
                    Some(body) => {
                        out.extend_from_slice(body.as_str().as_bytes());
                    },
                    None => {},
                }
                assert(out@ =~= wire(self@, bytes_view(encoded)));
                out
            },
        }
    }

    /// Puts the response on the wire: the status line, one line for each
    /// header field, a blank line, then the body. Where the response asks for
    /// encoding and has a body, the body goes out gzip-encoded, with
    /// `Content-Encoding` and `Content-Length` set to match; where the
    /// encoder fails, the response goes out as if it had not asked.
    pub fn to_http_string(&self) -> (out: Vec<u8>)
        ensures
            out@ == wire_form(self@),
    {
        let encoded = match &self.body {
            Some(body) if self.should_compress => gzip(body.as_str().as_bytes()),
            _ => None,
        };
        self.serialize_with(encoded)
    }
}

} // verus!

verus! {

/// The line break that ends a line, twice: the end of the last line before
/// it, and a line with nothing on it.
pub open spec fn blank_line() -> Seq<char> {
    seq!['\r', '\n', '\r', '\n']
}

/// Whether no name and no value among `fields` holds a line feed.
pub open spec fn single_line(fields: Seq<Field>) -> bool {
    forall|i: int|
        0 <= i < fields.len() ==> free_of((#[trigger] fields[i]).0, '\n') && free_of(
            fields[i].1,
            '\n',
        )
}

/// The status line and the header lines, each with its line break.
pub open spec fn head_lines_text(version: Version, status_code: u32, fields: Seq<Field>) -> Seq<
    char,
> {
    status_line(version, status_code) + "\r\n"@ + header_block(fields)
}

/// Whether no two line feeds in `t` stand two apart, as they do where a
/// line with nothing on it follows a line break.
pub open spec fn no_empty_line(t: Seq<char>) -> bool {
    forall|k: int| 0 <= k && k + 2 < t.len() && #[trigger] t[k] == '\n' ==> t[k + 2] != '\n'
}

/// A status line holds no line feed.
pub proof fn lemma_status_line_single(version: Version, status_code: u32)
    ensures
        free_of(status_line(version, status_code), '\n'),
{
    reveal_strlit("HTTP/1.0");
    reveal_strlit("HTTP/1.1");
    reveal_strlit("HTTP/2.0");
    reveal_strlit(" ");
    reveal_strlit("OK");
    reveal_strlit("Created");
    reveal_strlit("Not Found");
    reveal_strlit("Internal Server Error");
    reveal_strlit("Unknown Status");
    let label = version.label();
    let code = decimal(status_code as nat);
    let reason = reason_of(status_code);
    lemma_decimal_digits(status_code as nat);
    assert(free_of(label, '\n'));
    assert(free_of(reason, '\n'));
    let line = status_line(version, status_code);
    assert forall|i: int| 0 <= i < line.len() implies #[trigger] line[i] != '\n' by {
        if i < label.len() {
            assert(line[i] == label[i]);
        } else if i == label.len() {
        } else if i < label.len() + 1 + code.len() {
            assert(line[i] == code[i - label.len() - 1]);
        } else if i == label.len() + 1 + code.len() {
        } else {
            assert(line[i] == reason[i - label.len() - code.len() - 2]);
        }
    }
}

/// The status line and the header lines end with a line break.
pub proof fn lemma_lines_end_with_break(version: Version, status_code: u32, fields: Seq<Field>)
    ensures
        ({
            let t = head_lines_text(version, status_code, fields);
            t.len() >= 2 && t[t.len() - 2] == '\r' && t[t.len() - 1] == '\n'
        }),
{
    reveal_strlit("\r\n");
}

/// All that precedes the body ends with a blank line, whatever the header
/// fields are and however many there are.
pub proof fn lemma_head_ends_with_blank_line(
    version: Version,
    status_code: u32,
    fields: Seq<Field>,
)
    ensures
        ({
            let head = head_text(version, status_code, fields);
            head.len() >= 4 && occurs_at(head, blank_line(), head.len() - 4)
        }),
{
    reveal_strlit("\r\n");
    lemma_lines_end_with_break(version, status_code, fields);
    let head = head_text(version, status_code, fields);
    assert(head.subrange(head.len() - 4, head.len() as int) =~= blank_line());
}

/// Where no header field holds a line feed, no line of the status line and
/// the header lines is empty.
pub proof fn lemma_lines_have_no_empty_line(
    version: Version,
    status_code: u32,
    fields: Seq<Field>,
)
    requires
        single_line(fields),
    ensures
        no_empty_line(head_lines_text(version, status_code, fields)),
    decreases fields.len(),
{
    reveal_strlit("\r\n");
    reveal_strlit(": ");
    let start = status_line(version, status_code);
    let t = head_lines_text(version, status_code, fields);
    if fields.len() == 0 {
        lemma_status_line_single(version, status_code);
        assert forall|k: int| 0 <= k && k + 2 < t.len() && #[trigger] t[k] == '\n' implies t[k
            + 2] != '\n' by {
            assert(t[k] == start[k]);
        }
    } else {
        let before = fields.drop_last();
        assert(single_line(before)) by {
            assert forall|i: int| 0 <= i < before.len() implies free_of(
                (#[trigger] before[i]).0,
                '\n',
            ) && free_of(before[i].1, '\n') by {
                assert(before[i] == fields[i]);
            }
        }
        lemma_lines_have_no_empty_line(version, status_code, before);
        let shorter = head_lines_text(version, status_code, before);
        let field = fields.last();
        let line = header_line(field);
        assert(t =~= shorter + line);
        assert(free_of(field.0, '\n') && free_of(field.1, '\n'));
        assert forall|j: int| 0 <= j < line.len() - 1 implies line[j] != '\n' by {
            if j < field.0.len() {
                assert(line[j] == field.0[j]);
            } else if j < field.0.len() + 2 {
            } else if j < field.0.len() + 2 + field.1.len() {
                assert(line[j] == field.1[j - field.0.len() - 2]);
            } else {
            }
        }
        assert forall|k: int| 0 <= k && k + 2 < t.len() && #[trigger] t[k] == '\n' implies t[k
            + 2] != '\n' by {
            if k + 2 < shorter.len() {
                assert(t[k] == shorter[k]);
                assert(t[k + 2] == shorter[k + 2]);
            } else if k >= shorter.len() {
                assert(t[k] == line[k - shorter.len()]);
            } else {
                assert(t[k + 2] == line[k + 2 - shorter.len()]);
            }
        }
    }
}

/// Where no header field holds a line feed, the blank line that ends all
/// that precedes the body is the only one there.
pub proof fn lemma_head_has_no_other_blank_line(
    version: Version,
    status_code: u32,
    fields: Seq<Field>,
)
    requires
        single_line(fields),
    ensures
        ({
            let head = head_text(version, status_code, fields);
            forall|i: int| 0 <= i < head.len() - 4 ==> !occurs_at(head, blank_line(), i)
        }),
{
    reveal_strlit("\r\n");
    lemma_lines_end_with_break(version, status_code, fields);
    lemma_lines_have_no_empty_line(version, status_code, fields);
    let t = head_lines_text(version, status_code, fields);
    let head = head_text(version, status_code, fields);
    assert(head =~= t + "\r\n"@);
    assert forall|i: int| 0 <= i < head.len() - 4 implies !occurs_at(head, blank_line(), i) by {
        if occurs_at(head, blank_line(), i) {
            let found = head.subrange(i, i + 4);
            assert(found[1] == head[i + 1]);
            assert(found[3] == head[i + 3]);
            assert(head[i + 1] == t[i + 1]);
            if i + 3 < t.len() {
                assert(head[i + 3] == t[i + 3]);
            }
        }
    }
}

/// The bytes of a text made of two are the bytes of the one, then the
/// bytes of the other.
pub proof fn lemma_encode_concat(a: Seq<char>, b: Seq<char>)
    ensures
        encode_utf8(a + b) == encode_utf8(a) + encode_utf8(b),
    decreases a.len(),
{
    if a.len() == 0 {
        assert(a + b =~= b);
        assert(encode_utf8(a) + encode_utf8(b) =~= encode_utf8(b));
    } else {
        lemma_encode_concat(a.drop_first(), b);
        assert((a + b).drop_first() =~= a.drop_first() + b);
        assert(encode_utf8(a + b) =~= encode_utf8(a) + encode_utf8(b));
    }
}

/// On the wire a response is its status line and header lines, then the four
/// bytes of a blank line, then the body: whatever the response holds, and
/// whether or not its body goes out encoded.
pub proof fn lemma_wire_has_blank_line_before_body(r: ResponseView, encoded: Option<Seq<u8>>)
    ensures
        ({
            let head = head_text(r.version, r.status_code, wire_fields(r, encoded));
            &&& head.len() >= 4
            &&& wire(r, encoded) == encode_utf8(head.take(head.len() - 4)) + seq![
                13u8,
                10u8,
                13u8,
                10u8,
            ] + wire_body(r, encoded)
        }),
{
    let fields = wire_fields(r, encoded);
    let head = head_text(r.version, r.status_code, fields);
    lemma_head_ends_with_blank_line(r.version, r.status_code, fields);
    let before = head.take(head.len() - 4);
    assert(head =~= before + blank_line());
    lemma_encode_concat(before, blank_line());
    vstd::utf8::is_ascii_chars_encode_utf8(blank_line());
    assert(encode_utf8(blank_line()) =~= seq![13u8, 10u8, 13u8, 10u8]);
}

/// A response goes out as the same bytes however often it is put on the wire.
pub proof fn lemma_wire_form_repeats(r: ResponseView, first: Seq<u8>, second: Seq<u8>)
    requires
        first == wire_form(r),
        second == wire_form(r),
    ensures
        first == second,
{
}

/// Where the body goes out encoded, the header fields on the wire name the
/// encoding and give the length of the encoded body, whatever length the
/// response itself gave.
pub proof fn lemma_encoded_fields(r: ResponseView, encoded: Option<Seq<u8>>)
    requires
        encodes(r, encoded),
    ensures
        lookup(wire_fields(r, encoded), "Content-Encoding"@) == Some("gzip"@),
        lookup(wire_fields(r, encoded), "Content-Length"@) == Some(decimal(encoded->0.len())),
        wire_body(r, encoded) == encoded->0,
{
    reveal_strlit("Content-Encoding");
    reveal_strlit("Content-Length");
    assert("Content-Encoding"@.len() != "Content-Length"@.len());
    let named = put(r.headers, "Content-Encoding"@, "gzip"@);
    lemma_put_then_lookup(r.headers, "Content-Encoding"@, "gzip"@);
    lemma_put_keeps_others(
        named,
        "Content-Length"@,
        decimal(encoded->0.len()),
        "Content-Encoding"@,
    );
    lemma_put_then_lookup(named, "Content-Length"@, decimal(encoded->0.len()));
}

} // verus!
