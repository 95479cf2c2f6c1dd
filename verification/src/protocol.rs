//! DAP message framing and classification.
//!
//! The Debug Adapter Protocol uses `Content-Length`-framed JSON over a byte
//! stream (identical to LSP). This module provides the framing layer and a
//! handful of classification helpers. Messages flow through the proxy as
//! [`Json`] documents; the mux inspects only the fields it needs.

use vstd::prelude::*;
use vstd::slice::*;
use vstd::string::*;
use vstd::utf8::*;

use crate::json::{
    parse, parsed_json, print, printed_json, survives_printing, text_field, Json, JsonView,
    MAX_NESTING,
};
use crate::text::{
    chars_of, decimal, decimal_string, is_digit, leading_spaces, lemma_decimal_reads_back,
    lemma_unsigned_reading_of_decimal, parse_unsigned, quote, quoted, trim, trimmed,
    unsigned_reading, NumberError,
};

verus! {

/// A DAP message as it flows through the proxy: always a JSON object.
pub type DapMessage = Json;

/// `std::str::Utf8Error`: where a byte sequence stops being UTF-8.
#[verifier::external_type_specification]
#[verifier::external_body]
pub struct ExUtf8Error(std::str::Utf8Error);

/// Why a message could not be read.
#[derive(Debug)]
pub enum ProtocolError {
    /// The header is not UTF-8.
    NonUtf8Header(std::str::Utf8Error),
    /// The declared body length is not a number in range.
    BadContentLength(NumberError),
    /// The header declares no body length; holds the header's text.
    MissingContentLength(String),
    /// The body is not a JSON document.
    InvalidBody(serde_json::Error),
    /// The body is a JSON document, but not an object.
    NotAnObject,
    /// The stream ended before a complete header was received.
    UnexpectedEof,
    /// The stream ended before the declared length of the body was received.
    TruncatedBody,
}

/// The kinds of [`ProtocolError`].
pub enum Fault {
    NonUtf8Header,
    BadContentLength(NumberError),
    MissingContentLength(Seq<char>),
    InvalidBody,
    NotAnObject,
    UnexpectedEof,
    TruncatedBody,
}

/// What kind of trouble an error is.
#[derive(Debug, Clone, Copy, PartialEq, Eq, Structural)]
pub enum ErrorKind {
    /// What was received is no message.
    InvalidData,
    /// The stream ended before a complete message was received.
    UnexpectedEof,
}

impl Fault {
    /// What kind of trouble the fault is.
    pub open spec fn kind(self) -> ErrorKind {
        if self is UnexpectedEof || self is TruncatedBody {
            ErrorKind::UnexpectedEof
        } else {
            ErrorKind::InvalidData
        }
    }

    /// What is said of the fault, given in `detail` what is said of the outside
    /// error that it comes from, or the header it was found in, in quotes.
    pub open spec fn text(self, detail: Seq<char>) -> Seq<char> {
        match self {
            Fault::NonUtf8Header => "non-ASCII header: "@ + detail,
            Fault::BadContentLength(e) => "bad Content-Length: "@ + e.text(),
            Fault::MissingContentLength(_) => "Missing Content-Length in header: "@ + detail,
            Fault::InvalidBody => "invalid DAP body: "@ + detail,
            Fault::NotAnObject => "invalid DAP body: not a JSON object"@,
            Fault::UnexpectedEof => "Connection closed while reading DAP header"@,
            Fault::TruncatedBody => "early eof"@,
        }
    }
}

impl ProtocolError {
    /// What kind of trouble the error is.
    pub fn kind(&self) -> (res: ErrorKind)
        ensures
            res == self@.kind(),
    {
        match self {
            ProtocolError::UnexpectedEof => ErrorKind::UnexpectedEof,
            ProtocolError::TruncatedBody => ErrorKind::UnexpectedEof,
            _ => ErrorKind::InvalidData,
        }
    }

    /// What is said of the error, given in `detail` what is said of the outside
    /// error that it comes from, or the header it was found in, in quotes.
    pub fn message_with(&self, detail: &str) -> (res: String)
        ensures
            res@ == self@.text(detail@),
    {
        let mut res = match self {
            ProtocolError::NonUtf8Header(_) => "non-ASCII header: ".to_owned(),
            ProtocolError::BadContentLength(_) => "bad Content-Length: ".to_owned(),
            ProtocolError::MissingContentLength(_) => {
                "Missing Content-Length in header: ".to_owned()
            },
            ProtocolError::InvalidBody(_) => "invalid DAP body: ".to_owned(),
            ProtocolError::NotAnObject => "invalid DAP body: not a JSON object".to_owned(),
            ProtocolError::UnexpectedEof => {
                "Connection closed while reading DAP header".to_owned()
            },
            ProtocolError::TruncatedBody => "early eof".to_owned(),
        };
        match self {
            ProtocolError::BadContentLength(e) => res.append(e.message()),
            ProtocolError::NotAnObject => {},
            ProtocolError::UnexpectedEof => {},
            ProtocolError::TruncatedBody => {},
            _ => res.append(detail),
        }
        res
    }

    /// What is said of the error, given what is said of the outside error that
    /// it comes from, where there is one.
    pub fn message(&self, outside: &str) -> (res: String)
        ensures
            res@ == self@.text(
                match self@ {
                    Fault::MissingContentLength(header) => quoted(header),
                    _ => outside@,
                },
            ),
    {
        match self {
            ProtocolError::MissingContentLength(header) => {
                let header = quote(header.as_str());
                self.message_with(header.as_str())
            },
            _ => self.message_with(outside),
        }
    }
}

impl View for ProtocolError {
    type V = Fault;

    open spec fn view(&self) -> Fault {
        match *self {
            ProtocolError::NonUtf8Header(_) => Fault::NonUtf8Header,
            ProtocolError::BadContentLength(e) => Fault::BadContentLength(e),
            ProtocolError::MissingContentLength(text) => Fault::MissingContentLength(text@),
            ProtocolError::InvalidBody(_) => Fault::InvalidBody,
            ProtocolError::NotAnObject => Fault::NotAnObject,
            ProtocolError::UnexpectedEof => Fault::UnexpectedEof,
            ProtocolError::TruncatedBody => Fault::TruncatedBody,
        }
    }
}

// ---------------------------------------------------------------------------
// Classification
// ---------------------------------------------------------------------------

/// Whether `message` says that it is a message of kind `kind`.
pub open spec fn has_kind(message: JsonView, kind: Seq<char>) -> bool {
    text_field(message, "type"@) == Some(kind)
}

/// Return whether `message` is a DAP request.
pub fn is_request(message: &DapMessage) -> (res: bool)
    ensures
        res == has_kind(message@, "request"@),
{
    message.has_text("type", "request")
}

/// Return whether `message` is a DAP response.
pub fn is_response(message: &DapMessage) -> (res: bool)
    ensures
        res == has_kind(message@, "response"@),
{
    message.has_text("type", "response")
}

/// Return whether `message` is a DAP event.
pub fn is_event(message: &DapMessage) -> (res: bool)
    ensures
        res == has_kind(message@, "event"@),
{
    message.has_text("type", "event")
}

// ---------------------------------------------------------------------------
// Framing: what a frame is
// ---------------------------------------------------------------------------

/// The text of the header that announces a body of `length` bytes.
pub open spec fn header_text(length: nat) -> Seq<char> {
    "Content-Length: "@ + decimal(length) + "\r\n\r\n"@
}

/// The frame that carries `body`.
pub open spec fn frame(body: Seq<u8>) -> Seq<u8> {
    encode_utf8(header_text(body.len())) + body
}

/// The position of the first line break in `text`, or its length if it has
/// none.
pub open spec fn first_line_break(text: Seq<char>) -> nat
    decreases text.len(),
{
    if text.len() < 2 {
        text.len()
    } else if text[0] == '\r' && text[1] == '\n' {
        0
    } else {
        1 + first_line_break(text.drop_first())
    }
}

/// What follows `Content-Length:` on the first line that starts with it.
pub open spec fn content_length_field(text: Seq<char>) -> Option<Seq<char>>
    decreases text.len(),
{
    let stop = first_line_break(text);
    let line = text.take(stop as int);
    if "Content-Length:"@.is_prefix_of(line) {
        Some(line.skip("Content-Length:"@.len() as int))
    } else if stop + 2 <= text.len() {
        content_length_field(text.skip((stop + 2) as int))
    } else {
        None
    }
}

/// The body length that a header declares.
pub open spec fn header_reading(data: Seq<u8>) -> Result<nat, Fault> {
    if !valid_utf8(data) {
        Err(Fault::NonUtf8Header)
    } else {
        match content_length_field(decode_utf8(data)) {
            None => Err(Fault::MissingContentLength(decode_utf8(data))),
            Some(rest) => match unsigned_reading(trimmed(rest), usize::MAX as nat) {
                Ok(length) => Ok(length),
                Err(e) => Err(Fault::BadContentLength(e)),
            },
        }
    }
}

/// Whether the first `n` bytes of `data` end in an empty line.
pub open spec fn header_stops_at(data: Seq<u8>, n: int) -> bool {
    &&& 4 <= n <= data.len()
    &&& data[n - 4] == 13
    &&& data[n - 3] == 10
    &&& data[n - 2] == 13
    &&& data[n - 1] == 10
}

/// The shortest beginning of `data`, of at least `from` bytes, that ends in an
/// empty line.
pub open spec fn header_end(data: Seq<u8>, from: nat) -> Option<nat>
    decreases data.len() + 1 - from,
{
    if from > data.len() {
        None
    } else if header_stops_at(data, from as int) {
        Some(from)
    } else {
        header_end(data, from + 1)
    }
}

/// How the body of a message reads: it is a JSON object.
pub open spec fn body_reading(data: Seq<u8>) -> Result<JsonView, Fault> {
    match parsed_json(data) {
        None => Err(Fault::InvalidBody),
        Some(message) => if message is Object {
            Ok(message)
        } else {
            Err(Fault::NotAnObject)
        },
    }
}

/// What reading one message off the front of `stream` gives: the message and
/// the number of bytes that it took.
pub open spec fn stream_reading(stream: Seq<u8>) -> Result<(JsonView, nat), Fault> {
    match header_end(stream, 0) {
        None => Err(Fault::UnexpectedEof),
        Some(start) => match header_reading(stream.take(start as int)) {
            Err(fault) => Err(fault),
            Ok(length) => if start + length > stream.len() {
                Err(Fault::TruncatedBody)
            } else {
                match body_reading(stream.subrange(start as int, (start + length) as int)) {
                    Ok(message) => Ok((message, start + length)),
                    Err(fault) => Err(fault),
                }
            },
        },
    }
}

// ---------------------------------------------------------------------------
// Framing: decoding
// ---------------------------------------------------------------------------

/// Calls `std::str::from_utf8`: the text exactly when the bytes are UTF-8, and
/// then the text that they encode. What the error says is left unsaid.
#[verifier::external_body]
fn from_utf8(data: &[u8]) -> (res: Result<&str, std::str::Utf8Error>)
    ensures
        res is Ok <==> valid_utf8(data@),
        res matches Ok(text) ==> text@ == decode_utf8(data@),
{
    std::str::from_utf8(data)
}

/// The position of the first line break at or after `from`.
fn find_line_break(chars: &Vec<char>, from: usize) -> (stop: usize)
    requires
        from <= chars@.len(),
    ensures
        stop == from + first_line_break(chars@.skip(from as int)),
        from <= stop <= chars@.len(),
{
    let mut i: usize = from;
    while i < chars.len()
        invariant
            from <= i <= chars@.len(),
            from + first_line_break(chars@.skip(from as int)) == i + first_line_break(
                chars@.skip(i as int),
            ),
        decreases chars@.len() - i,
    {
        let ghost here = chars@.skip(i as int);
        assert(here[0] == chars@[i as int]);
        if chars.len() - i < 2 {
            return chars.len();
        }
        assert(here[1] == chars@[i + 1]);
        if chars[i] == '\r' && chars[i + 1] == '\n' {
            return i;
        }
        assert(here.drop_first() =~= chars@.skip(i + 1));
        i += 1;
    }
    i
}

/// What follows `Content-Length:` on the first line of `text` that starts with
/// it.
fn find_content_length(text: &str) -> (res: Option<&str>)
    ensures
        res is Some <==> content_length_field(text@) is Some,
        res matches Some(rest) ==> content_length_field(text@) == Some(rest@),
{
    let chars = chars_of(text);
    let label = chars_of("Content-Length:");
    let mut start: usize = 0;
    assert(chars@.skip(0) =~= chars@);
    loop
        invariant
            chars@ == text@,
            label@ == "Content-Length:"@,
            start <= chars@.len(),
            content_length_field(chars@) == content_length_field(chars@.skip(start as int)),
        decreases chars@.len() - start,
    {
        let stop = find_line_break(&chars, start);
        let ghost here = chars@.skip(start as int);
        let ghost line = here.take(first_line_break(here) as int);
        assert(line =~= chars@.subrange(start as int, stop as int));
        let mut matched: usize = 0;
        while matched < label.len() && start + matched < stop && chars[start + matched]
            == label[matched]
            invariant
                start <= stop <= chars.len(),
                matched <= label@.len(),
                start + matched <= stop,
                line == chars@.subrange(start as int, stop as int),
                forall|k: int| 0 <= k < matched ==> line[k] == #[trigger] label@[k],
            decreases label@.len() - matched,
        {
            assert(line[matched as int] == chars@[start + matched]);
            matched += 1;
        }
        if matched == label.len() {
            assert(label@ =~= line.subrange(0, label@.len() as int));
            assert(line.skip(label@.len() as int) =~= chars@.subrange(
                start + matched,
                stop as int,
            ));
            return Some(text.substring_char(start + matched, stop));
        }
        assert(!label@.is_prefix_of(line)) by {
            if label@.is_prefix_of(line) {
                assert(label@[matched as int] == line.subrange(0, label@.len() as int)[matched as int]);
                assert(line[matched as int] == chars@[start + matched]);
            }
        }
        if chars.len() - stop < 2 {
            return None;
        }
        assert(here.skip((first_line_break(here) + 2) as int) =~= chars@.skip(stop + 2));
        start = stop + 2;
    }
}

/// Parse a `Content-Length` header and return the declared body length.
pub fn decode_header(data: &[u8]) -> (res: Result<usize, ProtocolError>)
    ensures
        res is Ok <==> header_reading(data@) is Ok,
        res matches Ok(length) ==> header_reading(data@) == Ok::<nat, Fault>(length as nat),
        res matches Err(e) ==> header_reading(data@) == Err::<nat, Fault>(e@),
{
    let text = match from_utf8(data) {
        Ok(text) => text,
        Err(e) => return Err(ProtocolError::NonUtf8Header(e)),
    };
    match find_content_length(text) {
        Some(rest) => match parse_unsigned(trim(rest), usize::MAX as u64) {
            Ok(length) => Ok(length as usize),
            Err(e) => Err(ProtocolError::BadContentLength(e)),
        },
        None => Err(ProtocolError::MissingContentLength(text.to_owned())),
    }
}

/// Deserialize a JSON body into a DAP message.
pub fn decode_body(data: &[u8]) -> (res: Result<DapMessage, ProtocolError>)
    ensures
        res is Ok <==> (parsed_json(data@) matches Some(message) && message is Object),
        res matches Ok(message) ==> parsed_json(data@) == Some(message@) && message@ is Object,
        res matches Err(e) ==> e@ == (if parsed_json(data@) is None {
            Fault::InvalidBody
        } else {
            Fault::NotAnObject
        }),
{
    match parse(data) {
        Ok(message) => match message {
            Json::Object(_) => Ok(message),
            _ => Err(ProtocolError::NotAnObject),
        },
        Err(e) => Err(ProtocolError::InvalidBody(e)),
    }
}

/// The bytes of a header received so far.
pub struct HeaderBuffer {
    bytes: Vec<u8>,
}

impl View for HeaderBuffer {
    type V = Seq<u8>;

    closed spec fn view(&self) -> Seq<u8> {
        self.bytes@
    }
}

impl HeaderBuffer {
    /// Nothing received yet.
    pub fn new() -> (res: HeaderBuffer)
        ensures
            res@ == Seq::<u8>::empty(),
    {
        HeaderBuffer { bytes: Vec::new() }
    }

    /// Take in the next byte. Returns whether the header is now complete: it
    /// ends in an empty line.
    pub fn push(&mut self, byte: u8) -> (complete: bool)
        ensures
            final(self)@ == old(self)@.push(byte),
            complete == header_stops_at(final(self)@, final(self)@.len() as int),
    {
        self.bytes.push(byte);
        let n: usize = self.bytes.len();
        n >= 4 && self.bytes[n - 4] == 13 && self.bytes[n - 3] == 10 && self.bytes[n - 2] == 13
            && self.bytes[n - 1] == 10
    }

    /// The body length that the header declares.
    pub fn content_length(&self) -> (res: Result<usize, ProtocolError>)
        ensures
            res is Ok <==> header_reading(self@) is Ok,
            res matches Ok(length) ==> header_reading(self@) == Ok::<nat, Fault>(length as nat),
            res matches Err(e) ==> header_reading(self@) == Err::<nat, Fault>(e@),
    {
        decode_header(self.bytes.as_slice())
    }
}

/// Read one `Content-Length`-framed DAP message off the front of `stream`,
/// together with the number of bytes that it took.
///
/// Returns an error of the kind [`ErrorKind::UnexpectedEof`] when the stream
/// ends before a complete message is received: [`ProtocolError::UnexpectedEof`]
/// where it ends in the header, [`ProtocolError::TruncatedBody`] where it ends
/// in the body.
pub fn read_message(stream: &[u8]) -> (res: Result<(DapMessage, usize), ProtocolError>)
    ensures
        res is Ok <==> stream_reading(stream@) is Ok,
        res matches Ok((message, used)) ==> stream_reading(stream@) == Ok::<(JsonView, nat), Fault>(
            (message@, used as nat),
        ),
        res matches Err(e) ==> stream_reading(stream@) == Err::<(JsonView, nat), Fault>(e@),
{
    let mut header = HeaderBuffer::new();
    let mut start: usize = 0;
    let mut complete = false;
    assert(stream@.take(0) =~= Seq::empty());
    while !complete
        invariant
            start <= stream@.len(),
            header@ == stream@.take(start as int),
            complete == header_stops_at(stream@, start as int),
            header_end(stream@, 0) == header_end(stream@, start as nat),
        decreases stream@.len() - start + (if complete { 0int } else { 1int }),
    {
        if start == stream.len() {
            assert(header_end(stream@, (start + 1) as nat) is None);
            return Err(ProtocolError::UnexpectedEof);
        }
        complete = header.push(stream[start]);
        assert(stream@.take(start as int).push(stream@[start as int]) =~= stream@.take(start + 1));
        start += 1;
    }
    match header.content_length() {
        Err(e) => Err(e),
        Ok(length) => {
            if length > stream.len() - start {
                return Err(ProtocolError::TruncatedBody);
            }
            match decode_body(slice_subrange(stream, start, start + length)) {
                Ok(message) => Ok((message, start + length)),
                Err(e) => Err(e),
            }
        },
    }
}

// ---------------------------------------------------------------------------
// Framing: encoding
// ---------------------------------------------------------------------------

/// A line break is where the first carriage return is, if a line feed follows.
proof fn lemma_first_line_break(text: Seq<char>, at: nat)
    requires
        at + 2 <= text.len(),
        forall|i: int| 0 <= i < at ==> #[trigger] text[i] != '\r',
        text[at as int] == '\r',
        text[at as int + 1] == '\n',
    ensures
        first_line_break(text) == at,
    decreases at,
{
    if at > 0 {
        let rest = text.drop_first();
        assert forall|i: int| 0 <= i < at - 1 implies #[trigger] rest[i] != '\r' by {
            assert(rest[i] == text[i + 1]);
        }
        assert(text[0] != '\r');
        lemma_first_line_break(rest, (at - 1) as nat);
    }
}

/// A header ends at the first position where it can.
proof fn lemma_header_end(data: Seq<u8>, from: nat, end: nat)
    requires
        from <= end,
        header_stops_at(data, end as int),
        forall|n: int| from <= n < end ==> !#[trigger] header_stops_at(data, n),
    ensures
        header_end(data, from) == Some(end),
    decreases end - from,
{
    if from < end {
        assert(!header_stops_at(data, from as int));
        lemma_header_end(data, from + 1, end);
    }
}

/// What a header's text consists of: the label, the digits, and an empty line.
proof fn lemma_header_text(length: nat)
    ensures
        ({
            let text = header_text(length);
            let digits = decimal(length);
            &&& is_ascii_chars(text)
            &&& text.len() == 20 + digits.len()
            &&& forall|i: int| 0 <= i < 16 + digits.len() ==> #[trigger] text[i] != '\r'
            &&& text.skip(16 + digits.len() as int) == seq!['\r', '\n', '\r', '\n']
            &&& "Content-Length:"@.is_prefix_of(text)
            &&& "Content-Length:"@.len() == 15
            &&& text.subrange(15, 16 + digits.len() as int) == seq![' '] + digits
        }),
{
    reveal_strlit("Content-Length: ");
    reveal_strlit("Content-Length:");
    reveal_strlit("\r\n\r\n");
    lemma_decimal_reads_back(length);
    let text = header_text(length);
    let digits = decimal(length);
    let label = "Content-Length: "@;
    assert forall|i: int| 0 <= i < 16 + digits.len() implies {
        &&& #[trigger] text[i] != '\r'
        &&& '\0' <= text[i] <= '\u{7f}'
    } by {
        if i < 16 {
            assert(text[i] == label[i]);
        } else {
            assert(text[i] == digits[i - 16]);
        }
    }
    assert(text.skip(16 + digits.len() as int) =~= seq!['\r', '\n', '\r', '\n']);
    assert forall|i: int| 0 <= i < text.len() implies '\0' <= #[trigger] text[i] <= '\u{7f}' by {
        if i >= 16 + digits.len() {
            assert(text[i] == text.skip(16 + digits.len() as int)[i - 16 - digits.len()]);
        }
    }
    assert(text.subrange(0, 15) =~= "Content-Length:"@);
    assert(text.subrange(15, 16 + digits.len() as int) =~= seq![' '] + digits);
}

/// A header declares the length that it was made for.
proof fn lemma_header_reads_back(length: nat)
    requires
        length <= usize::MAX,
    ensures
        header_reading(encode_utf8(header_text(length))) == Ok::<nat, Fault>(length),
{
    let text = header_text(length);
    let digits = decimal(length);
    let stop = 16 + digits.len();
    lemma_header_text(length);
    lemma_decimal_reads_back(length);
    encode_utf8_valid_utf8(text);
    encode_utf8_decode_utf8(text);
    assert(text[stop as int] == text.skip(stop as int)[0]);
    assert(text[stop as int + 1] == text.skip(stop as int)[1]);
    lemma_first_line_break(text, stop);
    let line = text.take(stop as int);
    assert(line.subrange(0, 15) =~= text.subrange(0, 15));
    let rest = seq![' '] + digits;
    assert(line.skip(15) =~= text.subrange(15, stop as int));
    assert(content_length_field(text) == Some(rest));
    assert(rest.drop_first() =~= digits);
    assert(is_digit(digits[0]));
    assert(leading_spaces(digits) == 0);
    assert(leading_spaces(rest) == 1);
    assert(rest.skip(1) =~= digits);
    assert(is_digit(digits.last()));
    assert(trimmed(rest) == digits);
    lemma_unsigned_reading_of_decimal(length, usize::MAX as nat);
}

/// Reading the frame that carries `body`, whatever follows it on the stream,
/// gives the object that `body` parses to, takes the frame and nothing else; a
/// body that is no object is reported as such.
pub proof fn lemma_frame_reads_back(body: Seq<u8>, rest: Seq<u8>)
    requires
        body.len() <= usize::MAX,
    ensures
        stream_reading(frame(body) + rest) == match body_reading(body) {
            Ok(message) => Ok::<(JsonView, nat), Fault>((message, frame(body).len())),
            Err(fault) => Err::<(JsonView, nat), Fault>(fault),
        },
{
    let text = header_text(body.len());
    let header = encode_utf8(text);
    let stream = frame(body) + rest;
    lemma_header_text(body.len());
    lemma_header_reads_back(body.len());
    is_ascii_chars_encode_utf8(text);
    let end = text.len();
    assert forall|i: int| 0 <= i < end implies #[trigger] stream[i] == text[i] as u8 by {
        assert(stream[i] == header[i]);
    }
    let tail = text.skip(end - 4);
    assert(tail[0] == text[end - 4] && tail[1] == text[end - 3]);
    assert(tail[2] == text[end - 2] && tail[3] == text[end - 1]);
    assert(header_stops_at(stream, end as int));
    assert forall|n: int| 0 <= n < end implies !#[trigger] header_stops_at(stream, n) by {
        if n >= 4 {
            assert(text[n - 4] != '\r');
            assert(stream[n - 4] == text[n - 4] as u8);
        }
    }
    lemma_header_end(stream, 0, end);
    assert(stream.take(end as int) =~= header);
    assert(stream.subrange(end as int, (end + body.len()) as int) =~= body);
}

/// A stream that ends before a frame is complete is an unexpected end, wherever
/// it ends, and it is known whether it ended in the header or in the body.
pub proof fn lemma_truncated_frame_is_unexpected_end(body: Seq<u8>, n: int)
    requires
        body.len() <= usize::MAX,
        0 <= n < frame(body).len(),
    ensures
        ({
            let fault = if n < encode_utf8(header_text(body.len())).len() {
                Fault::UnexpectedEof
            } else {
                Fault::TruncatedBody
            };
            &&& stream_reading(frame(body).take(n)) == Err::<(JsonView, nat), Fault>(fault)
            &&& fault.kind() == ErrorKind::UnexpectedEof
        }),
{
    let text = header_text(body.len());
    let header = encode_utf8(text);
    let stream = frame(body).take(n);
    lemma_header_text(body.len());
    lemma_header_reads_back(body.len());
    is_ascii_chars_encode_utf8(text);
    let end = text.len();
    assert forall|i: int| 0 <= i < end && i < n implies #[trigger] stream[i] == text[i] as u8 by {
        assert(stream[i] == header[i]);
    }
    assert forall|k: int| 0 <= k < end && k <= n implies !#[trigger] header_stops_at(stream, k) by {
        if k >= 4 {
            assert(text[k - 4] != '\r');
            assert(stream[k - 4] == text[k - 4] as u8);
        }
    }
    if n < end {
        lemma_no_header_end(stream, 0);
    } else {
        let tail = text.skip(end - 4);
        assert(tail[0] == text[end - 4] && tail[1] == text[end - 3]);
        assert(tail[2] == text[end - 2] && tail[3] == text[end - 1]);
        assert(header_stops_at(stream, end as int));
        lemma_header_end(stream, 0, end);
        assert(stream.take(end as int) =~= header);
    }
}

/// A header that stops nowhere has no end.
proof fn lemma_no_header_end(data: Seq<u8>, from: nat)
    requires
        forall|n: int| from <= n <= data.len() ==> !#[trigger] header_stops_at(data, n),
    ensures
        header_end(data, from) is None,
    decreases data.len() + 1 - from,
{
    if from <= data.len() {
        assert(!header_stops_at(data, from as int));
        lemma_no_header_end(data, from + 1);
    }
}

/// Serialize a DAP message to `Content-Length`-framed bytes.
///
/// Whatever follows them on a stream, [`read_message`] gives the message back
/// and takes exactly those bytes.
pub fn encode_message(message: &DapMessage) -> (data: Vec<u8>)
    ensures
        data@ == frame(printed_json(message@)),
        message@ is Object && survives_printing(message@, MAX_NESTING as nat) ==> forall|
            rest: Seq<u8>,
        | #[trigger]
            stream_reading(data@ + rest) == Ok::<(JsonView, nat), Fault>((message@, data@.len())),
{
    let body = print(message);
    let mut header = "Content-Length: ".to_owned();
    header.append(decimal_string(body.len() as u64).as_str());
    header.append("\r\n\r\n");
    let mut data: Vec<u8> = Vec::new();
    data.extend_from_slice(header.as_str().as_bytes());
    data.extend_from_slice(body.as_slice());
    assert(data@ =~= frame(body@));
    proof {
        if message@ is Object && survives_printing(message@, MAX_NESTING as nat) {
            assert forall|rest: Seq<u8>|
                #[trigger] stream_reading(data@ + rest) == Ok::<(JsonView, nat), Fault>(
                    (message@, data@.len()),
                ) by {
                lemma_frame_reads_back(body@, rest);
            }
        }
    }
    data
}

// ---------------------------------------------------------------------------
// Laws
// ---------------------------------------------------------------------------

/// The kind of a message is the text in its member `type`, and nothing else.
pub proof fn lemma_kind_is_the_type(members: Map<Seq<char>, JsonView>, kind: Seq<char>)
    ensures
        has_kind(JsonView::Object(members), kind) <==> members.contains_key("type"@)
            && members["type"@] == JsonView::String(kind),
        forall|message: JsonView| !(message is Object) ==> !#[trigger] has_kind(message, kind),
{
}

/// Whether the first `n` bytes of `data` end in two line breaks.
pub open spec fn ends_in_blank_line(data: Seq<u8>, n: int) -> bool {
    4 <= n <= data.len() && data.subrange(n - 4, n) == seq![13u8, 10u8, 13u8, 10u8]
}

/// The two ways to say that a header ends are one.
proof fn lemma_blank_line(data: Seq<u8>, n: int)
    ensures
        ends_in_blank_line(data, n) == header_stops_at(data, n),
{
    if 4 <= n <= data.len() {
        let tail = data.subrange(n - 4, n);
        assert(tail[0] == data[n - 4] && tail[1] == data[n - 3]);
        assert(tail[2] == data[n - 2] && tail[3] == data[n - 1]);
        if header_stops_at(data, n) {
            assert(tail =~= seq![13u8, 10u8, 13u8, 10u8]);
        }
    }
}

proof fn lemma_header_end_is_first(data: Seq<u8>, from: nat)
    ensures
        header_end(data, from) matches Some(n) ==> {
            &&& from <= n
            &&& header_stops_at(data, n as int)
            &&& forall|k: int| from <= k < n ==> !#[trigger] header_stops_at(data, k)
        },
        header_end(data, from) is None ==> forall|k: int|
            from <= k ==> !#[trigger] header_stops_at(data, k),
    decreases data.len() + 1 - from,
{
    if from <= data.len() && !header_stops_at(data, from as int) {
        lemma_header_end_is_first(data, from + 1);
    }
}

/// A header ends with the first empty line: at the first position that ends in
/// two line breaks, and only where there is one.
pub proof fn lemma_header_ends_with_the_first_blank_line(data: Seq<u8>, n: nat)
    ensures
        header_end(data, 0) == Some(n) <==> ends_in_blank_line(data, n as int) && forall|k: int|
            0 <= k < n ==> !#[trigger] ends_in_blank_line(data, k),
        header_end(data, 0) is None <==> forall|k: int| !#[trigger] ends_in_blank_line(data, k),
        header_stops_at(data, n as int) == ends_in_blank_line(data, n as int),
{
    lemma_header_end_is_first(data, 0);
    assert forall|k: int| #[trigger] ends_in_blank_line(data, k) == header_stops_at(data, k) by {
        lemma_blank_line(data, k);
    }
    if let Some(end) = header_end(data, 0) {
        assert(ends_in_blank_line(data, end as int));
        if ends_in_blank_line(data, n as int) && n != end {
            if n < end {
                assert(!header_stops_at(data, n as int));
            } else {
                assert(ends_in_blank_line(data, end as int));
            }
        }
    } else {
        assert forall|k: int| !#[trigger] ends_in_blank_line(data, k) by {
            if k >= 0 {
                assert(!header_stops_at(data, k));
            }
        }
    }
}

/// Whether a line break stands at `at`.
pub open spec fn breaks_at(text: Seq<char>, at: int) -> bool {
    0 <= at && at + 2 <= text.len() && text[at] == '\r' && text[at + 1] == '\n'
}

/// Whether no line break stands anywhere in `text`.
pub open spec fn is_one_line(text: Seq<char>) -> bool {
    forall|at: int| !#[trigger] breaks_at(text, at)
}

/// The first line break is where the first one stands, and past the end where
/// none does.
pub proof fn lemma_first_line_break_is_first(text: Seq<char>)
    ensures
        first_line_break(text) <= text.len(),
        first_line_break(text) < text.len() ==> breaks_at(text, first_line_break(text) as int),
        forall|at: int|
            0 <= at < first_line_break(text) ==> !#[trigger] breaks_at(text, at),
    decreases text.len(),
{
    if text.len() >= 2 && !breaks_at(text, 0) {
        let rest = text.drop_first();
        lemma_first_line_break_is_first(rest);
        let stop = first_line_break(rest) as int;
        if stop < rest.len() {
            assert(breaks_at(rest, stop));
            assert(rest[stop] == text[stop + 1] && rest[stop + 1] == text[stop + 2]);
        }
        assert forall|at: int| 0 <= at < first_line_break(text) implies !#[trigger] breaks_at(
            text,
            at,
        ) by {
            if at > 0 {
                assert(!breaks_at(rest, at - 1));
                if at + 2 <= text.len() {
                    assert(rest[at - 1] == text[at] && rest[at] == text[at + 1]);
                }
            }
        }
    }
}

/// The length of a header's body is declared on the first line that starts with
/// `Content-Length:`, whatever lines stand before it and whatever follows; a
/// line that does not start so declares nothing.
pub proof fn lemma_length_is_declared_on_a_line(line: Seq<char>, rest: Seq<char>)
    requires
        is_one_line(line),
    ensures
        ({
            let label = "Content-Length:"@;
            let declares = line.len() >= 15 && line.take(15) == label;
            let more = line + seq!['\r', '\n'] + rest;
            &&& label.len() == 15
            &&& declares ==> content_length_field(more) == Some(line.skip(15))
            &&& declares ==> content_length_field(line) == Some(line.skip(15))
            &&& !declares ==> content_length_field(more) == content_length_field(rest)
            &&& !declares ==> content_length_field(line) is None
        }),
{
    let label = "Content-Length:"@;
    let more = line + seq!['\r', '\n'] + rest;
    let end = line.len() as int;
    reveal_strlit("Content-Length:");
    assert(label.len() == 15);
    assert(label.is_prefix_of(line) <==> line.len() >= 15 && line.take(15) == label) by {
        if line.len() >= 15 {
            assert(line.take(15) =~= line.subrange(0, 15));
        }
    }
    lemma_first_line_break_is_first(more);
    let stop = first_line_break(more) as int;
    assert(more[end] == '\r' && more[end + 1] == '\n');
    assert(breaks_at(more, end));
    if stop < end {
        assert(more[stop] == line[stop]);
        if stop + 1 < end {
            assert(more[stop + 1] == line[stop + 1]);
            assert(breaks_at(line, stop));
        }
    }
    assert(stop == end);
    assert(more.take(stop) =~= line);
    assert(more.skip(stop + 2) =~= rest);
    lemma_first_line_break_is_first(line);
    if first_line_break(line) < line.len() {
        assert(breaks_at(line, first_line_break(line) as int));
    }
    assert(line.take(line.len() as int) =~= line);
}

/// What a header declares: its bytes must be UTF-8, one of its lines must
/// declare a length, and that must be a number that fits; each is reported by
/// itself. White space around the number does not matter.
pub proof fn lemma_headers_read(data: Seq<u8>, text: Seq<char>, declared: Seq<char>)
    ensures
        !valid_utf8(data) ==> header_reading(data) == Err::<nat, Fault>(Fault::NonUtf8Header),
        content_length_field(text) is None ==> header_reading(encode_utf8(text)) == Err::<
            nat,
            Fault,
        >(Fault::MissingContentLength(text)),
        content_length_field(text) == Some(declared) ==> header_reading(encode_utf8(text)) == (
        match unsigned_reading(trimmed(declared), usize::MAX as nat) {
            Ok(length) => Ok::<nat, Fault>(length),
            Err(e) => Err::<nat, Fault>(Fault::BadContentLength(e)),
        }),
{
    encode_utf8_valid_utf8(text);
    encode_utf8_decode_utf8(text);
}

/// The number in a header is read whatever other lines stand around it.
pub proof fn lemma_header_lines_in_any_order(other: Seq<char>, length: nat, rest: Seq<char>)
    requires
        is_one_line(other),
        !(other.len() >= 15 && other.take(15) == "Content-Length:"@),
        length <= usize::MAX,
    ensures
        header_reading(
            encode_utf8(
                other + seq!['\r', '\n'] + ("Content-Length: "@ + decimal(length) + seq!['\r', '\n']
                    + rest),
            ),
        ) == Ok::<nat, Fault>(length),
{
    let digits = decimal(length);
    let line = "Content-Length: "@ + digits;
    let after = line + seq!['\r', '\n'] + rest;
    let text = other + seq!['\r', '\n'] + after;
    reveal_strlit("Content-Length: ");
    reveal_strlit("Content-Length:");
    assert("Content-Length: "@.len() == 16);
    lemma_decimal_reads_back(length);
    assert forall|i: int| 0 <= i < line.len() implies #[trigger] line[i] != '\r' by {
        if i < 16 {
            assert(line[i] == "Content-Length: "@[i]);
        } else {
            assert(is_digit(digits[i - 16]));
        }
    }
    assert forall|at: int| !#[trigger] breaks_at(line, at) by {
        if 0 <= at < line.len() {
            assert(line[at] != '\r');
        }
    }
    lemma_length_is_declared_on_a_line(other, after);
    lemma_length_is_declared_on_a_line(line, rest);
    assert(line.take(15) =~= "Content-Length:"@);
    let declared = seq![' '] + digits;
    assert(line.skip(15) =~= declared);
    lemma_headers_read(Seq::empty(), text, declared);
    assert(declared.drop_first() =~= digits);
    assert(is_digit(digits[0]));
    assert(leading_spaces(digits) == 0);
    assert(leading_spaces(declared) == 1);
    assert(declared.skip(1) =~= digits);
    assert(is_digit(digits.last()));
    assert(trimmed(declared) == digits);
    lemma_unsigned_reading_of_decimal(length, usize::MAX as nat);
}

/// A body is a message exactly if it is a JSON object; what is no JSON document,
/// and what is one but no object, are told apart.
pub proof fn lemma_bodies_read(data: Seq<u8>)
    ensures
        parsed_json(data) is None ==> body_reading(data) == Err::<JsonView, Fault>(
            Fault::InvalidBody,
        ),
        parsed_json(data) matches Some(document) ==> body_reading(data) == (
        if document is Object {
            Ok::<JsonView, Fault>(document)
        } else {
            Err::<JsonView, Fault>(Fault::NotAnObject)
        }),
{
}

/// A message on a stream is its header and as many bytes as that declares; what
/// follows is not touched. A stream without a complete header, or with fewer
/// bytes than declared, has ended too early, and a fault of the header or of the
/// body is reported as it is.
pub proof fn lemma_streams_read(
    header: Seq<u8>,
    body: Seq<u8>,
    rest: Seq<u8>,
    length: nat,
    fault: Fault,
)
    requires
        header_end(header, 0) == Some(header.len()),
    ensures
        header_reading(header) == Ok::<nat, Fault>(body.len()) ==> stream_reading(
            header + body + rest,
        ) == (match body_reading(body) {
            Ok(message) => Ok::<(JsonView, nat), Fault>((message, header.len() + body.len())),
            Err(fault) => Err::<(JsonView, nat), Fault>(fault),
        }),
        header_reading(header) == Ok::<nat, Fault>(length) && length > body.len()
            ==> stream_reading(header + body) == Err::<(JsonView, nat), Fault>(
            Fault::TruncatedBody,
        ),
        header_reading(header) == Err::<nat, Fault>(fault) ==> stream_reading(header + rest)
            == Err::<(JsonView, nat), Fault>(fault),
        header_end(rest, 0) is None ==> stream_reading(rest) == Err::<(JsonView, nat), Fault>(
            Fault::UnexpectedEof,
        ),
{
    lemma_header_extends(header, body + rest);
    lemma_header_extends(header, body);
    lemma_header_extends(header, rest);
    let end = header.len() as int;
    let whole = header + body + rest;
    assert(whole =~= header + (body + rest));
    assert(whole.take(end) =~= header);
    assert((header + body).take(end) =~= header);
    assert((header + rest).take(end) =~= header);
    assert(whole.subrange(end, end + body.len()) =~= body);
}

/// What follows a header does not change where it ends.
proof fn lemma_header_extends(header: Seq<u8>, rest: Seq<u8>)
    requires
        header_end(header, 0) == Some(header.len()),
    ensures
        header_end(header + rest, 0) == Some(header.len()),
{
    let data = header + rest;
    lemma_header_end_is_first(header, 0);
    assert forall|n: int| 0 <= n <= header.len() implies #[trigger] header_stops_at(data, n)
        == header_stops_at(header, n) by {
        if 4 <= n {
            assert(data[n - 4] == header[n - 4] && data[n - 3] == header[n - 3]);
            assert(data[n - 2] == header[n - 2] && data[n - 1] == header[n - 1]);
        }
    }
    assert forall|n: int| 0 <= n < header.len() implies !#[trigger] header_stops_at(data, n) by {
        assert(!header_stops_at(header, n));
    }
    lemma_header_end(data, 0, header.len());
}

/// A frame is the length of its body in a header, an empty line, and the body.
pub proof fn lemma_frames(body: Seq<u8>)
    ensures
        frame(body) == encode_utf8(
            "Content-Length: "@ + decimal(body.len()) + "\r\n\r\n"@,
        ) + body,
{
}

/// What is said of each fault, and which of them say that a stream ended early.
pub proof fn lemma_faults_are_said(e: NumberError, header: Seq<char>, detail: Seq<char>)
    ensures
        Fault::NonUtf8Header.text(detail) == "non-ASCII header: "@ + detail,
        Fault::BadContentLength(e).text(detail) == "bad Content-Length: "@ + (match e {
            NumberError::Empty => "cannot parse integer from empty string"@,
            NumberError::InvalidDigit => "invalid digit found in string"@,
            NumberError::TooLarge => "number too large to fit in target type"@,
        }),
        Fault::MissingContentLength(header).text(detail) == "Missing Content-Length in header: "@
            + detail,
        Fault::InvalidBody.text(detail) == "invalid DAP body: "@ + detail,
        Fault::NotAnObject.text(detail) == "invalid DAP body: not a JSON object"@,
        Fault::UnexpectedEof.text(detail) == "Connection closed while reading DAP header"@,
        Fault::TruncatedBody.text(detail) == "early eof"@,
        Fault::UnexpectedEof.kind() == ErrorKind::UnexpectedEof,
        Fault::TruncatedBody.kind() == ErrorKind::UnexpectedEof,
        Fault::NonUtf8Header.kind() == ErrorKind::InvalidData,
        Fault::BadContentLength(e).kind() == ErrorKind::InvalidData,
        Fault::MissingContentLength(header).kind() == ErrorKind::InvalidData,
        Fault::InvalidBody.kind() == ErrorKind::InvalidData,
        Fault::NotAnObject.kind() == ErrorKind::InvalidData,
{
}

} // verus!
