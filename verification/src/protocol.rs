//! The protocol between clients and the daemon: one JSON value per line.
use vstd::prelude::*;
use vstd::utf8::encode_utf8;

use crate::bytes::{has_number, part, until};
use crate::error::{error_response, failure, CalendarError, ErrorView, Result};
use crate::flow::{is_uuid, random_id, Notice, NoticeView};
use crate::json::{compact_text, json_of_bytes, reads_back, Json, JsonObject, JsonView};
use crate::text::text_eq;
use crate::MAX_MESSAGE_BYTES;

verus! {

broadcast use crate::json::group_json;

/// What was read of a stream.
#[derive(Debug, PartialEq, Eq)]
pub enum LineRead {
    /// It has ended.
    Eof,
    /// A line, without its end.
    Line { bytes: Vec<u8> },
    /// A line that is too long.
    TooLarge,
}

/// What was read of a stream.
pub enum LineView {
    Eof,
    Line { bytes: Seq<u8> },
    TooLarge,
}

impl View for LineRead {
    type V = LineView;

    open spec fn view(&self) -> LineView {
        match self {
            LineRead::Eof => LineView::Eof,
            LineRead::Line { bytes } => LineView::Line { bytes: bytes@ },
            LineRead::TooLarge => LineView::TooLarge,
        }
    }
}

/// A line without its end: a line feed, and a carriage return before it.
pub open spec fn without_end(raw: Seq<u8>) -> Seq<u8> {
    let line = if raw.len() > 0 && raw.last() == 10 {
        raw.drop_last()
    } else {
        raw
    };
    if line.len() > 0 && line.last() == 13 {
        line.drop_last()
    } else {
        line
    }
}

/// A line that ends with a line feed, as it is read.
pub open spec fn ended_line(raw: Seq<u8>) -> LineView {
    if raw.len() > MAX_MESSAGE_BYTES {
        LineView::TooLarge
    } else {
        LineView::Line { bytes: without_end(raw) }
    }
}

/// What is left at the end of a stream, as it is read.
pub open spec fn last_line(raw: Seq<u8>) -> LineView {
    if raw.len() == 0 {
        LineView::Eof
    } else if raw.len() > MAX_MESSAGE_BYTES {
        LineView::TooLarge
    } else {
        LineView::Line { bytes: raw }
    }
}

/// The first line of a stream, and what follows it.
pub open spec fn next_line(stream: Seq<u8>) -> (LineView, Seq<u8>) {
    let n = until(stream, 10);
    if n < stream.len() {
        (ended_line(stream.take(n as int + 1)), stream.skip(n as int + 1))
    } else {
        (last_line(stream), Seq::empty())
    }
}

/// The start of a line, as far as it was read. One that is too long is not kept.
#[derive(Debug)]
pub struct LineReader {
    line: Vec<u8>,
    too_large: bool,
}

impl LineReader {
    /// Whether exactly these bytes were read of the line.
    pub closed spec fn has_read(&self, seen: Seq<u8>) -> bool {
        if self.too_large {
            seen.len() > MAX_MESSAGE_BYTES && self.line@.len() == 0
        } else {
            self.line@ == seen && seen.len() <= MAX_MESSAGE_BYTES + 1
        }
    }

    /// At the start of a line.
    pub fn new() -> (reader: LineReader)
        ensures
            reader.has_read(Seq::empty()),
    {
        LineReader { line: Vec::new(), too_large: false }
    }

    /// Takes in more of the stream, up to the end of the line at most. Gives back how much was
    /// taken, and the line where it is complete.
    pub fn feed(&mut self, chunk: &[u8]) -> (result: (usize, Option<LineRead>))
        ensures
            ({
                let n = until(chunk@, 10);
                &&& n < chunk@.len() ==> {
                    &&& result.0 == n + 1
                    &&& result.1 is Some
                    &&& final(self).has_read(Seq::empty())
                    &&& forall|seen: Seq<u8>| #[trigger]
                        old(self).has_read(seen) ==> result.1->0@ == ended_line(
                            seen + chunk@.take(n as int + 1),
                        )
                }
                &&& n == chunk@.len() ==> {
                    &&& result.0 == n
                    &&& result.1 is None
                    &&& forall|seen: Seq<u8>| #[trigger]
                        old(self).has_read(seen) ==> final(self).has_read(seen + chunk@)
                }
            }),
            until(chunk@, 10) <= chunk@.len(),
            result.0 <= chunk@.len(),
    {
        let end: usize = find_end(chunk);
        let complete: bool = end < chunk.len();
        let taken: usize = if complete {
            end + 1
        } else {
            end
        };
        let ghost before = *self;
        let ghost fresh = chunk@.take(taken as int);
        if !self.too_large {
            if self.line.len() > MAX_MESSAGE_BYTES + 1 || taken > MAX_MESSAGE_BYTES + 1
                - self.line.len() {
                self.too_large = true;
                self.line = Vec::new();
            } else {
                let piece: Vec<u8> = part(chunk, 0, taken);
                self.line.extend_from_slice(piece.as_slice());
                assert(piece@ =~= fresh);
                assert(self.line@ =~= before.line@ + fresh);
            }
        }
        proof {
            assert forall|seen: Seq<u8>| #[trigger] before.has_read(seen) implies self.has_read(
                seen + fresh,
            ) by {
                if !before.too_large {
                    assert(before.line@ + fresh == seen + fresh);
                }
            }
        }
        if !complete {
            assert(fresh =~= chunk@);
            return (taken, None);
        }
        let ghost held = *self;
        let mut line: Vec<u8> = Vec::new();
        line.append(&mut self.line);
        assert(line@ =~= held.line@);
        let large: bool = self.too_large || line.len() > MAX_MESSAGE_BYTES;
        self.too_large = false;
        if large {
            proof {
                assert forall|seen: Seq<u8>| #[trigger] before.has_read(seen) implies ended_line(
                    seen + fresh,
                ) is TooLarge by {
                    assert(held.has_read(seen + fresh));
                }
            }
            return (taken, Some(LineRead::TooLarge));
        }
        let ghost raw = line@;
        if line.len() > 0 && line[line.len() - 1] == 10 {
            line.pop();
        }
        if line.len() > 0 && line[line.len() - 1] == 13 {
            line.pop();
        }
        assert(line@ =~= without_end(raw));
        proof {
            assert forall|seen: Seq<u8>| #[trigger] before.has_read(seen) implies ended_line(
                seen + fresh,
            ) == (LineView::Line { bytes: line@ }) by {
                assert(held.has_read(seen + fresh));
            }
        }
        (taken, Some(LineRead::Line { bytes: line }))
    }

    /// Ends the stream.
    pub fn finish(self) -> (line: LineRead)
        ensures
            forall|seen: Seq<u8>| #[trigger] self.has_read(seen) ==> line@ == last_line(seen),
    {
        if self.too_large || self.line.len() > MAX_MESSAGE_BYTES {
            LineRead::TooLarge
        } else if self.line.len() == 0 {
            LineRead::Eof
        } else {
            LineRead::Line { bytes: self.line }
        }
    }
}

fn find_end(chunk: &[u8]) -> (end: usize)
    ensures
        end == until(chunk@, 10),
        end <= chunk@.len(),
{
    let mut end: usize = 0;
    while end < chunk.len() && chunk[end] != 10
        invariant
            end <= chunk@.len(),
            forall|i: int| 0 <= i < end ==> chunk@[i] != 10,
        decreases chunk@.len() - end,
    {
        end = end + 1;
    }
    proof {
        crate::bytes::until_is(chunk@, 10, end as int);
    }
    end
}

/// Reads the first line of a stream that is all there.
pub fn read_line_limited(stream: &[u8]) -> (line: LineRead)
    ensures
        line@ == next_line(stream@).0,
{
    let mut reader = LineReader::new();
    let (taken, complete): (usize, Option<LineRead>) = reader.feed(stream);
    assert(Seq::<u8>::empty() + stream@ =~= stream@);
    proof {
        let n = until(stream@, 10) as int;
        if n < stream@.len() {
            assert(Seq::<u8>::empty() + stream@.take(n + 1) =~= stream@.take(n + 1));
        }
    }
    match complete {
        Some(line) => line,
        None => reader.finish(),
    }
}

/// It does not matter in what pieces a line comes in: what was read before a piece without a line
/// feed is read together with what follows it.
pub proof fn pieces_of_a_line_join(first: Seq<u8>, second: Seq<u8>)
    requires
        !first.contains(10u8),
    ensures
        until(first + second, 10) == first.len() + until(second, 10),
        until(second, 10) < second.len() ==> ({
            let n = until(second, 10) as int;
            &&& next_line(first + second).0 == ended_line(first + second.take(n + 1))
            &&& next_line(first + second).1 == second.skip(n + 1)
        }),
        until(second, 10) == second.len() ==> next_line(first + second).0 == last_line(
            first + second,
        ),
{
    crate::bytes::until_bounds(second, 10);
    let n = until(second, 10) as int;
    let whole = first + second;
    assert forall|i: int| 0 <= i < first.len() + n implies whole[i] != 10 by {
        if i < first.len() {
            assert(first.contains(first[i]));
        } else {
            assert(whole[i] == second[i - first.len()]);
        }
    }
    if n < second.len() {
        assert(whole[first.len() + n] == second[n]);
    }
    crate::bytes::until_is(whole, 10, first.len() + n);
    if n < second.len() {
        assert(whole.take(first.len() + n + 1) =~= first + second.take(n + 1));
        assert(whole.skip(first.len() + n + 1) =~= second.skip(n + 1));
    }
}

/// A value as a line of the stream.
pub open spec fn framed(value: JsonView) -> Seq<u8> {
    encode_utf8(compact_text(value)).push(10u8)
}

/// Writes a value as a line of the stream.
pub fn frame(value: &Json) -> (line: Vec<u8>)
    ensures
        line@ == framed(value@),
        reads_back(value@, 100) && line@.len() <= MAX_MESSAGE_BYTES ==> forall|rest: Seq<u8>|
            #[trigger] next_line(line@ + rest) == (
                LineView::Line { bytes: encode_utf8(compact_text(value@)) },
                rest,
            ) && json_of_bytes(encode_utf8(compact_text(value@))) == Some(value@),
{
    let text: String = value.to_line();
    let mut line: Vec<u8> = Vec::new();
    line.extend_from_slice(text.as_str().as_bytes());
    line.push(10);
    assert(line@ =~= framed(value@));
    proof {
        if line@.len() <= MAX_MESSAGE_BYTES {
            assert forall|rest: Seq<u8>| #[trigger] next_line(line@ + rest) == (
                LineView::Line { bytes: encode_utf8(text@) },
                rest,
            ) by {
                framed_line_is_read(text@, rest);
                assert(line@ + rest =~= encode_utf8(text@) + seq![10u8] + rest);
            }
        }
    }
    line
}

proof fn scalar_without_line_end(scalar: u32, byte: u8)
    requires
        vstd::utf8::is_scalar(scalar),
        byte < 128,
        scalar != byte as u32,
    ensures
        !vstd::utf8::encode_scalar(scalar).contains(byte),
{
    let bytes = vstd::utf8::encode_scalar(scalar);
    if bytes.contains(byte) {
        let i = choose|i: int| 0 <= i < bytes.len() && bytes[i] == byte;
        if vstd::utf8::has_width_1_encoding(scalar) {
            assert(bytes[0] == (scalar & 0x7F) as u8);
            assert(scalar <= 0x7F ==> (scalar & 0x7F) as u8 as u32 == scalar) by (bit_vector);
        } else {
            assert(0xC0u8 | ((scalar >> 6) & 0x1F) as u8 >= 128) by (bit_vector);
            assert(0xE0u8 | ((scalar >> 12) & 0x0F) as u8 >= 128) by (bit_vector);
            assert(0xF0u8 | ((scalar >> 18) & 0x7) as u8 >= 128) by (bit_vector);
            assert(0x80u8 | (scalar & 0x3F) as u8 >= 128) by (bit_vector);
            assert(0x80u8 | ((scalar >> 6) & 0x3F) as u8 >= 128) by (bit_vector);
            assert(0x80u8 | ((scalar >> 12) & 0x3F) as u8 >= 128) by (bit_vector);
        }
    }
}

proof fn text_without_line_end(text: Seq<char>, c: char, byte: u8)
    requires
        !text.contains(c),
        byte < 128,
        c as u32 == byte as u32,
    ensures
        !encode_utf8(text).contains(byte),
    decreases text.len(),
{
    if text.len() > 0 {
        let rest = text.drop_first();
        assert(text.contains(text[0]));
        assert(!rest.contains(c)) by {
            if rest.contains(c) {
                let i = choose|i: int| 0 <= i < rest.len() && rest[i] == c;
                assert(text[i + 1] == c);
            }
        }
        text_without_line_end(rest, c, byte);
        vstd::utf8::char_is_scalar(text[0]);
        vstd::utf8::char_u32_cast(text[0], text[0] as u32);
        vstd::utf8::char_u32_cast(c, c as u32);
        scalar_without_line_end(text[0] as u32, byte);
        let head = vstd::utf8::encode_scalar(text[0] as u32);
        let tail = encode_utf8(rest);
        assert(encode_utf8(text) == head + tail);
        if (head + tail).contains(byte) {
            let i = choose|i: int| 0 <= i < (head + tail).len() && (head + tail)[i] == byte;
            if i < head.len() {
                assert(head[i] == byte);
            } else {
                assert(tail[i - head.len()] == byte);
            }
        }
    }
}

/// A text without line ends, written as a line, is read as that text again, and what follows it is
/// left for the next line.
pub proof fn framed_line_is_read(text: Seq<char>, rest: Seq<u8>)
    requires
        !text.contains('\n'),
        !text.contains('\r'),
        encode_utf8(text).len() + 1 <= MAX_MESSAGE_BYTES,
    ensures
        next_line(encode_utf8(text) + seq![10u8] + rest) == (
            LineView::Line { bytes: encode_utf8(text) },
            rest,
        ),
{
    let bytes = encode_utf8(text);
    text_without_line_end(text, '\n', 10);
    text_without_line_end(text, '\r', 13);
    let whole = bytes + seq![10u8] + rest;
    assert forall|i: int| 0 <= i < bytes.len() implies whole[i] != 10 by {
        assert(whole[i] == bytes[i]);
        assert(bytes.contains(bytes[i]));
    }
    assert(whole[bytes.len() as int] == 10);
    crate::bytes::until_is(whole, 10, bytes.len() as int);
    let raw = whole.take(bytes.len() as int + 1);
    assert(raw =~= bytes.push(10u8));
    assert(raw.drop_last() =~= bytes);
    if bytes.len() > 0 {
        assert(bytes.contains(bytes.last()));
    }
    assert(whole.skip(bytes.len() as int + 1) =~= rest);
}

/// The identity that a client gave a request, or null.
pub open spec fn request_id_in(line: Seq<u8>) -> JsonView {
    match json_of_bytes(line) {
        Some(request) => match request.field("id"@) {
            Some(id) => id,
            None => JsonView::Null,
        },
        None => JsonView::Null,
    }
}

/// Reads the identity that a client gave a request.
pub fn request_id_from_line(line: &[u8]) -> (id: Json)
    ensures
        id@ == request_id_in(line@),
{
    match Json::parse(line) {
        Some(request) => match request.get("id") {
            Some(id) => id.clone(),
            None => Json::Null,
        },
        None => Json::Null,
    }
}

/// A request of a client.
#[derive(Debug)]
pub struct Request {
    pub id: Json,
    pub method: String,
    pub parameters: Json,
}

/// What a request holds.
pub struct RequestView {
    pub id: JsonView,
    pub method: Seq<char>,
    pub parameters: JsonView,
}

impl View for Request {
    type V = RequestView;

    open spec fn view(&self) -> RequestView {
        RequestView { id: self.id@, method: self.method@, parameters: self.parameters@ }
    }
}

/// The request in a value, or the response that refuses it.
pub open spec fn request_in(request: JsonView) -> std::result::Result<RequestView, JsonView> {
    match request {
        JsonView::Object(fields) => {
            let id = match request.field("id"@) {
                Some(id) => id,
                None => JsonView::Null,
            };
            let parameters = match request.field("params"@) {
                Some(parameters) => parameters,
                None => JsonView::Object(Map::empty()),
            };
            match request.field_word("method"@) {
                None => Err(
                    error_response(failure("invalid_request"@, "method is required"@), id),
                ),
                Some(method) => if parameters is Object {
                    Ok(RequestView { id, method, parameters })
                } else {
                    Err(error_response(failure("invalid_params"@, "params must be an object"@), id))
                },
            }
        },
        _ => Err(
            error_response(
                failure("invalid_request"@, "Request must be an object"@),
                JsonView::Null,
            ),
        ),
    }
}

/// The request in a line, or the response that refuses it.
pub open spec fn request_of(line: Seq<u8>) -> std::result::Result<RequestView, JsonView> {
    match json_of_bytes(line) {
        Some(request) => request_in(request),
        None => Err(
            error_response(
                failure("invalid_json"@, "Request is not valid JSON"@),
                JsonView::Null,
            ),
        ),
    }
}

/// Reads the request in a value.
pub fn accept_request(request: &Json) -> (result: std::result::Result<Request, Json>)
    ensures
        match result {
            Ok(accepted) => request_in(request@) == Ok::<_, JsonView>(accepted@),
            Err(response) => request_in(request@) == Err::<RequestView, _>(response@),
        },
{
    if !request.is_object() {
        return Err(
            CalendarError::new("invalid_request", "Request must be an object").response(Json::Null),
        );
    }
    let id: Json = match request.get("id") {
        Some(id) => id.clone(),
        None => Json::Null,
    };
    let method: &String = match request.get_word("method") {
        Some(method) => method,
        None => return Err(
            CalendarError::new("invalid_request", "method is required").response(id),
        ),
    };
    let parameters: Json = match request.get("params") {
        Some(parameters) => parameters.clone(),
        None => Json::Object(JsonObject::new()),
    };
    if !parameters.is_object() {
        return Err(CalendarError::new("invalid_params", "params must be an object").response(id));
    }
    Ok(Request { id, method: method.clone(), parameters })
}

/// Reads the request in a line.
pub fn read_request(line: &[u8]) -> (result: std::result::Result<Request, Json>)
    ensures
        match result {
            Ok(accepted) => request_of(line@) == Ok::<_, JsonView>(accepted@),
            Err(response) => request_of(line@) == Err::<RequestView, _>(response@),
        },
{
    match Json::parse(line) {
        Some(request) => accept_request(&request),
        None => Err(
            CalendarError::new("invalid_json", "Request is not valid JSON").response(Json::Null),
        ),
    }
}

/// The response to a request.
pub open spec fn response_to(
    id: JsonView,
    result: std::result::Result<JsonView, ErrorView>,
) -> JsonView {
    match result {
        Ok(value) => JsonView::Object(
            Map::empty()
                .insert("id"@, id)
                .insert("ok"@, JsonView::Bool(true))
                .insert("result"@, value),
        ),
        Err(error) => error_response(error, id),
    }
}

/// Writes the response to a request.
pub fn respond(id: Json, result: Result<Json>) -> (response: Json)
    ensures
        response@ == response_to(id@, crate::flow::json_result(result)),
{
    match result {
        Ok(value) => Json::Object(
            JsonObject::new().with("id", id).with("ok", Json::Bool(true)).with("result", value),
        ),
        Err(error) => error.response(id),
    }
}

/// The response to a line that is too long.
pub fn too_large_response() -> (response: Json)
    ensures
        response@ == error_response(
            failure("message_too_large"@, "Request exceeds size limit"@),
            JsonView::Null,
        ),
{
    CalendarError::new("message_too_large", "Request exceeds size limit").response(Json::Null)
}

/// A notice as clients get it.
pub open spec fn notice_json(notice: NoticeView) -> JsonView {
    JsonView::Object(
        Map::empty()
            .insert("event"@, JsonView::Text(notice.event))
            .insert("data"@, notice.data),
    )
}

/// Writes a notice for clients.
pub fn notice_message(notice: Notice) -> (json: Json)
    ensures
        json@ == notice_json(notice@),
{
    Json::Object(
        JsonObject::new().with("event", Json::Text(notice.event)).with("data", notice.data),
    )
}

/// A request as it is sent.
pub open spec fn request_json(
    id: Seq<char>,
    method: Seq<char>,
    parameters: JsonView,
) -> JsonView {
    JsonView::Object(
        Map::empty()
            .insert("id"@, JsonView::Text(id))
            .insert("method"@, JsonView::Text(method))
            .insert("params"@, parameters),
    )
}

/// Writes a request as it is sent.
pub fn request_message(id: &str, method: &str, parameters: Json) -> (json: Json)
    ensures
        json@ == request_json(id@, method@, parameters@),
{
    Json::Object(
        JsonObject::new()
            .with("id", Json::text(id))
            .with("method", Json::text(method))
            .with("params", parameters),
    )
}

/// Draws an identity, and writes a request with it.
pub fn new_request(method: &str, parameters: Json) -> (request: (String, Json))
    ensures
        is_uuid(request.0@),
        request.1@ == request_json(request.0@, method@, parameters@),
{
    let id: String = random_id();
    let json: Json = request_message(id.as_str(), method, parameters);
    (id, json)
}

/// A request is accepted as it was sent, where it names a method and its parameters are an object.
pub proof fn request_is_accepted(id: Seq<char>, method: Seq<char>, parameters: JsonView)
    requires
        method.len() > 0,
        parameters is Object,
    ensures
        request_in(request_json(id, method, parameters)) == Ok::<RequestView, JsonView>(
            RequestView { id: JsonView::Text(id), method, parameters },
        ),
{
    reveal_strlit("id");
    reveal_strlit("method");
    reveal_strlit("params");
    assert("id"@.len() == 2 && "method"@.len() == 6 && "params"@.len() == 6);
    assert("method"@[0] == 'm' && "params"@[0] == 'p');
    assert("method"@ != "params"@);
}

/// What an answer of the daemon means for a request: nothing where it answers another one, or tells
/// news.
pub open spec fn reply_in(id: Seq<char>, response: JsonView) -> Option<
    std::result::Result<JsonView, ErrorView>,
> {
    if response.field("id"@) != Some(JsonView::Text(id)) {
        None
    } else if response.field("ok"@) != Some(JsonView::Bool(true)) {
        let (code, message) = match response.field("error"@) {
            Some(error) => (error.field_text("code"@), error.field_text("message"@)),
            None => (None, None),
        };
        Some(
            Err(
                failure(
                    match code {
                        Some(code) => code,
                        None => "daemon_error"@,
                    },
                    match message {
                        Some(message) => message,
                        None => "Calendar daemon failed"@,
                    },
                ),
            ),
        )
    } else {
        Some(
            Ok(
                match response.field("result"@) {
                    Some(result) => result,
                    None => JsonView::Null,
                },
            ),
        )
    }
}

/// Reads an answer of the daemon.
pub fn accept_reply(id: &str, response: &Json) -> (reply: Option<Result<Json>>)
    ensures
        match reply {
            Some(result) => reply_in(id@, response@) == Some(crate::flow::json_result(result)),
            None => reply_in(id@, response@) is None,
        },
{
    let ours: bool = match response.get_text("id") {
        Some(text) => text_eq(text.as_str(), id),
        None => false,
    };
    if !ours {
        return None;
    }
    if !response.get_flag("ok") {
        let (code, message): (Option<&String>, Option<&String>) = match response.get("error") {
            Some(error) => (error.get_text("code"), error.get_text("message")),
            None => (None, None),
        };
        let code: &str = match code {
            Some(code) => code.as_str(),
            None => "daemon_error",
        };
        let message: &str = match message {
            Some(message) => message.as_str(),
            None => "Calendar daemon failed",
        };
        return Some(Err(CalendarError::new(code, message)));
    }
    Some(
        Ok(
            match response.get("result") {
                Some(result) => result.clone(),
                None => Json::Null,
            },
        ),
    )
}

/// What a line of the daemon means for a request.
pub open spec fn reply_of(id: Seq<char>, line: LineView) -> Option<
    std::result::Result<JsonView, ErrorView>,
> {
    match line {
        LineView::Eof => Some(
            Err(failure("daemon_disconnected"@, "Calendar daemon disconnected"@)),
        ),
        LineView::TooLarge => Some(
            Err(failure("message_too_large"@, "Calendar daemon response exceeds size limit"@)),
        ),
        LineView::Line { bytes } => match json_of_bytes(bytes) {
            None => Some(
                Err(failure("invalid_json"@, "Calendar daemon returned invalid JSON"@)),
            ),
            Some(response) => reply_in(id, response),
        },
    }
}

/// Reads a line of the daemon: nothing where the next one is to be waited for.
pub fn read_reply(id: &str, line: &LineRead) -> (reply: Option<Result<Json>>)
    ensures
        match reply {
            Some(result) => reply_of(id@, line@) == Some(crate::flow::json_result(result)),
            None => reply_of(id@, line@) is None,
        },
{
    match line {
        LineRead::Eof => Some(
            Err(CalendarError::new("daemon_disconnected", "Calendar daemon disconnected")),
        ),
        LineRead::TooLarge => Some(
            Err(
                CalendarError::new(
                    "message_too_large",
                    "Calendar daemon response exceeds size limit",
                ),
            ),
        ),
        LineRead::Line { bytes } => match Json::parse(bytes.as_slice()) {
            None => Some(
                Err(CalendarError::new("invalid_json", "Calendar daemon returned invalid JSON")),
            ),
            Some(response) => accept_reply(id, &response),
        },
    }
}

proof fn response_keys()
    ensures
        "id"@ != "ok"@,
        "id"@ != "result"@,
        "ok"@ != "result"@,
        "id"@ != "error"@,
        "ok"@ != "error"@,
        "code"@ != "message"@,
{
    reveal_strlit("id");
    reveal_strlit("ok");
    reveal_strlit("result");
    reveal_strlit("error");
    reveal_strlit("code");
    reveal_strlit("message");
    assert("id"@[0] == 'i' && "ok"@[0] == 'o');
    assert("id"@.len() == 2 && "ok"@.len() == 2 && "result"@.len() == 6 && "error"@.len() == 5);
    assert("code"@.len() == 4 && "message"@.len() == 7);
}

/// A client gets the result that the daemon came to, and of an error its code and its message.
pub proof fn response_reaches_client(
    id: Seq<char>,
    result: std::result::Result<JsonView, ErrorView>,
)
    ensures
        reply_in(id, response_to(JsonView::Text(id), result)) == Some(
            match result {
                Ok(value) => Ok::<JsonView, ErrorView>(value),
                Err(error) => Err(failure(error.code, error.message)),
            },
        ),
{
    response_keys();
}

/// A client passes over what is not meant for it: news, and answers to other requests.
pub proof fn news_are_passed_over(
    id: Seq<char>,
    other: Seq<char>,
    notice: NoticeView,
    result: std::result::Result<JsonView, ErrorView>,
)
    ensures
        reply_in(id, notice_json(notice)) is None,
        id != other ==> reply_in(id, response_to(JsonView::Text(other), result)) is None,
{
    response_keys();
    reveal_strlit("id");
    reveal_strlit("event");
    reveal_strlit("data");
    assert("id"@.len() == 2 && "event"@.len() == 5 && "data"@.len() == 4);
}

/// Why the daemon could not be connected to.
#[derive(Clone, Copy, Debug, PartialEq, Eq, Structural)]
pub enum ConnectFailure {
    NotFound,
    PermissionDenied,
    Other,
}

/// What a client is told where the daemon could not be connected to. That access was denied does
/// not mean that the daemon is not running.
pub open spec fn unreachable(reason: ConnectFailure) -> ErrorView {
    match reason {
        ConnectFailure::NotFound => failure(
            "daemon_unavailable"@,
            "Calendar daemon is not running"@,
        ),
        ConnectFailure::PermissionDenied => failure(
            "daemon_access_denied"@,
            "Access to the calendar daemon was denied"@,
        ),
        ConnectFailure::Other => failure(
            "daemon_unavailable"@,
            "Could not connect to calendar daemon"@,
        ),
    }
}

/// Tells a client why the daemon could not be connected to.
pub fn connect_error(reason: ConnectFailure) -> (error: CalendarError)
    ensures
        error@ == unreachable(reason),
{
    match reason {
        ConnectFailure::NotFound => CalendarError::new(
            "daemon_unavailable",
            "Calendar daemon is not running",
        ),
        ConnectFailure::PermissionDenied => CalendarError::new(
            "daemon_access_denied",
            "Access to the calendar daemon was denied",
        ),
        ConnectFailure::Other => CalendarError::new(
            "daemon_unavailable",
            "Could not connect to calendar daemon",
        ),
    }
}

/// What stands where the socket of the daemon is to be.
#[derive(Clone, Copy, Debug, PartialEq, Eq, Structural)]
pub enum SocketFact {
    Missing,
    Found { uid: u32, is_socket: bool },
}

/// What to do about the place of the socket.
#[derive(Debug)]
pub enum SocketStep {
    /// It is free.
    Free,
    /// It holds something that is not ours.
    Refused { error: CalendarError },
    /// It holds a socket of the user, which a daemon may still listen on.
    Probe,
}

/// Decides what to do about the place of the socket: nothing but a socket of the user is touched.
pub fn socket_step(fact: SocketFact, uid: u32) -> (step: SocketStep)
    ensures
        match fact {
            SocketFact::Missing => step is Free,
            SocketFact::Found { uid: owner, is_socket } => if owner != uid || !is_socket {
                step matches SocketStep::Refused { error } && error@ == failure(
                    "unsafe_socket_path"@,
                    "Calendar socket path is not a user-owned socket"@,
                )
            } else {
                step is Probe
            },
        },
{
    match fact {
        SocketFact::Missing => SocketStep::Free,
        SocketFact::Found { uid: owner, is_socket } => if owner != uid || !is_socket {
            SocketStep::Refused {
                error: CalendarError::new(
                    "unsafe_socket_path",
                    "Calendar socket path is not a user-owned socket",
                ),
            }
        } else {
            SocketStep::Probe
        },
    }
}

/// Decides about a socket of the user by whether a daemon answers on it: one that nobody listens on
/// is removed.
pub fn probed(answers: bool) -> (error: Option<CalendarError>)
    ensures
        match error {
            Some(error) => answers && error@ == failure(
                "already_running"@,
                "Calendar daemon is already running"@,
            ),
            None => !answers,
        },
{
    if answers {
        Some(CalendarError::new("already_running", "Calendar daemon is already running"))
    } else {
        None
    }
}

/// Whether the socket at a place is still the one that was made there.
pub fn same_socket(device: u64, inode: u64, made: (u64, u64)) -> (result: bool)
    ensures
        result == ((device, inode) == made),
{
    device == made.0 && inode == made.1
}

/// A path below a directory.
pub open spec fn joined_path(directory: Seq<u8>, path: Seq<u8>) -> Seq<u8> {
    if directory.len() > 0 && directory.last() != 47 {
        directory.push(47u8) + path
    } else {
        directory + path
    }
}

fn join_path(directory: &[u8], path: &str) -> (result: Vec<u8>)
    ensures
        result@ == joined_path(directory@, encode_utf8(path@)),
{
    let mut result: Vec<u8> = part(directory, 0, directory.len());
    assert(result@ =~= directory@);
    if result.len() > 0 && result[result.len() - 1] != 47 {
        result.push(47);
    }
    result.extend_from_slice(path.as_bytes());
    assert(result@ =~= joined_path(directory@, encode_utf8(path@)));
    result
}

/// Where things are kept by default: the Google client, the cache, and the socket.
#[derive(Debug)]
pub struct Paths {
    pub client: Vec<u8>,
    pub database: Vec<u8>,
    pub socket: Vec<u8>,
}

/// Where things are kept by default, with the values of the environment that say so.
pub open spec fn paths_for(
    home: Option<Seq<u8>>,
    config_home: Option<Seq<u8>>,
    state_home: Option<Seq<u8>>,
    runtime: Option<Seq<u8>>,
) -> std::result::Result<(Seq<u8>, Seq<u8>, Seq<u8>), ErrorView> {
    match (home, runtime) {
        (None, _) => Err(failure("home_unavailable"@, "HOME is not set"@)),
        (Some(home), None) => Err(failure("runtime_unavailable"@, "XDG_RUNTIME_DIR is not set"@)),
        (Some(home), Some(runtime)) => {
            let config = match config_home {
                Some(config) => config,
                None => joined_path(home, encode_utf8(".config"@)),
            };
            let state = match state_home {
                Some(state) => state,
                None => joined_path(home, encode_utf8(".local/state"@)),
            };
            Ok(
                (
                    joined_path(config, encode_utf8("omarchy/calendar/google-client.json"@)),
                    joined_path(state, encode_utf8("omarchy/calendar/agenda.db"@)),
                    joined_path(runtime, encode_utf8("omarchy-calendar.sock"@)),
                ),
            )
        },
    }
}

/// Finds out where things are kept by default, with the values of `HOME`, `XDG_CONFIG_HOME`,
/// `XDG_STATE_HOME` and `XDG_RUNTIME_DIR`.
pub fn default_paths(
    home: Option<&[u8]>,
    config_home: Option<&[u8]>,
    state_home: Option<&[u8]>,
    runtime: Option<&[u8]>,
) -> (paths: Result<Paths>)
    ensures
        match paths {
            Ok(paths) => paths_for(
                crate::google::bytes_view(home),
                crate::google::bytes_view(config_home),
                crate::google::bytes_view(state_home),
                crate::google::bytes_view(runtime),
            ) == Ok::<_, ErrorView>((paths.client@, paths.database@, paths.socket@)),
            Err(error) => paths_for(
                crate::google::bytes_view(home),
                crate::google::bytes_view(config_home),
                crate::google::bytes_view(state_home),
                crate::google::bytes_view(runtime),
            ) == Err::<(Seq<u8>, Seq<u8>, Seq<u8>), _>(error@),
        },
{
    let home: &[u8] = match home {
        Some(home) => home,
        None => return Err(CalendarError::new("home_unavailable", "HOME is not set")),
    };
    let runtime: &[u8] = match runtime {
        Some(runtime) => runtime,
        None => return Err(
            CalendarError::new("runtime_unavailable", "XDG_RUNTIME_DIR is not set"),
        ),
    };
    let client: Vec<u8> = match config_home {
        Some(config) => join_path(config, "omarchy/calendar/google-client.json"),
        None => join_path(
            join_path(home, ".config").as_slice(),
            "omarchy/calendar/google-client.json",
        ),
    };
    let database: Vec<u8> = match state_home {
        Some(state) => join_path(state, "omarchy/calendar/agenda.db"),
        None => join_path(
            join_path(home, ".local/state").as_slice(),
            "omarchy/calendar/agenda.db",
        ),
    };
    Ok(Paths { client, database, socket: join_path(runtime, "omarchy-calendar.sock") })
}

/// Calls `gen_range` of `rand::thread_rng` for a number of seconds between two bounds, both of them
/// possible: it is random, only the bounds are known.
#[verifier::external_body]
fn random_seconds(least: u64, most: u64) -> (seconds: u64)
    requires
        least <= most,
    ensures
        least <= seconds <= most,
{
    rand::Rng::gen_range(&mut rand::thread_rng(), least..=most)
}

/// The permissions of the socket of the daemon: its owner only.
pub const SOCKET_MODE: u32 = 0o600;

/// The permissions that the daemon takes away from all that it creates.
pub const CREATION_MASK: u32 = 0o077;

/// How long after its start the daemon synchronizes for the first time, in seconds.
pub const FIRST_POLL_SECONDS: u64 = 2;

/// How long to wait until the next synchronization, in seconds: about five minutes, and not the same
/// for every machine.
pub fn poll_seconds() -> (seconds: u64)
    ensures
        270 <= seconds <= 330,
{
    random_seconds(270, 330)
}

/// The clients that are connected.
#[derive(Debug)]
pub struct ClientHub {
    next_id: u64,
    clients: Vec<u64>,
}

/// Which clients are connected, and what the next one is called.
pub struct HubView {
    pub next_id: u64,
    pub clients: Seq<u64>,
}

impl View for ClientHub {
    type V = HubView;

    closed spec fn view(&self) -> HubView {
        HubView { next_id: self.next_id, clients: self.clients@ }
    }
}

/// A client other than one.
pub open spec fn other_client(id: u64) -> spec_fn(u64) -> bool {
    |client: u64| client != id
}

impl HubView {
    /// The hub after a client came.
    pub open spec fn registered(self) -> HubView {
        HubView {
            next_id: if self.next_id == u64::MAX {
                0
            } else {
                (self.next_id + 1) as u64
            },
            clients: if self.clients.contains(self.next_id) {
                self.clients
            } else {
                self.clients.push(self.next_id)
            },
        }
    }

    /// The hub after a client went.
    pub open spec fn unregistered(self, id: u64) -> HubView {
        HubView { clients: self.clients.filter(other_client(id)), ..self }
    }
}

/// A line ends at its line feed, whatever it holds: one of up to a megabyte, its end among it, is
/// read as it is, without a carriage return at its end; a longer one is passed over. Either way the
/// next line begins after it.
pub proof fn lines_end_at_line_feeds(line: Seq<u8>, rest: Seq<u8>)
    requires
        !line.contains(10u8),
    ensures
        ({
            let (read, left) = next_line(line + seq![10u8] + rest);
            &&& left == rest
            &&& line.len() + 1 > 1048576 ==> read is TooLarge
            &&& line.len() + 1 <= 1048576 ==> read == (LineView::Line {
                bytes: if line.len() > 0 && line.last() == 13 {
                    line.drop_last()
                } else {
                    line
                },
            })
        }),
        next_line(line).0 == if line.len() == 0 {
            LineView::Eof
        } else if line.len() > 1048576 {
            LineView::TooLarge
        } else {
            LineView::Line { bytes: line }
        },
{
    let stream = line + seq![10u8] + rest;
    let n = line.len() as int;
    assert forall|i: int| 0 <= i < n implies stream[i] != 10 by {
        assert(stream[i] == line[i]);
        assert(line.contains(line[i]));
    }
    assert(stream[n] == 10);
    crate::bytes::until_is(stream, 10, n);
    let raw = stream.take(n + 1);
    assert(raw =~= line.push(10u8));
    assert(raw.drop_last() =~= line);
    assert(stream.skip(n + 1) =~= rest);
    assert forall|i: int| 0 <= i < n implies line[i] != 10 by {
        assert(line.contains(line[i]));
    }
    crate::bytes::until_is(line, 10, n);
}

/// A request is accepted exactly where it is an object that names a method, with parameters that are
/// an object or missing; it keeps its identity. A refusal names the identity of its request, where
/// that has one, and why it was refused.
pub proof fn requests_are_accepted_by_their_shape(request: JsonView)
    ensures
        ({
            let method = request.field("method"@);
            let parameters = request.field("params"@);
            let named = method matches Some(JsonView::Text(name)) && name.len() > 0;
            let fitting = parameters is None || parameters->0 is Object;
            let id = match request.field("id"@) {
                Some(id) => id,
                None => JsonView::Null,
            };
            &&& request_in(request) is Ok <==> request is Object && named && fitting
            &&& request_in(request) matches Ok(accepted) ==> {
                &&& accepted.id == id
                &&& Some(JsonView::Text(accepted.method)) == method
                &&& parameters matches Some(given) ==> accepted.parameters == given
                &&& parameters is None ==> accepted.parameters == JsonView::Object(Map::empty())
            }
            &&& request_in(request) matches Err(response) ==> {
                &&& response.field("ok"@) == Some(JsonView::Bool(false))
                &&& response.field("id"@) == Some(id)
                &&& response.field("error"@) matches Some(error) && error.field("code"@) == Some(
                    JsonView::Text(
                        if request is Object && named {
                            "invalid_params"@
                        } else {
                            "invalid_request"@
                        },
                    ),
                )
            }
        }),
{
    response_keys();
}

/// An answer names the request that it is for, and says whether that succeeded: it then brings the
/// result, and else the code and the message of the error.
pub proof fn answers_name_their_request(
    id: JsonView,
    result: std::result::Result<JsonView, ErrorView>,
)
    ensures
        ({
            let response = response_to(id, result);
            &&& response.field("id"@) == Some(id)
            &&& response.field("ok"@) == Some(JsonView::Bool(result is Ok))
            &&& match result {
                Ok(value) => response.field("result"@) == Some(value),
                Err(error) => response.field("error"@) matches Some(told) && told.field("code"@)
                    == Some(JsonView::Text(error.code)) && told.field("message"@) == Some(
                    JsonView::Text(error.message),
                ),
            }
        }),
{
    response_keys();
}

/// News name what happened and bring what goes with it.
pub proof fn news_name_what_happened(notice: NoticeView)
    ensures
        notice_json(notice).field("event"@) == Some(JsonView::Text(notice.event)),
        notice_json(notice).field("data"@) == Some(notice.data),
{
    reveal_strlit("event");
    reveal_strlit("data");
    assert("event"@.len() == 5 && "data"@.len() == 4);
}

/// A client that comes is among the clients from then on, under a number of its own, and when it goes
/// it is not; the others are not touched by either.
pub proof fn clients_come_and_go(hub: HubView, id: u64, other: u64)
    ensures
        hub.registered().clients.contains(hub.next_id),
        other != hub.next_id ==> (hub.registered().clients.contains(other)
            <==> hub.clients.contains(other)),
        hub.next_id < u64::MAX ==> hub.registered().next_id == hub.next_id + 1,
        !hub.unregistered(id).clients.contains(id),
        other != id ==> (hub.unregistered(id).clients.contains(other) <==> hub.clients.contains(
            other,
        )),
        hub.unregistered(id).next_id == hub.next_id,
{
    crate::table::filter_rows(hub.clients, other_client(id));
    let after = hub.registered().clients;
    if !hub.clients.contains(hub.next_id) {
        assert(after[hub.clients.len() as int] == hub.next_id);
        if hub.clients.contains(other) {
            let i = choose|i: int| 0 <= i < hub.clients.len() && hub.clients[i] == other;
            assert(after[i] == other);
        }
        if after.contains(other) && other != hub.next_id {
            let i = choose|i: int| 0 <= i < after.len() && after[i] == other;
            assert(hub.clients[i] == other);
        }
    }
}

impl ClientHub {
    /// A hub without clients.
    pub fn new() -> (hub: ClientHub)
        ensures
            hub@ == (HubView { next_id: 1, clients: Seq::empty() }),
    {
        let hub = ClientHub { next_id: 1, clients: Vec::new() };
        assert(hub@.clients =~= Seq::<u64>::empty());
        hub
    }

    /// A client comes, and is given a number.
    pub fn register(&mut self) -> (id: u64)
        ensures
            id == old(self)@.next_id,
            final(self)@ == old(self)@.registered(),
    {
        let id: u64 = self.next_id;
        self.next_id = if id == u64::MAX {
            0
        } else {
            id + 1
        };
        if !has_number(&self.clients, id) {
            self.clients.push(id);
        }
        id
    }

    /// A client goes, or could not be written to.
    pub fn unregister(&mut self, id: u64)
        ensures
            final(self)@ == old(self)@.unregistered(id),
    {
        let ghost all = self.clients@;
        let ghost property = other_client(id);
        let mut kept: Vec<u64> = Vec::new();
        assert(all.take(0).filter(property) =~= Seq::<u64>::empty()) by {
            reveal(Seq::filter);
        }
        for i in 0..self.clients.len()
            invariant
                all == self.clients@,
                *self == *old(self),
                property == other_client(id),
                kept@ == all.take(i as int).filter(property),
        {
            proof {
                crate::table::filter_step(all, property, i as int);
            }
            if self.clients[i] != id {
                kept.push(self.clients[i]);
            }
        }
        assert(all.take(all.len() as int) =~= all);
        self.clients = kept;
    }

    /// The clients that are connected.
    pub fn clients(&self) -> (clients: &Vec<u64>)
        ensures
            clients@ == self@.clients,
    {
        &self.clients
    }
}

} // verus!
