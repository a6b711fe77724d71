//! Errors and the messages that they carry.
use vstd::prelude::*;

use crate::json::{Json, JsonObject, JsonView};
use crate::text::{decimal_text, join, split_whitespace, take_chars};

verus! {

broadcast use crate::json::group_json;

/// The result of an operation of the calendar.
pub type Result<T> = std::result::Result<T, CalendarError>;

/// Why an operation failed: a code for programs, a message for people, and the HTTP status where
/// Google answered with one.
#[derive(Debug, PartialEq, Eq)]
pub struct CalendarError {
    pub code: String,
    pub message: String,
    pub http_status: Option<u16>,
}

/// What an error says.
pub struct ErrorView {
    pub code: Seq<char>,
    pub message: Seq<char>,
    pub http_status: Option<u16>,
}

impl View for CalendarError {
    type V = ErrorView;

    open spec fn view(&self) -> ErrorView {
        ErrorView { code: self.code@, message: self.message@, http_status: self.http_status }
    }
}

/// An error without an HTTP status.
pub open spec fn failure(code: Seq<char>, message: Seq<char>) -> ErrorView {
    ErrorView { code, message, http_status: None }
}

/// An error that Google reported with an HTTP status.
pub open spec fn http_failure(status: u16, message: Seq<char>) -> ErrorView {
    ErrorView {
        code: "google_http_"@ + crate::text::decimal(status as nat),
        message,
        http_status: Some(status),
    }
}

/// The answer that reports an error to the sender of a request.
pub open spec fn error_response(error: ErrorView, request_id: JsonView) -> JsonView {
    JsonView::Object(
        Map::empty().insert("id"@, request_id).insert("ok"@, JsonView::Bool(false)).insert(
            "error"@,
            JsonView::Object(
                Map::empty().insert("code"@, JsonView::Text(error.code)).insert(
                    "message"@,
                    JsonView::Text(error.message),
                ),
            ),
        ),
    )
}

impl CalendarError {
    /// An error without an HTTP status.
    pub fn new(code: &str, message: &str) -> (error: CalendarError)
        ensures
            error@ == failure(code@, message@),
    {
        CalendarError { code: code.to_owned(), message: message.to_owned(), http_status: None }
    }

    /// An error that Google reported with an HTTP status.
    pub fn google_http(status: u16, message: &str) -> (error: CalendarError)
        ensures
            error@ == http_failure(status, message@),
    {
        CalendarError {
            code: "google_http_".to_owned().concat(decimal_text(status as u64).as_str()),
            message: message.to_owned(),
            http_status: Some(status),
        }
    }

    /// The answer that reports the error to the sender of a request.
    pub fn response(&self, request_id: Json) -> (response: Json)
        ensures
            response@ == error_response(self@, request_id@),
    {
        let error: JsonObject = JsonObject::new().with("code", Json::text(self.code.as_str())).with(
            "message",
            Json::text(self.message.as_str()),
        );
        Json::Object(
            JsonObject::new().with("id", request_id).with("ok", Json::Bool(false)).with(
                "error",
                Json::Object(error),
            ),
        )
    }

    /// The message.
    pub fn to_string(&self) -> (text: String)
        ensures
            text@ == self@.message,
    {
        self.message.clone()
    }
}

impl Clone for CalendarError {
    fn clone(&self) -> (copy: CalendarError)
        ensures
            copy@ == self@,
    {
        CalendarError {
            code: self.code.clone(),
            message: self.message.clone(),
            http_status: self.http_status,
        }
    }
}

/// The longest message that is shown, in characters.
pub const MESSAGE_LIMIT: usize = 300;

/// A text with every run of white space made one space and none at its ends; a fallback where
/// nothing is left; either way no longer than the limit.
pub open spec fn shown_message(value: Seq<char>, fallback: Seq<char>) -> Seq<char> {
    let collapsed = crate::text::joined(crate::text::words(value), " "@);
    crate::text::first_chars(
        if collapsed.len() == 0 {
            fallback
        } else {
            collapsed
        },
        MESSAGE_LIMIT as nat,
    )
}

/// A message that is shown has no more than three hundred characters and no white space but single
/// spaces between its words; as far as it goes it is the message that it was made of, less white
/// space, or the fallback where there was nothing else.
pub proof fn shown_messages_are_short_and_plain(value: Seq<char>, fallback: Seq<char>)
    ensures
        ({
            let shown = shown_message(value, fallback);
            let whole = crate::text::joined(crate::text::words(value), " "@);
            &&& shown.len() <= 300
            &&& crate::text::dark(whole) == crate::text::dark(value)
            &&& whole.len() > 0 ==> shown == whole.take(
                if whole.len() <= 300 {
                    whole.len() as int
                } else {
                    300
                },
            ) && forall|i: int|
                0 <= i < shown.len() && crate::text::is_white(#[trigger] shown[i]) ==> shown[i]
                    == ' ' && i > 0 && !crate::text::is_white(shown[i - 1])
            &&& whole.len() == 0 && fallback.len() <= 300 ==> shown == fallback
        }),
{
    crate::text::words_keep_the_text(value);
    let whole = crate::text::joined(crate::text::words(value), " "@);
    assert(whole.take(whole.len() as int) =~= whole);
    let shown = shown_message(value, fallback);
    if whole.len() > 0 {
        assert forall|i: int|
            0 <= i < shown.len() && crate::text::is_white(#[trigger] shown[i]) implies shown[i]
            == ' ' && i > 0 && !crate::text::is_white(shown[i - 1]) by {
            assert(shown[i] == whole[i]);
        }
    }
}

/// Makes a message fit to be shown.
pub fn safe_message(value: &str, fallback: &str) -> (message: String)
    ensures
        message@ == shown_message(value@, fallback@),
{
    let collapsed: String = join(&split_whitespace(value), " ");
    if collapsed.as_str().is_empty() {
        take_chars(fallback, MESSAGE_LIMIT)
    } else {
        take_chars(collapsed.as_str(), MESSAGE_LIMIT)
    }
}

} // verus!
