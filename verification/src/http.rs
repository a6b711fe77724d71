//! Requests to Google, and what its answers mean.
use vstd::prelude::*;

use crate::error::{
    failure, http_failure, safe_message, shown_message, CalendarError, ErrorView, Result,
};
use crate::json::{json_of_bytes, Json, JsonObject, JsonView};
use crate::link::pairs_view;
use crate::text::{decimal, decimal_text, optional_view};

verus! {

broadcast use crate::json::group_json;

/// The most that an answer may hold.
pub const MAX_GOOGLE_BODY: usize = 8388608;

/// The most that is read of an answer that says what went wrong.
pub const MAX_GOOGLE_ERROR_BODY: usize = 262144;

/// A request to Google: a form is posted, anything else is read.
#[derive(Debug)]
pub struct HttpRequest {
    pub url: String,
    pub access_token: Option<String>,
    pub form: Option<Vec<(String, String)>>,
}

/// What a request holds.
pub struct RequestView {
    pub url: Seq<char>,
    pub access_token: Option<Seq<char>>,
    pub form: Option<Seq<(Seq<char>, Seq<char>)>>,
}

impl View for HttpRequest {
    type V = RequestView;

    open spec fn view(&self) -> RequestView {
        RequestView {
            url: self.url@,
            access_token: optional_view(self.access_token),
            form: match self.form {
                Some(form) => Some(pairs_view(form@)),
                None => None,
            },
        }
    }
}

/// What came of a request.
#[derive(Debug)]
pub enum HttpReply {
    /// Google was not reached.
    Unreachable,
    /// The answer broke off, or was too long.
    Unreadable,
    /// Google answered.
    Received { status: u16, body: Vec<u8> },
}

/// Whether a status means success.
pub open spec fn is_success(status: u16) -> bool {
    200 <= status < 300
}

/// How much of an answer is read.
pub fn body_limit(status: u16) -> (limit: usize)
    ensures
        limit == if is_success(status) {
            MAX_GOOGLE_BODY
        } else {
            MAX_GOOGLE_ERROR_BODY
        },
{
    if 200 <= status && status < 300 {
        MAX_GOOGLE_BODY
    } else {
        MAX_GOOGLE_ERROR_BODY
    }
}

/// What Google says went wrong, where it says it.
pub open spec fn error_message(payload: JsonView) -> Option<Seq<char>> {
    match payload.field("error"@) {
        Some(JsonView::Text(message)) => Some(message),
        Some(JsonView::Object(fields)) => if fields.contains_key("message"@) {
            fields["message"@].text()
        } else if fields.contains_key("status"@) {
            fields["status"@].text()
        } else {
            None
        },
        _ => None,
    }
}

/// Reads what Google says went wrong.
pub fn google_error_message(payload: &Json) -> (message: Option<String>)
    ensures
        optional_view(message) == error_message(payload@),
{
    match payload.get("error") {
        Some(Json::Text(message)) => Some(message.clone()),
        Some(Json::Object(fields)) => {
            let candidate: Option<&Json> = match fields.get("message") {
                Some(message) => Some(message),
                None => fields.get("status"),
            };
            match candidate {
                Some(value) => match value.as_str() {
                    Some(message) => Some(message.clone()),
                    None => None,
                },
                None => None,
            }
        },
        _ => None,
    }
}

/// What is shown of an answer that does not mean success.
pub open spec fn refusal(status: u16, body: Seq<u8>) -> ErrorView {
    let message = match json_of_bytes(body) {
        Some(payload) => match error_message(payload) {
            Some(message) => message,
            None => "Google API returned HTTP "@ + decimal(status as nat),
        },
        None => "Google API returned HTTP "@ + decimal(status as nat),
    };
    http_failure(status, shown_message(message, "Google API failed"@))
}

/// What an answer means. Where it may be empty, an empty one stands for an empty object.
pub open spec fn reply_value(reply: HttpReply, allow_empty: bool) -> std::result::Result<
    JsonView,
    ErrorView,
> {
    match reply {
        HttpReply::Unreachable => Err(failure("network_error"@, "Could not reach Google"@)),
        HttpReply::Unreadable => Err(failure("network_error"@, "Could not read Google response"@)),
        HttpReply::Received { status, body } => if !is_success(status) {
            Err(refusal(status, body@))
        } else if allow_empty && body@.len() == 0 {
            Ok(JsonView::Object(Map::empty()))
        } else {
            match json_of_bytes(body@) {
                None => Err(
                    failure("google_response_invalid"@, "Google returned invalid JSON"@),
                ),
                Some(value) => if value is Object {
                    Ok(value)
                } else {
                    Err(
                        failure(
                            "google_response_invalid"@,
                            "Google returned an invalid response"@,
                        ),
                    )
                },
            }
        },
    }
}

/// Reads an answer.
pub fn read_reply(reply: &HttpReply, allow_empty: bool) -> (value: Result<Json>)
    ensures
        match value {
            Ok(json) => reply_value(*reply, allow_empty) == Ok::<_, ErrorView>(json@),
            Err(error) => reply_value(*reply, allow_empty) == Err::<JsonView, _>(error@),
        },
{
    match reply {
        HttpReply::Unreachable => Err(CalendarError::new("network_error", "Could not reach Google")),
        HttpReply::Unreadable => Err(
            CalendarError::new("network_error", "Could not read Google response"),
        ),
        HttpReply::Received { status, body } => {
            let status: u16 = *status;
            let parsed: Option<Json> = Json::parse(body.as_slice());
            if !(200 <= status && status < 300) {
                let told: Option<String> = match &parsed {
                    Some(payload) => google_error_message(payload),
                    None => None,
                };
                let message: String = match told {
                    Some(message) => message,
                    None => "Google API returned HTTP ".to_owned().concat(
                        decimal_text(status as u64).as_str(),
                    ),
                };
                return Err(
                    CalendarError::google_http(
                        status,
                        safe_message(message.as_str(), "Google API failed").as_str(),
                    ),
                );
            }
            if allow_empty && body.len() == 0 {
                return Ok(Json::Object(JsonObject::new()));
            }
            match parsed {
                None => Err(
                    CalendarError::new("google_response_invalid", "Google returned invalid JSON"),
                ),
                Some(value) => if value.is_object() {
                    Ok(value)
                } else {
                    Err(
                        CalendarError::new(
                            "google_response_invalid",
                            "Google returned an invalid response",
                        ),
                    )
                },
            }
        },
    }
}

} // verus!
