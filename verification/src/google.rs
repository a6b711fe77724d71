//! What Google is asked for, and what its answers say of an account.
use vstd::prelude::*;
use vstd::utf8::{encode_utf8, encode_utf8_decode_utf8};

use crate::entries::{CalendarEntry, CalendarEntryView, TaskListEntry, TaskListEntryView};
use crate::error::{failure, CalendarError, ErrorView, Result};
use crate::http::{read_reply, reply_value, HttpReply, HttpRequest, RequestView};
use crate::json::{array_view, json_of_bytes, Json, JsonView};
use crate::link::{extend_link, extended_link, pairs_view};
use crate::normalize::{is_object, reminder_list, reminders_in};
use crate::table::{made_of, rows};
use crate::text::{borrowed_view, optional_view};
use crate::time::{can_shift, days_after, micros_text, shifted_text, Timestamp};

verus! {

broadcast use crate::json::group_json;

/// Where calendars and events are read.
pub const CALENDAR_API: &'static str = "https://www.googleapis.com/calendar/v3";

/// Where task lists and tasks are read.
pub const TASKS_API: &'static str = "https://tasks.googleapis.com/tasks/v1";

/// Where refresh tokens are given back.
pub const REVOCATION_ENDPOINT: &'static str = "https://oauth2.googleapis.com/revoke";

/// What the file of a Google Desktop OAuth client holds.
#[derive(Debug)]
pub struct ClientSettings {
    pub client_id: String,
    pub client_secret: String,
    pub auth_uri: String,
    pub token_uri: String,
}

/// What client settings hold.
pub struct SettingsView {
    pub client_id: Seq<char>,
    pub client_secret: Seq<char>,
    pub auth_uri: Seq<char>,
    pub token_uri: Seq<char>,
}

impl View for ClientSettings {
    type V = SettingsView;

    open spec fn view(&self) -> SettingsView {
        SettingsView {
            client_id: self.client_id@,
            client_secret: self.client_secret@,
            auth_uri: self.auth_uri@,
            token_uri: self.token_uri@,
        }
    }
}

/// A text field, or another text where there is none.
pub open spec fn text_field_or(value: JsonView, key: Seq<char>, fallback: Seq<char>) -> Seq<char> {
    match value.field_text(key) {
        Some(text) => text,
        None => fallback,
    }
}

fn text_field(value: &Json, key: &str, fallback: &str) -> (text: String)
    ensures
        text@ == text_field_or(value@, key@, fallback@),
{
    match value.get_text(key) {
        Some(text) => text.clone(),
        None => fallback.to_owned(),
    }
}

/// The settings in a client file.
pub open spec fn settings_in(payload: JsonView) -> Option<SettingsView> {
    match payload.field("installed"@) {
        Some(installed) => match installed.field_word("client_id"@) {
            Some(client_id) => Some(
                SettingsView {
                    client_id,
                    client_secret: text_field_or(installed, "client_secret"@, ""@),
                    auth_uri: text_field_or(
                        installed,
                        "auth_uri"@,
                        "https://accounts.google.com/o/oauth2/v2/auth"@,
                    ),
                    token_uri: text_field_or(
                        installed,
                        "token_uri"@,
                        "https://oauth2.googleapis.com/token"@,
                    ),
                },
            ),
            None => None,
        },
        None => None,
    }
}

/// Says that a client file cannot be used.
pub open spec fn invalid_client(path: Seq<char>) -> ErrorView {
    failure("google_client_invalid"@, "Invalid Google Desktop OAuth client: "@ + path)
}

/// The settings of a client: none where the file could not be read, is not JSON, or names no
/// client.
pub open spec fn client_settings(path: Seq<char>, content: Option<Seq<u8>>) -> std::result::Result<
    SettingsView,
    ErrorView,
> {
    match content {
        Some(bytes) => match json_of_bytes(bytes) {
            Some(payload) => match settings_in(payload) {
                Some(settings) => Ok(settings),
                None => Err(invalid_client(path)),
            },
            None => Err(invalid_client(path)),
        },
        None => Err(invalid_client(path)),
    }
}

/// The error of a client file that cannot be used.
pub fn unusable_client(path: &str) -> (error: CalendarError)
    ensures
        error@ == invalid_client(path@),
{
    CalendarError::new(
        "google_client_invalid",
        "Invalid Google Desktop OAuth client: ".to_owned().concat(path).as_str(),
    )
}

impl ClientSettings {
    /// Reads the settings in a parsed client file.
    pub fn of_payload(payload: &Json) -> (settings: Option<ClientSettings>)
        ensures
            match settings {
                Some(settings) => settings_in(payload@) == Some(settings@),
                None => settings_in(payload@) is None,
            },
    {
        match payload.get("installed") {
            Some(installed) => match installed.get_word("client_id") {
                Some(client_id) => Some(
                    ClientSettings {
                        client_id: client_id.clone(),
                        client_secret: text_field(installed, "client_secret", ""),
                        auth_uri: text_field(
                            installed,
                            "auth_uri",
                            "https://accounts.google.com/o/oauth2/v2/auth",
                        ),
                        token_uri: text_field(
                            installed,
                            "token_uri",
                            "https://oauth2.googleapis.com/token",
                        ),
                    },
                ),
                None => None,
            },
            None => None,
        }
    }

    /// Reads a client file. No content means that the file could not be read.
    pub fn read(path: &str, content: Option<&[u8]>) -> (settings: Result<ClientSettings>)
        ensures
            match settings {
                Ok(settings) => client_settings(path@, bytes_view(content)) == Ok::<_, ErrorView>(
                    settings@,
                ),
                Err(error) => client_settings(path@, bytes_view(content)) == Err::<
                    SettingsView,
                    _,
                >(error@),
            },
    {
        if let Some(bytes) = content {
            if let Some(payload) = Json::parse(bytes) {
                if let Some(settings) = ClientSettings::of_payload(&payload) {
                    return Ok(settings);
                }
            }
        }
        Err(unusable_client(path))
    }
}

/// The bytes of a file that may be missing.
pub open spec fn bytes_view(content: Option<&[u8]>) -> Option<Seq<u8>> {
    match content {
        Some(bytes) => Some(bytes@),
        None => None,
    }
}

/// Whether a byte stands for itself in a path.
pub open spec fn is_unreserved(byte: u8) -> bool {
    (48 <= byte <= 57) || (65 <= byte <= 90) || (97 <= byte <= 122) || byte == 45 || byte == 46
        || byte == 95 || byte == 126
}

/// A hexadecimal digit, in upper case.
pub open spec fn upper_digit(value: int) -> char {
    if value < 10 {
        (48 + value) as char
    } else {
        (55 + value) as char
    }
}

/// A byte in a path: itself, or escaped by a percent sign and two hexadecimal digits.
pub open spec fn escaped(byte: u8) -> Seq<char> {
    if is_unreserved(byte) {
        seq![byte as char]
    } else {
        seq!['%', upper_digit(byte as int / 16), upper_digit(byte as int % 16)]
    }
}

/// Bytes in a path.
pub open spec fn escaped_bytes(bytes: Seq<u8>) -> Seq<char>
    decreases bytes.len(),
{
    if bytes.len() == 0 {
        Seq::empty()
    } else {
        escaped_bytes(bytes.drop_last()) + escaped(bytes.last())
    }
}

/// A text as one segment of a path.
pub open spec fn path_segment(text: Seq<char>) -> Seq<char> {
    escaped_bytes(encode_utf8(text))
}

fn upper_hex(value: u8) -> (digit: char)
    requires
        value < 16,
    ensures
        digit == upper_digit(value as int),
{
    if value < 10 {
        (48 + value) as char
    } else {
        (55 + value) as char
    }
}

/// Writes a text as one segment of a path.
pub fn encode_path_segment(value: &str) -> (segment: String)
    ensures
        segment@ == path_segment(value@),
{
    let bytes: &[u8] = value.as_bytes();
    let mut segment = String::new();
    assert(bytes@.take(0) =~= Seq::<u8>::empty());
    for i in 0..bytes.len()
        invariant
            bytes@ == encode_utf8(value@),
            segment@ == escaped_bytes(bytes@.take(i as int)),
    {
        let byte: u8 = bytes[i];
        let ghost before = segment@;
        assert(bytes@.take(i + 1).drop_last() =~= bytes@.take(i as int));
        if (48 <= byte && byte <= 57) || (65 <= byte && byte <= 90) || (97 <= byte && byte <= 122)
            || byte == 45 || byte == 46 || byte == 95 || byte == 126 {
            segment.push(byte as char);
            assert(segment@ =~= before + escaped(byte));
        } else {
            segment.push('%');
            segment.push(upper_hex(byte / 16));
            segment.push(upper_hex(byte % 16));
            assert(segment@ =~= before + escaped(byte));
        }
    }
    assert(bytes@.take(bytes@.len() as int) =~= bytes@);
    segment
}

/// Whether a character stands for itself in a path.
pub open spec fn is_plain(c: char) -> bool {
    '\0' <= c <= '\u{7f}' && is_unreserved(c as u8)
}

/// Whether a character occurs in a path segment.
pub open spec fn is_segment_char(c: char) -> bool {
    c == '%' || is_plain(c)
}

proof fn escaped_chars(bytes: Seq<u8>)
    ensures
        forall|i: int|
            0 <= i < escaped_bytes(bytes).len() ==> is_segment_char(
                #[trigger] escaped_bytes(bytes)[i],
            ),
    decreases bytes.len(),
{
    if bytes.len() > 0 {
        escaped_chars(bytes.drop_last());
        let front = escaped_bytes(bytes.drop_last());
        let byte = bytes.last();
        assert forall|i: int| 0 <= i < escaped_bytes(bytes).len() implies is_segment_char(
            #[trigger] escaped_bytes(bytes)[i],
        ) by {
            if i < front.len() {
                assert(escaped_bytes(bytes)[i] == front[i]);
            } else {
                assert(escaped_bytes(bytes)[i] == escaped(byte)[i - front.len()]);
            }
        }
    }
}

/// A text as a path segment consists of characters that stand for themselves in a path, and of
/// percent signs: it never ends the segment.
pub proof fn path_segment_chars(text: Seq<char>)
    ensures
        forall|i: int|
            0 <= i < path_segment(text).len() ==> is_segment_char(#[trigger] path_segment(text)[i]),
{
    escaped_chars(encode_utf8(text));
}

proof fn escaped_first(bytes: Seq<u8>)
    requires
        bytes.len() > 0,
    ensures
        escaped_bytes(bytes) == escaped(bytes[0]) + escaped_bytes(bytes.drop_first()),
    decreases bytes.len(),
{
    if bytes.len() == 1 {
        assert(bytes.drop_last() =~= Seq::<u8>::empty());
        assert(bytes.drop_first() =~= Seq::<u8>::empty());
        assert(escaped_bytes(bytes) =~= escaped(bytes[0]) + escaped_bytes(bytes.drop_first()));
    } else {
        let front = bytes.drop_last();
        escaped_first(front);
        assert(front.drop_first() =~= bytes.drop_first().drop_last());
        assert(escaped_bytes(bytes) =~= escaped(bytes[0]) + escaped_bytes(bytes.drop_first()));
    }
}

proof fn escaped_injective(a: Seq<u8>, b: Seq<u8>)
    requires
        escaped_bytes(a) == escaped_bytes(b),
    ensures
        a == b,
    decreases a.len(),
{
    if a.len() > 0 {
        escaped_first(a);
    }
    if b.len() > 0 {
        escaped_first(b);
    }
    if a.len() > 0 && b.len() > 0 {
        let whole = escaped_bytes(a);
        let rest_a = escaped_bytes(a.drop_first());
        let rest_b = escaped_bytes(b.drop_first());
        assert(whole[0] == escaped(a[0])[0]);
        assert(whole[0] == escaped(b[0])[0]);
        if !is_unreserved(a[0]) {
            assert(whole[0] == '%');
            assert(!is_unreserved(b[0]));
            assert(whole[1] == escaped(a[0])[1] && whole[1] == escaped(b[0])[1]);
            assert(whole[2] == escaped(a[0])[2] && whole[2] == escaped(b[0])[2]);
            assert(a[0] as int == (a[0] as int / 16) * 16 + a[0] as int % 16);
            assert(b[0] as int == (b[0] as int / 16) * 16 + b[0] as int % 16);
        } else {
            assert(whole[0] == a[0] as char);
            assert(is_unreserved(b[0]));
        }
        assert(a[0] == b[0]);
        let n = escaped(a[0]).len() as int;
        assert(rest_a =~= whole.subrange(n, whole.len() as int));
        assert(rest_b =~= whole.subrange(n, whole.len() as int));
        escaped_injective(a.drop_first(), b.drop_first());
        assert(a =~= seq![a[0]] + a.drop_first());
        assert(b =~= seq![b[0]] + b.drop_first());
    } else {
        assert(escaped_bytes(Seq::<u8>::empty()).len() == 0);
        if a.len() == 0 {
            assert(a =~= Seq::<u8>::empty());
        }
        if b.len() == 0 {
            assert(b =~= Seq::<u8>::empty());
        }
    }
}

/// Different texts make different path segments.
pub proof fn path_segment_injective(a: Seq<char>, b: Seq<char>)
    requires
        path_segment(a) == path_segment(b),
    ensures
        a == b,
{
    escaped_injective(encode_utf8(a), encode_utf8(b));
    encode_utf8_decode_utf8(a);
    encode_utf8_decode_utf8(b);
}

/// What a hexadecimal digit stands for.
pub open spec fn digit_value(digit: char) -> int {
    if '0' <= digit <= '9' {
        digit as int - 48
    } else if 'A' <= digit <= 'F' {
        digit as int - 55
    } else {
        digit as int - 87
    }
}

/// The bytes that a segment of a path stands for: a percent sign and two digits are one byte, any
/// other character is itself.
pub open spec fn decoded(segment: Seq<char>) -> Seq<u8>
    decreases segment.len(),
{
    if segment.len() == 0 {
        Seq::empty()
    } else if segment[0] == '%' && segment.len() > 2 {
        seq![(digit_value(segment[1]) * 16 + digit_value(segment[2])) as u8] + decoded(
            segment.skip(3),
        )
    } else {
        seq![segment[0] as u8] + decoded(segment.skip(1))
    }
}

proof fn escaped_decodes(bytes: Seq<u8>)
    ensures
        decoded(escaped_bytes(bytes)) == bytes,
    decreases bytes.len(),
{
    if bytes.len() == 0 {
        assert(bytes =~= Seq::<u8>::empty());
    } else {
        let rest = bytes.drop_first();
        let byte = bytes[0];
        let whole = escaped_bytes(bytes);
        escaped_first(bytes);
        escaped_decodes(rest);
        if is_unreserved(byte) {
            assert(whole[0] == byte as char);
            assert(whole.skip(1) =~= escaped_bytes(rest));
        } else {
            assert(whole[0] == '%');
            assert(whole[1] == escaped(byte)[1] && whole[2] == escaped(byte)[2]);
            assert(whole.skip(3) =~= escaped_bytes(rest));
            assert(byte as int == (byte as int / 16) * 16 + byte as int % 16);
        }
        assert(decoded(whole) =~= bytes);
    }
}

/// A path segment stands for the text that it was made of.
pub proof fn path_segment_decodes(text: Seq<char>)
    ensures
        decoded(path_segment(text)) == encode_utf8(text),
{
    escaped_decodes(encode_utf8(text));
}

proof fn plain_bytes_stay(bytes: Seq<u8>)
    requires
        forall|i: int| 0 <= i < bytes.len() ==> is_unreserved(#[trigger] bytes[i]),
    ensures
        escaped_bytes(bytes) == bytes.map_values(|byte: u8| byte as char),
    decreases bytes.len(),
{
    let plain = bytes.map_values(|byte: u8| byte as char);
    if bytes.len() > 0 {
        let front = bytes.drop_last();
        plain_bytes_stay(front);
        assert(is_unreserved(bytes[bytes.len() - 1]));
        assert(plain =~= front.map_values(|byte: u8| byte as char) + escaped(bytes.last()));
    } else {
        assert(plain =~= Seq::<char>::empty());
    }
}

/// A text of characters that stand for themselves in a path is its own path segment.
pub proof fn plain_text_is_its_segment(text: Seq<char>)
    requires
        forall|i: int| 0 <= i < text.len() ==> is_plain(#[trigger] text[i]),
    ensures
        path_segment(text) == text,
{
    assert forall|i: int| 0 <= i < text.len() implies '\0' <= #[trigger] text[i] <= '\u{7f}' by {
        assert(is_plain(text[i]));
    }
    vstd::utf8::is_ascii_chars_encode_utf8(text);
    let bytes = encode_utf8(text);
    assert forall|i: int| 0 <= i < bytes.len() implies is_unreserved(#[trigger] bytes[i]) by {
        assert(is_plain(text[i]));
        assert(bytes[i] == text[i] as u8);
    }
    plain_bytes_stay(bytes);
    assert(path_segment(text) =~= text);
}

/// A name and a value of a query.
pub open spec fn pair(name: Seq<char>, value: Seq<char>) -> (Seq<char>, Seq<char>) {
    (name, value)
}

fn owned_pair(name: &str, value: &str) -> (result: (String, String))
    ensures
        (result.0@, result.1@) == pair(name@, value@),
{
    (name.to_owned(), value.to_owned())
}

/// How many days of past and of coming events are kept.
pub const PAST_DAYS: i32 = 90;

pub const COMING_DAYS: i32 = 548;

/// What is asked for of the events of a calendar: the changes since a synchronization token was
/// given out, or all events around the present.
pub open spec fn event_query(now: Timestamp, sync_token: Option<Seq<char>>) -> Seq<
    (Seq<char>, Seq<char>),
> {
    let common = seq![
        pair("maxResults"@, "2500"@),
        pair("showDeleted"@, "true"@),
        pair("singleEvents"@, "true"@),
    ];
    match sync_token {
        Some(token) => common.push(pair("syncToken"@, token)),
        None => common.push(
            pair("timeMax"@, micros_text(days_after(now, COMING_DAYS as int))),
        ).push(pair("timeMin"@, micros_text(days_after(now, -PAST_DAYS as int)))),
    }
}

/// Whether the time for which events are asked for can be represented.
pub open spec fn can_span(now: Timestamp) -> bool {
    can_shift(now, COMING_DAYS as int) && can_shift(now, -PAST_DAYS as int)
}

/// Tests whether the time for which events are asked for can be represented.
pub fn spans(now: &Timestamp) -> (result: bool)
    ensures
        result == can_span(*now),
{
    shifted_text(now, COMING_DAYS).is_some() && shifted_text(now, -PAST_DAYS).is_some()
}

/// Writes what is asked for of the events of a calendar.
pub fn event_parameters(now: &Timestamp, sync_token: Option<&str>) -> (parameters: Vec<
    (String, String),
>)
    requires
        sync_token is Some || can_span(*now),
    ensures
        pairs_view(parameters@) == event_query(*now, borrowed_view(sync_token)),
{
    let mut parameters: Vec<(String, String)> = Vec::new();
    parameters.push(owned_pair("maxResults", "2500"));
    parameters.push(owned_pair("showDeleted", "true"));
    parameters.push(owned_pair("singleEvents", "true"));
    match sync_token {
        Some(token) => {
            parameters.push(owned_pair("syncToken", token));
        },
        None => {
            if let (Some(end), Some(start)) = (
                shifted_text(now, COMING_DAYS),
                shifted_text(now, -PAST_DAYS),
            ) {
                parameters.push(owned_pair("timeMax", end.as_str()));
                parameters.push(owned_pair("timeMin", start.as_str()));
            }
        },
    }
    assert(pairs_view(parameters@) =~= event_query(*now, borrowed_view(sync_token)));
    parameters
}

/// Where the calendars of an account are listed.
pub open spec fn calendars_url() -> Seq<char> {
    CALENDAR_API@ + "/users/me/calendarList"@
}

/// Where the events of a calendar are listed.
pub open spec fn events_url(calendar_id: Seq<char>) -> Seq<char> {
    CALENDAR_API@ + "/calendars/"@ + path_segment(calendar_id) + "/events"@
}

/// Where the task lists of an account are listed.
pub open spec fn task_lists_url() -> Seq<char> {
    TASKS_API@ + "/users/@me/lists"@
}

/// Where the tasks of a list are listed.
pub open spec fn tasks_url(task_list_id: Seq<char>) -> Seq<char> {
    TASKS_API@ + "/lists/"@ + path_segment(task_list_id) + "/tasks"@
}

/// What is asked for of the calendars of an account.
pub open spec fn calendar_query() -> Seq<(Seq<char>, Seq<char>)> {
    seq![
        pair("maxResults"@, "250"@),
        pair("showDeleted"@, "false"@),
        pair("showHidden"@, "false"@),
    ]
}

/// What is asked for of the task lists of an account.
pub open spec fn task_list_query() -> Seq<(Seq<char>, Seq<char>)> {
    seq![pair("maxResults"@, "100"@)]
}

/// What is asked for of the tasks of a list.
pub open spec fn task_query() -> Seq<(Seq<char>, Seq<char>)> {
    seq![
        pair("maxResults"@, "100"@),
        pair("showCompleted"@, "false"@),
        pair("showDeleted"@, "false"@),
        pair("showHidden"@, "false"@),
    ]
}

/// A list that Google hands out page by page.
#[derive(Debug)]
pub struct Listing {
    url: String,
    access_token: String,
    parameters: Vec<(String, String)>,
    items: Vec<Json>,
    page_token: Option<String>,
}

/// What is known of a list: the items of the pages so far, and the page to come.
pub struct ListingView {
    pub url: Seq<char>,
    pub access_token: Seq<char>,
    pub parameters: Seq<(Seq<char>, Seq<char>)>,
    pub items: Seq<JsonView>,
    pub page_token: Option<Seq<char>>,
}

impl View for Listing {
    type V = ListingView;

    closed spec fn view(&self) -> ListingView {
        ListingView {
            url: self.url@,
            access_token: self.access_token@,
            parameters: pairs_view(self.parameters@),
            items: array_view(self.items@),
            page_token: optional_view(self.page_token),
        }
    }
}

/// What comes after a page.
#[derive(Debug)]
pub enum ListingStep {
    /// Another page is to be asked for.
    More,
    /// The list is complete. A list of events says from where to go on the next time.
    Done { sync_token: Option<String> },
    /// Google refused, or its answer makes no sense.
    Failed { error: CalendarError },
}

/// What comes after a page.
pub enum ListingStepView {
    More,
    Done { sync_token: Option<Seq<char>> },
    Failed { error: ErrorView },
}

impl View for ListingStep {
    type V = ListingStepView;

    open spec fn view(&self) -> ListingStepView {
        match self {
            ListingStep::More => ListingStepView::More,
            ListingStep::Done { sync_token } => ListingStepView::Done {
                sync_token: optional_view(*sync_token),
            },
            ListingStep::Failed { error } => ListingStepView::Failed { error: error@ },
        }
    }
}

/// A list of which no page was read yet.
pub open spec fn new_listing(
    url: Seq<char>,
    access_token: Seq<char>,
    parameters: Seq<(Seq<char>, Seq<char>)>,
) -> ListingView {
    ListingView { url, access_token, parameters, items: Seq::empty(), page_token: None }
}

/// The items of a page: the objects in it.
pub open spec fn page_items(page: JsonView) -> Seq<JsonView> {
    page.field_items("items"@).filter(is_object())
}

impl ListingView {
    /// The request for the next page.
    pub open spec fn request(self) -> std::result::Result<RequestView, ErrorView> {
        let query = match self.page_token {
            Some(token) => self.parameters.push(pair("pageToken"@, token)),
            None => self.parameters,
        };
        match extended_link(self.url, query) {
            Some(url) => Ok(
                RequestView { url, access_token: Some(self.access_token), form: None },
            ),
            None => Err(failure("google_response_invalid"@, "Google API URL is invalid"@)),
        }
    }

    /// The list after a page.
    pub open spec fn with_page(self, page: JsonView) -> ListingView {
        ListingView {
            items: self.items + page_items(page),
            page_token: page.field_text("nextPageToken"@),
            ..self
        }
    }

    /// The list after an answer, and what comes next.
    pub open spec fn after(self, reply: HttpReply) -> (ListingView, ListingStepView) {
        match reply_value(reply, false) {
            Err(error) => (self, ListingStepView::Failed { error }),
            Ok(page) => (
                self.with_page(page),
                if page.field_text("nextPageToken"@) is Some {
                    ListingStepView::More
                } else {
                    ListingStepView::Done { sync_token: page.field_text("nextSyncToken"@) }
                },
            ),
        }
    }

    /// The list after several pages.
    pub open spec fn with_pages(self, pages: Seq<JsonView>) -> ListingView
        decreases pages.len(),
    {
        if pages.len() == 0 {
            self
        } else {
            self.with_pages(pages.drop_last()).with_page(pages.last())
        }
    }
}

/// The items of several pages, one page after the other.
pub open spec fn all_page_items(pages: Seq<JsonView>) -> Seq<JsonView>
    decreases pages.len(),
{
    if pages.len() == 0 {
        Seq::empty()
    } else {
        all_page_items(pages.drop_last()) + page_items(pages.last())
    }
}

/// A list that was read to its end holds the items of all its pages, in the order of the pages.
pub proof fn listing_holds_all_pages(listing: ListingView, pages: Seq<JsonView>)
    ensures
        listing.with_pages(pages).items == listing.items + all_page_items(pages),
        listing.with_pages(pages).url == listing.url,
        listing.with_pages(pages).access_token == listing.access_token,
        listing.with_pages(pages).parameters == listing.parameters,
    decreases pages.len(),
{
    if pages.len() > 0 {
        let front = pages.drop_last();
        listing_holds_all_pages(listing, front);
        assert(listing.items + all_page_items(front) + page_items(pages.last()) =~= listing.items
            + all_page_items(pages));
    } else {
        assert(listing.items + Seq::<JsonView>::empty() =~= listing.items);
    }
}

/// Calendars, events and tasks are only ever read: the request for a page carries no form, and it
/// carries the access token of the list.
pub proof fn listings_only_read(listing: ListingView)
    ensures
        listing.request() matches Ok(request) ==> request.form is None && request.access_token
            == Some(listing.access_token),
{
}

/// What a list of calendars says of one of them: nothing where it has no identity or was deleted.
pub open spec fn calendar_entry() -> spec_fn(JsonView) -> Option<CalendarEntryView> {
    |item: JsonView|
        match item.field_word("id"@) {
            Some(id) => if item.field_flag("deleted"@) {
                None
            } else {
                let name = match item.field("summaryOverride"@) {
                    Some(name) => Some(name),
                    None => item.field("summary"@),
                };
                Some(
                    CalendarEntryView {
                        id,
                        label: match name {
                            Some(name) => match name.text() {
                                Some(label) => label,
                                None => id,
                            },
                            None => id,
                        },
                        color: text_field_or(item, "backgroundColor"@, "#8ab4f8"@),
                        selected: !item.field_flag("hidden"@),
                        primary: item.field_flag("primary"@),
                        default_reminders: JsonView::Array(
                            reminders_in(item.field_items("defaultReminders"@)),
                        ),
                    },
                )
            },
            None => None,
        }
}

fn read_calendar(item: &Json) -> (entry: Option<CalendarEntry>)
    ensures
        match entry {
            Some(entry) => calendar_entry()(item@) == Some(entry@),
            None => calendar_entry()(item@) is None,
        },
{
    let id: &String = match item.get_word("id") {
        Some(id) => id,
        None => return None,
    };
    if item.get_flag("deleted") {
        return None;
    }
    let name: Option<&Json> = match item.get("summaryOverride") {
        Some(name) => Some(name),
        None => item.get("summary"),
    };
    let label: String = match name {
        Some(name) => match name.as_str() {
            Some(label) => label.clone(),
            None => id.clone(),
        },
        None => id.clone(),
    };
    let reminders: Vec<Json> = match item.get_items("defaultReminders") {
        Some(items) => reminder_list(items),
        None => {
            let none: Vec<Json> = Vec::new();
            proof {
                reveal(Seq::filter);
                assert(item@.field_items("defaultReminders"@) =~= Seq::<JsonView>::empty());
                assert(array_view(none@) =~= reminders_in(Seq::<JsonView>::empty()));
            }
            none
        },
    };
    Some(
        CalendarEntry {
            id: id.clone(),
            label,
            color: text_field(item, "backgroundColor", "#8ab4f8"),
            selected: !item.get_flag("hidden"),
            primary: item.get_flag("primary"),
            default_reminders: Json::Array(reminders),
        },
    )
}

/// Reads a list of calendars.
pub fn read_calendars(items: &Vec<Json>) -> (calendars: Vec<CalendarEntry>)
    ensures
        rows(calendars@) == made_of(array_view(items@), calendar_entry()),
{
    let ghost all = array_view(items@);
    let mut calendars: Vec<CalendarEntry> = Vec::new();
    assert(all.take(0) =~= Seq::<JsonView>::empty());
    assert(rows(calendars@) =~= made_of(all.take(0), calendar_entry()));
    for i in 0..items.len()
        invariant
            all == array_view(items@),
            rows(calendars@) == made_of(all.take(i as int), calendar_entry()),
    {
        let ghost before = rows(calendars@);
        assert(all.take(i + 1).drop_last() =~= all.take(i as int));
        assert(all.take(i + 1).last() == items@[i as int]@);
        if let Some(entry) = read_calendar(&items[i]) {
            calendars.push(entry);
            assert(rows(calendars@) =~= before.push(entry@));
        }
    }
    assert(all.take(all.len() as int) =~= all);
    calendars
}

/// What a list of task lists says of one of them: nothing where it has no identity.
pub open spec fn task_list_entry() -> spec_fn(JsonView) -> Option<TaskListEntryView> {
    |item: JsonView|
        match item.field_text("id"@) {
            Some(id) => Some(
                TaskListEntryView {
                    id,
                    label: text_field_or(item, "title"@, "Tasks"@),
                    updated: item.field_text("updated"@),
                },
            ),
            None => None,
        }
}

/// Reads a list of task lists.
pub fn read_task_lists(items: &Vec<Json>) -> (lists: Vec<TaskListEntry>)
    ensures
        rows(lists@) == made_of(array_view(items@), task_list_entry()),
{
    let ghost all = array_view(items@);
    let mut lists: Vec<TaskListEntry> = Vec::new();
    assert(all.take(0) =~= Seq::<JsonView>::empty());
    assert(rows(lists@) =~= made_of(all.take(0), task_list_entry()));
    for i in 0..items.len()
        invariant
            all == array_view(items@),
            rows(lists@) == made_of(all.take(i as int), task_list_entry()),
    {
        let ghost before = rows(lists@);
        assert(all.take(i + 1).drop_last() =~= all.take(i as int));
        assert(all.take(i + 1).last() == items@[i as int]@);
        let item: &Json = &items[i];
        if let Some(id) = item.get_text("id") {
            let entry = TaskListEntry {
                id: id.clone(),
                label: text_field(item, "title", "Tasks"),
                updated: match item.get_text("updated") {
                    Some(updated) => Some(updated.clone()),
                    None => None,
                },
            };
            lists.push(entry);
            assert(rows(lists@) =~= before.push(entry@));
        }
    }
    assert(all.take(all.len() as int) =~= all);
    lists
}

/// Says that a list of events does not tell from where to go on the next time.
pub open spec fn token_missing() -> ErrorView {
    failure("sync_token_missing"@, "Google returned no Calendar sync token"@)
}

impl Listing {
    fn over(url: String, access_token: &str, parameters: Vec<(String, String)>) -> (listing: Listing)
        ensures
            listing@ == new_listing(url@, access_token@, pairs_view(parameters@)),
    {
        let listing = Listing {
            url,
            access_token: access_token.to_owned(),
            parameters,
            items: Vec::new(),
            page_token: None,
        };
        assert(listing@.items =~= Seq::<JsonView>::empty());
        listing
    }

    /// The calendars of an account.
    pub fn calendars(access_token: &str) -> (listing: Listing)
        ensures
            listing@ == new_listing(calendars_url(), access_token@, calendar_query()),
    {
        let mut parameters: Vec<(String, String)> = Vec::new();
        parameters.push(owned_pair("maxResults", "250"));
        parameters.push(owned_pair("showDeleted", "false"));
        parameters.push(owned_pair("showHidden", "false"));
        assert(pairs_view(parameters@) =~= calendar_query());
        Listing::over(
            CALENDAR_API.to_owned().concat("/users/me/calendarList"),
            access_token,
            parameters,
        )
    }

    /// The events of a calendar.
    pub fn events(
        access_token: &str,
        calendar_id: &str,
        sync_token: Option<&str>,
        now: &Timestamp,
    ) -> (listing: Listing)
        requires
            sync_token is Some || can_span(*now),
        ensures
            listing@ == new_listing(
                events_url(calendar_id@),
                access_token@,
                event_query(*now, borrowed_view(sync_token)),
            ),
    {
        let url: String = CALENDAR_API.to_owned().concat("/calendars/").concat(
            encode_path_segment(calendar_id).as_str(),
        ).concat("/events");
        Listing::over(url, access_token, event_parameters(now, sync_token))
    }

    /// The task lists of an account.
    pub fn task_lists(access_token: &str) -> (listing: Listing)
        ensures
            listing@ == new_listing(task_lists_url(), access_token@, task_list_query()),
    {
        let mut parameters: Vec<(String, String)> = Vec::new();
        parameters.push(owned_pair("maxResults", "100"));
        assert(pairs_view(parameters@) =~= task_list_query());
        Listing::over(TASKS_API.to_owned().concat("/users/@me/lists"), access_token, parameters)
    }

    /// The tasks of a list.
    pub fn tasks(access_token: &str, task_list_id: &str) -> (listing: Listing)
        ensures
            listing@ == new_listing(tasks_url(task_list_id@), access_token@, task_query()),
    {
        let mut parameters: Vec<(String, String)> = Vec::new();
        parameters.push(owned_pair("maxResults", "100"));
        parameters.push(owned_pair("showCompleted", "false"));
        parameters.push(owned_pair("showDeleted", "false"));
        parameters.push(owned_pair("showHidden", "false"));
        assert(pairs_view(parameters@) =~= task_query());
        let url: String = TASKS_API.to_owned().concat("/lists/").concat(
            encode_path_segment(task_list_id).as_str(),
        ).concat("/tasks");
        Listing::over(url, access_token, parameters)
    }

    /// The request for the next page.
    pub fn request(&self) -> (request: Result<HttpRequest>)
        ensures
            match request {
                Ok(request) => self@.request() == Ok::<_, ErrorView>(request@),
                Err(error) => self@.request() == Err::<RequestView, _>(error@),
            },
    {
        let mut query: Vec<(String, String)> = Vec::new();
        for i in 0..self.parameters.len()
            invariant
                query@.len() == i,
                forall|j: int|
                    0 <= j < i ==> pairs_view(query@)[j] == #[trigger] pairs_view(
                        self.parameters@,
                    )[j],
        {
            let (name, value) = &self.parameters[i];
            query.push((name.clone(), value.clone()));
        }
        assert(pairs_view(query@) =~= self@.parameters);
        if let Some(token) = &self.page_token {
            let ghost before = pairs_view(query@);
            query.push(owned_pair("pageToken", token.as_str()));
            assert(pairs_view(query@) =~= before.push(pair("pageToken"@, token@)));
        }
        match extend_link(self.url.as_str(), &query) {
            Some(url) => Ok(
                HttpRequest { url, access_token: Some(self.access_token.clone()), form: None },
            ),
            None => Err(CalendarError::new("google_response_invalid", "Google API URL is invalid")),
        }
    }

    /// Takes in an answer.
    pub fn accept(&mut self, reply: &HttpReply) -> (step: ListingStep)
        ensures
            (final(self)@, step@) == old(self)@.after(*reply),
    {
        let page: Json = match read_reply(reply, false) {
            Ok(page) => page,
            Err(error) => return ListingStep::Failed { error },
        };
        let ghost start = array_view(self.items@);
        let ghost fresh = page@.field_items("items"@);
        if let Some(items) = page.get_items("items") {
            assert(fresh.take(0).filter(is_object()) =~= Seq::<JsonView>::empty()) by {
                reveal(Seq::filter);
            }
            assert(start + Seq::<JsonView>::empty() =~= start);
            for i in 0..items.len()
                invariant
                    fresh == array_view(items@),
                    self.url == old(self).url,
                    self.access_token == old(self).access_token,
                    self.parameters == old(self).parameters,
                    array_view(self.items@) == start + fresh.take(i as int).filter(is_object()),
            {
                proof {
                    crate::table::filter_step(fresh, is_object(), i as int);
                }
                if items[i].is_object() {
                    let ghost before = array_view(self.items@);
                    let item: Json = items[i].clone();
                    self.items.push(item);
                    assert(array_view(self.items@) =~= before.push(fresh[i as int]));
                    assert(before.push(fresh[i as int]) =~= start + fresh.take(i + 1).filter(
                        is_object(),
                    ));
                }
            }
            assert(fresh.take(fresh.len() as int) =~= fresh);
        } else {
            assert(fresh =~= Seq::<JsonView>::empty());
            assert(start + page_items(page@) =~= start) by {
                reveal(Seq::filter);
            }
        }
        match page.get_text("nextPageToken") {
            Some(token) => {
                self.page_token = Some(token.clone());
                ListingStep::More
            },
            None => {
                self.page_token = None;
                let sync_token: Option<String> = match page.get_text("nextSyncToken") {
                    Some(token) => Some(token.clone()),
                    None => None,
                };
                ListingStep::Done { sync_token }
            },
        }
    }

    /// The items of the pages so far.
    pub fn items(&self) -> (items: &Vec<Json>)
        ensures
            array_view(items@) == self@.items,
    {
        &self.items
    }

    /// The items of the pages so far.
    pub fn into_items(self) -> (items: Vec<Json>)
        ensures
            array_view(items@) == self@.items,
    {
        self.items
    }
}

/// The token from which a complete list of events goes on the next time.
pub fn required_token(sync_token: Option<String>) -> (token: Result<String>)
    ensures
        match token {
            Ok(token) => sync_token is Some && token@ == sync_token->0@,
            Err(error) => sync_token is None && error@ == token_missing(),
        },
{
    match sync_token {
        Some(token) => Ok(token),
        None => Err(
            CalendarError::new("sync_token_missing", "Google returned no Calendar sync token"),
        ),
    }
}

} // verus!
