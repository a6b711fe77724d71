//! How events and tasks that Google reports become rows of the cache.
use vstd::prelude::*;
use vstd::utf8::encode_utf8;

use crate::json::{
    array_view, compact_text, reads_back, value_or_empty, Json, JsonObject, JsonView,
};
use crate::records::{StoredEvent, StoredEventView, StoredTask, StoredTaskView};
use crate::text::{first_chars, hex, hex_text, take_chars};

verus! {

broadcast use crate::json::group_json;

/// The SHA-256 digest that `sha2` computes.
pub uninterp spec fn sha256_digest(data: Seq<u8>) -> Seq<u8>;

/// Hashes bytes with `sha2::Sha256::digest`. The digest is a function of the bytes alone and
/// takes 32 bytes.
#[verifier::external_body]
pub(crate) fn sha256(data: &[u8]) -> (digest: Vec<u8>)
    ensures
        digest@ == sha256_digest(data@),
        digest@.len() == 32,
{
    <sha2::Sha256 as sha2::Digest>::digest(data).to_vec()
}

/// Texts as bytes, one after the other, with a zero byte between neighbours.
pub open spec fn zero_joined(parts: Seq<Seq<char>>) -> Seq<u8>
    decreases parts.len(),
{
    if parts.len() == 0 {
        Seq::empty()
    } else if parts.len() == 1 {
        encode_utf8(parts[0])
    } else {
        zero_joined(parts.drop_last()).push(0) + encode_utf8(parts.last())
    }
}

/// The views of a list of borrowed texts.
pub open spec fn str_views(parts: Seq<&str>) -> Seq<Seq<char>> {
    parts.map_values(|part: &str| part@)
}

/// The identity of an agenda item: its kind, and the digest of where it comes from.
pub open spec fn item_id(kind: Seq<char>, parts: Seq<Seq<char>>) -> Seq<char> {
    kind + ":"@ + hex(sha256_digest(zero_joined(parts)))
}

/// An event and a task never have the same identity.
pub proof fn kinds_keep_apart(event: Seq<Seq<char>>, task: Seq<Seq<char>>)
    ensures
        item_id("event"@, event) != item_id("task"@, task),
{
    reveal_strlit("event");
    reveal_strlit("task");
    assert(item_id("event"@, event)[0] == 'e');
    assert(item_id("task"@, task)[0] == 't');
}

/// Computes the identity of an agenda item.
pub fn stable_item_id(kind: &str, parts: &[&str]) -> (id: String)
    ensures
        id@ == item_id(kind@, str_views(parts@)),
{
    let mut data: Vec<u8> = Vec::new();
    for i in 0..parts.len()
        invariant
            data@ == zero_joined(str_views(parts@).take(i as int)),
    {
        let ghost next = str_views(parts@).take(i + 1);
        assert(next.drop_last() =~= str_views(parts@).take(i as int));
        assert(next.last() == parts@[i as int]@);
        if i > 0 {
            data.push(0);
        }
        let bytes: Vec<u8> = parts[i].as_bytes_vec();
        let mut tail: Vec<u8> = bytes;
        data.append(&mut tail);
        assert(i == 0 ==> data@ =~= encode_utf8(next[0]));
    }
    assert(str_views(parts@).take(parts@.len() as int) =~= str_views(parts@));
    let digest: Vec<u8> = sha256(data.as_slice());
    kind.to_owned().concat(":").concat(hex_text(digest.as_slice()).as_str())
}

/// A value as plain text: a text as it is, anything else as compact JSON.
pub open spec fn plain_text(value: JsonView) -> Seq<char> {
    match value {
        JsonView::Text(text) => text,
        other => compact_text(other),
    }
}

/// A field as plain text; none where it is missing or null.
pub open spec fn optional_field(value: JsonView, field: Seq<char>) -> Option<Seq<char>> {
    match value.field(field) {
        None => None,
        Some(JsonView::Null) => None,
        Some(value) => Some(plain_text(value)),
    }
}

/// A field as plain text; a fallback where it is missing, null or empty.
pub open spec fn field_or(value: JsonView, field: Seq<char>, fallback: Seq<char>) -> Seq<char> {
    match optional_field(value, field) {
        Some(text) => if text.len() > 0 {
            text
        } else {
            fallback
        },
        None => fallback,
    }
}

/// Reads a field as plain text, where it is there and not null.
pub fn optional_string_field(value: &Json, field: &str) -> (text: Option<String>)
    ensures
        crate::text::optional_view(text) == optional_field(value@, field@),
{
    match value.get(field) {
        None => None,
        Some(Json::Null) => None,
        Some(Json::Text(text)) => Some(text.clone()),
        Some(other) => Some(other.to_line()),
    }
}

/// Reads a field as plain text, or takes a fallback.
pub fn string_field(value: &Json, field: &str, fallback: &str) -> (text: String)
    ensures
        text@ == field_or(value@, field@, fallback@),
{
    match optional_string_field(value, field) {
        Some(text) => if text.as_str().is_empty() {
            fallback.to_owned()
        } else {
            text
        },
        None => fallback.to_owned(),
    }
}

/// A reminder: how it is given, and how many minutes ahead.
pub open spec fn reminder(value: JsonView) -> JsonView {
    JsonView::Object(
        Map::empty().insert(
            "method"@,
            JsonView::Text(
                match value.field_text("method"@) {
                    Some(method) => method,
                    None => "popup"@,
                },
            ),
        ).insert(
            "minutes"@,
            match value.field("minutes"@) {
                Some(JsonView::Integer(minutes)) => JsonView::Integer(minutes),
                _ => JsonView::Integer(0),
            },
        ),
    )
}

/// Whether a value is an object.
pub open spec fn is_object() -> spec_fn(JsonView) -> bool {
    |value: JsonView| value is Object
}

/// The reminders in a list: one for each object in it.
pub open spec fn reminders_in(items: Seq<JsonView>) -> Seq<JsonView> {
    items.filter(is_object()).map_values(|value: JsonView| reminder(value))
}

/// Reads the reminders in a list.
pub fn reminder_list(items: &Vec<Json>) -> (reminders: Vec<Json>)
    ensures
        array_view(reminders@) == reminders_in(array_view(items@)),
{
    let mut reminders: Vec<Json> = Vec::new();
    let ghost views = array_view(items@);
    assert(array_view(reminders@) =~= reminders_in(views.take(0))) by {
        reveal(Seq::filter);
    }
    for i in 0..items.len()
        invariant
            views == array_view(items@),
            array_view(reminders@) == reminders_in(views.take(i as int)),
    {
        let item: &Json = &items[i];
        proof {
            crate::table::filter_step(views, is_object(), i as int);
        }
        if item.is_object() {
            let method: String = match item.get_text("method") {
                Some(method) => method.clone(),
                None => "popup".to_owned(),
            };
            let minutes: i64 = match item.get("minutes") {
                Some(Json::Integer(minutes)) => *minutes,
                _ => 0,
            };
            let ghost before = reminders@;
            let entry: Json = Json::Object(
                JsonObject::new().with("method", Json::Text(method)).with(
                    "minutes",
                    Json::Integer(minutes),
                ),
            );
            reminders.push(entry);
            proof {
                assert(entry@ == reminder(item@));
                assert(array_view(reminders@) =~= array_view(before).push(entry@));
                assert(reminders_in(views.take(i + 1)) =~= reminders_in(views.take(i as int)).push(
                    reminder(views[i as int]),
                ));
            }
        }
    }
    assert(views.take(views.len() as int) =~= views);
    reminders
}

/// Says that the reminders of the calendar apply.
pub open spec fn use_default() -> JsonView {
    JsonView::Array(
        seq![JsonView::Object(Map::empty().insert("useDefault"@, JsonView::Bool(true)))],
    )
}

/// The reminders of an event: those of its calendar where it says so, else its own.
pub open spec fn event_reminders(event: JsonView) -> JsonView {
    match event.field("reminders"@) {
        Some(reminders) => if reminders.field_flag("useDefault"@) {
            use_default()
        } else {
            JsonView::Array(reminders_in(reminders.field_items("overrides"@)))
        },
        None => JsonView::Array(Seq::empty()),
    }
}

/// The time at which an occurrence was first planned, where Google says it.
pub open spec fn original_start(event: JsonView) -> Option<Seq<char>> {
    match event.field("originalStartTime"@) {
        Some(original) => match original.field("dateTime"@) {
            Some(time) => time.text(),
            None => original.field_text("date"@),
        },
        None => None,
    }
}

/// Whether an event takes whole days.
pub open spec fn is_all_day(event: JsonView) -> bool {
    match event.field("start"@) {
        Some(start) => start.field("date"@) is Some,
        None => false,
    }
}

/// The start or the end of an event as text: a date for an event of whole days, else a time.
pub open spec fn event_time(event: JsonView, side: Seq<char>) -> Option<Seq<char>> {
    match event.field(side) {
        Some(value) => value.field_text(
            if is_all_day(event) {
                "date"@
            } else {
                "dateTime"@
            },
        ),
        None => None,
    }
}

/// The row of an event; none where it has no identity, start or end.
pub open spec fn event_row(
    account_id: Seq<char>,
    calendar_id: Seq<char>,
    event: JsonView,
) -> Option<StoredEventView> {
    let event_id = field_or(event, "id"@, ""@);
    match (event_time(event, "start"@), event_time(event, "end"@)) {
        (Some(start), Some(end)) => if event_id.len() == 0 {
            None
        } else {
            Some(
                StoredEventView {
                    item_id: item_id("event"@, seq![account_id, calendar_id, event_id]),
                    account_id,
                    calendar_id,
                    event_id,
                    ical_uid: optional_field(event, "iCalUID"@),
                    occurrence_start: match original_start(event) {
                        Some(original) => Some(original),
                        None => Some(start),
                    },
                    title: field_or(event, "summary"@, "(Untitled event)"@),
                    start,
                    end,
                    all_day: is_all_day(event),
                    location: field_or(event, "location"@, ""@),
                    url: field_or(event, "htmlLink"@, ""@),
                    reminders: compact_text(event_reminders(event)),
                    updated: optional_field(event, "updated"@),
                },
            )
        },
        _ => None,
    }
}

fn reminders_of(event: &Json) -> (reminders: Json)
    ensures
        reminders@ == event_reminders(event@),
{
    match event.get("reminders") {
        Some(reminders) => {
            if reminders.get_flag("useDefault") {
                let mut marker: Vec<Json> = Vec::new();
                marker.push(Json::Object(JsonObject::new().with("useDefault", Json::Bool(true))));
                let result: Json = Json::Array(marker);
                assert(array_view(marker@) =~= seq![marker@[0]@]);
                result
            } else {
                match reminders.get_items("overrides") {
                    Some(items) => Json::Array(reminder_list(items)),
                    None => {
                        let none: Vec<Json> = Vec::new();
                        assert(reminders_in(reminders@.field_items("overrides"@)) =~= Seq::<
                            JsonView,
                        >::empty()) by {
                            reveal(Seq::filter);
                        }
                        assert(array_view(none@) =~= Seq::<JsonView>::empty());
                        Json::Array(none)
                    },
                }
            }
        },
        None => {
            let none: Vec<Json> = Vec::new();
            assert(array_view(none@) =~= Seq::<JsonView>::empty());
            Json::Array(none)
        },
    }
}

fn original_start_of(event: &Json) -> (start: Option<String>)
    ensures
        crate::text::optional_view(start) == original_start(event@),
{
    match event.get("originalStartTime") {
        Some(original) => match original.get("dateTime") {
            Some(time) => match time.as_str() {
                Some(text) => Some(text.clone()),
                None => None,
            },
            None => match original.get_text("date") {
                Some(text) => Some(text.clone()),
                None => None,
            },
        },
        None => None,
    }
}

/// Makes the row of an event.
pub fn normalize_event(account_id: &str, calendar_id: &str, event: &Json) -> (row: Option<
    StoredEvent,
>)
    ensures
        match row {
            Some(row) => event_row(account_id@, calendar_id@, event@) == Some(row@) && (reads_back(
                event_reminders(event@),
                100,
            ) ==> value_or_empty(row@.reminders) == event_reminders(event@)),
            None => event_row(account_id@, calendar_id@, event@) is None,
        },
{
    let start_value: &Json = match event.get("start") {
        Some(value) => value,
        None => return None,
    };
    let end_value: &Json = match event.get("end") {
        Some(value) => value,
        None => return None,
    };
    let all_day: bool = start_value.get("date").is_some();
    let key: &str = if all_day { "date" } else { "dateTime" };
    let start: String = match start_value.get_text(key) {
        Some(text) => text.clone(),
        None => return None,
    };
    let end: String = match end_value.get_text(key) {
        Some(text) => text.clone(),
        None => return None,
    };
    let event_id: String = string_field(event, "id", "");
    if event_id.as_str().is_empty() {
        return None;
    }
    let occurrence_start: String = match original_start_of(event) {
        Some(original) => original,
        None => start.clone(),
    };
    let parts: [&str; 3] = [account_id, calendar_id, event_id.as_str()];
    assert(str_views(parts@) =~= seq![account_id@, calendar_id@, event_id@]);
    Some(
        StoredEvent {
            item_id: stable_item_id("event", &parts),
            account_id: account_id.to_owned(),
            calendar_id: calendar_id.to_owned(),
            event_id: event_id.clone(),
            ical_uid: optional_string_field(event, "iCalUID"),
            occurrence_start: Some(occurrence_start),
            title: string_field(event, "summary", "(Untitled event)"),
            start,
            end,
            all_day,
            location: string_field(event, "location", ""),
            url: string_field(event, "htmlLink", ""),
            reminders: reminders_of(event).to_line(),
            updated: optional_string_field(event, "updated"),
        },
    )
}

/// The row of a task; none where it has no identity, was deleted or is hidden.
pub open spec fn task_row(
    account_id: Seq<char>,
    task_list_id: Seq<char>,
    task: JsonView,
) -> Option<StoredTaskView> {
    let task_id = field_or(task, "id"@, ""@);
    if task_id.len() == 0 || task.field_flag("deleted"@) || task.field_flag("hidden"@) {
        None
    } else {
        Some(
            StoredTaskView {
                item_id: item_id("task"@, seq![account_id, task_list_id, task_id]),
                account_id,
                task_list_id,
                task_id,
                title: field_or(task, "title"@, "(Untitled task)"@),
                due_date: match optional_field(task, "due"@) {
                    Some(due) => Some(first_chars(due, 10)),
                    None => None,
                },
                status: field_or(task, "status"@, "needsAction"@),
                url: field_or(task, "webViewLink"@, ""@),
                notes: field_or(task, "notes"@, ""@),
                updated: optional_field(task, "updated"@),
            },
        )
    }
}

/// Makes the row of a task.
pub fn normalize_task(account_id: &str, task_list_id: &str, task: &Json) -> (row: Option<
    StoredTask,
>)
    ensures
        match row {
            Some(row) => task_row(account_id@, task_list_id@, task@) == Some(row@),
            None => task_row(account_id@, task_list_id@, task@) is None,
        },
{
    let task_id: String = string_field(task, "id", "");
    if task_id.as_str().is_empty() || task.get_flag("deleted") || task.get_flag("hidden") {
        return None;
    }
    let due_date: Option<String> = match optional_string_field(task, "due") {
        Some(due) => Some(take_chars(due.as_str(), 10)),
        None => None,
    };
    let parts: [&str; 3] = [account_id, task_list_id, task_id.as_str()];
    assert(str_views(parts@) =~= seq![account_id@, task_list_id@, task_id@]);
    Some(
        StoredTask {
            item_id: stable_item_id("task", &parts),
            account_id: account_id.to_owned(),
            task_list_id: task_list_id.to_owned(),
            task_id: task_id.clone(),
            title: string_field(task, "title", "(Untitled task)"),
            due_date,
            status: string_field(task, "status", "needsAction"),
            url: string_field(task, "webViewLink", ""),
            notes: string_field(task, "notes", ""),
            updated: optional_string_field(task, "updated"),
        },
    )
}

} // verus!
