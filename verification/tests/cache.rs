use omarchy_calendar::database::{Database, CACHE_DIRECTORY_MODE, CACHE_FILE_MODE};
use omarchy_calendar::error::safe_message;
use omarchy_calendar::flow::{Next, Storing, Surroundings};
use omarchy_calendar::normalize::{normalize_event, normalize_task, stable_item_id};
use omarchy_calendar::protocol::{
    connect_error, default_paths, frame, new_request, notice_message, poll_seconds, probed,
    read_line_limited, read_reply, read_request, request_id_from_line, respond, same_socket,
    socket_step, too_large_response, ClientHub, ConnectFailure, LineRead, LineReader, SocketFact,
    SocketStep, CREATION_MASK, FIRST_POLL_SECONDS, SOCKET_MODE,
};
use omarchy_calendar::time::{
    bounds_between, choose_local, date_at, days_at, iso_now, local_days, older, parse_boundary,
    parse_rfc3339, range_bounds, shifted_text, LocalTime, Timestamp,
};
use omarchy_calendar::{
    CalendarEntry, CalendarError, CalendarService, Json, JsonObject, TaskListEntry,
    MAX_MESSAGE_BYTES,
};

const NOW: &str = "2026-08-31T12:00:00.000000Z";

fn json(text: &str) -> Json {
    Json::parse(text.as_bytes()).unwrap()
}

fn field(value: &Json, key: &str) -> Json {
    value.get(key).cloned().unwrap_or(Json::Null)
}

fn calendar(id: &str, label: &str, primary: bool) -> CalendarEntry {
    CalendarEntry {
        id: id.to_string(),
        label: label.to_string(),
        color: "#123456".to_string(),
        selected: true,
        primary,
        default_reminders: json("[]"),
    }
}

fn list(id: &str) -> TaskListEntry {
    TaskListEntry { id: id.to_string(), label: "Tasks".to_string(), updated: None }
}

fn filled() -> Database {
    let mut database = Database::new("agenda.db");
    database.upsert_account("a1", "s1", "one@example.com", "beta", NOW).unwrap();
    database.upsert_account("a2", "s2", "two@example.com", "Alpha", NOW).unwrap();
    database
        .replace_calendars(
            "a1",
            &vec![
                calendar("c2", "zeta", true),
                calendar("c1", "Eta", false),
                calendar("c3", "alpha", false),
            ],
        )
        .unwrap();
    database
}

fn event(id: &str, start: &str, end: &str) -> Json {
    json(&format!(
        "{{\"id\":\"{id}\",\"summary\":\"{id}\",\"start\":{{\"dateTime\":\"{start}\"}},\"end\":{{\"dateTime\":\"{end}\"}}}}"
    ))
}

#[test]
fn stable_ids_match_python_contract() {
    assert_eq!(
        stable_item_id("event", &["account-1", "primary@example.com", "event-1"]),
        "event:6ef791aa6311f4618f1a5363e63413f18837b1a01b4336b526d335cb0ccee53a"
    );
}

#[test]
fn iso_timestamp_is_rfc3339() {
    assert!(chrono::DateTime::parse_from_rfc3339(&iso_now()).is_ok());
}

#[test]
fn line_reader_rejects_oversized_messages() {
    let bytes = vec![b'a'; MAX_MESSAGE_BYTES + 2];
    assert!(matches!(read_line_limited(bytes.as_slice()), LineRead::TooLarge));
}

#[test]
fn lines_join_across_chunks_and_end_with_the_stream() {
    let mut reader = LineReader::new();
    assert!(matches!(reader.feed(b"{\"a\""), (4, None)));
    let (used, line) = reader.feed(b":1}\r\nrest");
    assert_eq!(used, 5);
    assert!(matches!(line, Some(LineRead::Line { bytes }) if bytes == b"{\"a\":1}"));
    let mut last = LineReader::new();
    last.feed(b"rest");
    assert!(matches!(last.finish(), LineRead::Line { bytes } if bytes == b"rest"));
    assert!(matches!(LineReader::new().finish(), LineRead::Eof));
    let mut long = LineReader::new();
    for _ in 0..3 {
        assert!(matches!(long.feed(&vec![b'a'; MAX_MESSAGE_BYTES]), (_, None)));
    }
    assert!(matches!(long.feed(b"\nnext"), (1, Some(LineRead::TooLarge))));
    assert!(matches!(read_line_limited(b""), LineRead::Eof));
}

#[test]
fn requests_are_refused_by_their_shape() {
    let refused = |line: &str| read_request(line.as_bytes()).unwrap_err();
    let code = |response: &Json| field(&field(response, "error"), "code");
    assert_eq!(code(&refused("{")), Json::text("invalid_json"));
    assert_eq!(code(&refused("[]")), Json::text("invalid_request"));
    let nameless = refused(r#"{"id":7,"method":""}"#);
    assert_eq!(code(&nameless), Json::text("invalid_request"));
    assert_eq!(field(&nameless, "id"), Json::Integer(7));
    assert_eq!(code(&refused(r#"{"method":"m","params":[]}"#)), Json::text("invalid_params"));
    let request = read_request(br#"{"id":"1","method":"m"}"#).unwrap();
    assert_eq!(request.parameters, json("{}"));
    assert_eq!(request_id_from_line(br#"{"id":"1"}"#), Json::text("1"));
    assert_eq!(request_id_from_line(b"{"), Json::Null);
    assert_eq!(code(&too_large_response()), Json::text("message_too_large"));
}

#[test]
fn responses_reach_the_client_that_asked() {
    let (id, request) = new_request("refresh", json("{}"));
    let (other, _) = new_request("refresh", json("{}"));
    assert_ne!(id, other);
    assert_eq!(field(&request, "id"), Json::text(&id));
    let line = |value: &Json| read_line_limited(&frame(value));
    let accepted = respond(Json::text(&id), Ok(json(r#"{"text":"two\nlines"}"#)));
    assert_eq!(
        read_reply(&id, &line(&accepted)).unwrap().unwrap(),
        json(r#"{"text":"two\nlines"}"#)
    );
    assert!(read_reply(&other, &line(&accepted)).is_none());
    let refused = respond(Json::text(&id), Err(CalendarError::new("code", "message")));
    assert_eq!(
        read_reply(&id, &line(&refused)).unwrap().unwrap_err(),
        CalendarError::new("code", "message")
    );
    let news = notice_message(omarchy_calendar::flow::Notice {
        event: "state_changed".to_string(),
        data: json("{}"),
    });
    assert!(read_reply(&id, &line(&news)).is_none());
    let code = |line: LineRead| read_reply(&id, &line).unwrap().unwrap_err().code;
    assert_eq!(code(LineRead::Eof), "daemon_disconnected");
    assert_eq!(code(LineRead::TooLarge), "message_too_large");
    assert_eq!(code(LineRead::Line { bytes: b"{".to_vec() }), "invalid_json");
    let vague = Json::Object(JsonObject::new().with("id", Json::text(&id)));
    assert_eq!(
        read_reply(&id, &line(&vague)).unwrap().unwrap_err(),
        CalendarError::new("daemon_error", "Calendar daemon failed")
    );
}

#[test]
fn daemon_places_are_decided_before_they_are_touched() {
    assert_eq!(connect_error(ConnectFailure::NotFound).code, "daemon_unavailable");
    assert_eq!(connect_error(ConnectFailure::PermissionDenied).code, "daemon_access_denied");
    assert_eq!(
        connect_error(ConnectFailure::Other).message,
        "Could not connect to calendar daemon"
    );
    assert!(matches!(socket_step(SocketFact::Missing, 1), SocketStep::Free));
    let own = SocketFact::Found { uid: 1, is_socket: true };
    assert!(matches!(socket_step(own, 1), SocketStep::Probe));
    assert!(matches!(
        socket_step(own, 2),
        SocketStep::Refused { error } if error.code == "unsafe_socket_path"
    ));
    let file = SocketFact::Found { uid: 1, is_socket: false };
    assert!(matches!(socket_step(file, 1), SocketStep::Refused { .. }));
    assert_eq!(probed(true).unwrap().code, "already_running");
    assert_eq!(probed(false), None);
    assert!(same_socket(1, 2, (1, 2)));
    assert!(!same_socket(1, 3, (1, 2)));
    for _ in 0..100 {
        let seconds = poll_seconds();
        assert!((270..=330).contains(&seconds));
    }
    assert_eq!(FIRST_POLL_SECONDS, 2);
}

#[test]
fn default_paths_follow_the_environment() {
    let paths = default_paths(Some(b"/home/u"), None, None, Some(b"/run/user/1")).unwrap();
    assert_eq!(paths.client, b"/home/u/.config/omarchy/calendar/google-client.json");
    assert_eq!(paths.database, b"/home/u/.local/state/omarchy/calendar/agenda.db");
    assert_eq!(paths.socket, b"/run/user/1/omarchy-calendar.sock");
    let moved =
        default_paths(Some(b"/home/u"), Some(b"/c/"), Some(b"/s"), Some(b"/r")).unwrap();
    assert_eq!(moved.client, b"/c/omarchy/calendar/google-client.json");
    assert_eq!(moved.database, b"/s/omarchy/calendar/agenda.db");
    assert_eq!(
        default_paths(None, None, None, Some(b"/r")).unwrap_err().code,
        "home_unavailable"
    );
    assert_eq!(
        default_paths(Some(b"/h"), None, None, None).unwrap_err().code,
        "runtime_unavailable"
    );
}

#[test]
fn clients_are_numbered_and_forgotten() {
    let mut hub = ClientHub::new();
    let one = hub.register();
    let two = hub.register();
    assert_ne!(one, two);
    assert_eq!(hub.clients(), &vec![one, two]);
    hub.unregister(one);
    assert_eq!(hub.clients(), &vec![two]);
}

#[test]
fn accounts_and_calendars_are_listed_by_label() {
    let database = filled();
    let accounts: Vec<String> =
        database.configured_accounts().into_iter().map(|account| account.label).collect();
    assert_eq!(accounts, vec!["Alpha", "beta"]);
    let calendars: Vec<String> =
        database.calendars("a1").into_iter().map(|calendar| calendar.calendar_id).collect();
    assert_eq!(calendars, vec!["c2", "c3", "c1"]);
    assert_eq!(database.account_by_sub("s2").unwrap().account_id, "a2");
    assert!(database.account_by_sub("s3").is_none());
    assert!(database.account("a3").is_none());
    assert_eq!(database.path(), "agenda.db");
}

#[test]
fn rows_that_conflict_are_refused_as_the_engine_words_it() {
    let connection = rusqlite::Connection::open_in_memory().unwrap();
    connection
        .execute_batch(
            "PRAGMA foreign_keys = ON;
             CREATE TABLE accounts (account_id TEXT PRIMARY KEY, google_sub TEXT NOT NULL UNIQUE);
             CREATE TABLE calendars (
                account_id TEXT NOT NULL, calendar_id TEXT NOT NULL,
                PRIMARY KEY (account_id, calendar_id),
                FOREIGN KEY (account_id) REFERENCES accounts(account_id) ON DELETE CASCADE
             );
             INSERT INTO accounts VALUES ('a1', 's1');",
        )
        .unwrap();
    let unique = connection
        .execute("INSERT INTO accounts VALUES ('a3', 's1')", [])
        .unwrap_err()
        .to_string();
    let foreign = connection
        .execute("INSERT INTO calendars VALUES ('missing', 'c')", [])
        .unwrap_err()
        .to_string();

    let mut database = filled();
    let rival = database.upsert_account("a3", "s1", "e", "l", NOW).unwrap_err();
    assert_eq!(rival.code, "database_error");
    assert_eq!(rival.message, format!("Calendar database error: {unique}"));
    assert!(database.account("a3").is_none());
    let orphan = database.replace_calendars("missing", &vec![calendar("c", "c", false)]);
    assert_eq!(
        orphan.unwrap_err().message,
        format!("Calendar database error: {foreign}")
    );
    let tasks = vec![(
        "l1".to_string(),
        vec![json(r#"{"id":"t","due":"2026-08-31T00:00:00Z"}"#), json(r#"{"id":"t"}"#)],
    )];
    let twice = database.replace_tasks("a1", &vec![list("l1")], &tasks).unwrap_err();
    assert_eq!(
        twice.message,
        "Calendar database error: UNIQUE constraint failed: tasks.account_id, tasks.task_list_id, tasks.task_id"
    );
    assert!(database.stored_tasks().is_empty());
}

#[test]
fn events_are_written_moved_and_dropped() {
    let mut database = filled();
    let first = vec![
        event("e1", "2026-08-31T10:00:00Z", "2026-08-31T11:00:00Z"),
        event("e2", "2026-08-31T12:00:00Z", "2026-08-31T13:00:00Z"),
        json(r#"{"id":"no-times"}"#),
    ];
    database.apply_events("a1", "c1", &first, "t1", true, NOW).unwrap();
    assert_eq!(database.stored_events().len(), 2);
    let row = database.calendars("a1").into_iter().find(|row| row.calendar_id == "c1").unwrap();
    assert_eq!(row.sync_token.as_deref(), Some("t1"));
    assert_eq!(row.full_sync_at.as_deref(), Some(NOW));
    let second = vec![
        json(r#"{"id":"e1","status":"cancelled"}"#),
        event("e2", "2026-09-01T12:00:00Z", "2026-09-01T13:00:00Z"),
    ];
    database.apply_events("a1", "c1", &second, "t2", false, "later").unwrap();
    assert_eq!(database.stored_events().len(), 1);
    assert_eq!(database.stored_events()[0].start, "2026-09-01T12:00:00Z");
    let row = database.calendars("a1").into_iter().find(|row| row.calendar_id == "c1").unwrap();
    assert_eq!(row.full_sync_at.as_deref(), Some(NOW));
    database.clear_calendar_sync("a1", "c1");
    let row = database.calendars("a1").into_iter().find(|row| row.calendar_id == "c1").unwrap();
    assert_eq!(row.sync_token, None);
    database.replace_calendars("a1", &vec![calendar("c2", "zeta", true)]).unwrap();
    assert!(database.stored_events().is_empty());
}

#[test]
fn removing_an_account_takes_everything_of_it() {
    let mut database = filled();
    let events = vec![event("e1", "2026-08-31T10:00:00Z", "2026-08-31T11:00:00Z")];
    database.apply_events("a1", "c1", &events, "t1", true, NOW).unwrap();
    let tasks = vec![("l1".to_string(), vec![json(r#"{"id":"t"}"#)])];
    database.replace_tasks("a1", &vec![list("l1")], &tasks).unwrap();
    assert!(database.delete_account("a1"));
    assert!(!database.delete_account("a1"));
    assert!(database.stored_calendars().is_empty());
    assert!(database.stored_events().is_empty());
    assert!(database.stored_task_lists().is_empty());
    assert!(database.stored_tasks().is_empty());
    assert_eq!(database.stored_accounts().len(), 1);
}

#[test]
fn a_failed_sync_keeps_the_time_of_the_last_success() {
    let mut database = filled();
    database.set_sync_result("a1", None, None, "first");
    database.set_sync_result("a1", Some("network_error"), Some("Could not reach Google"), "second");
    let account = database.account("a1").unwrap();
    assert_eq!(account.last_sync.as_deref(), Some("first"));
    assert_eq!(account.error_code.as_deref(), Some("network_error"));
    let state = Json::Object(database.state(&vec!["a2".to_string()], true));
    assert_eq!(field(&state, "status"), Json::text("syncing"));
    assert_eq!(field(&state, "error"), Json::text("Could not reach Google"));
    assert_eq!(field(&state, "lastSync"), Json::text("first"));
    let idle = Json::Object(database.state(&Vec::new(), true));
    assert_eq!(field(&idle, "status"), Json::text("error"));
    let unset = Json::Object(database.state(&Vec::new(), false));
    assert_eq!(field(&unset, "status"), Json::text("not_configured"));
}

#[test]
fn events_and_tasks_are_normalized() {
    let all_day = normalize_event(
        "a1",
        "c1",
        &json(r#"{"id":"e","start":{"date":"2026-08-31"},"end":{"date":"2026-09-01"}}"#),
    )
    .unwrap();
    assert!(all_day.all_day);
    assert_eq!(all_day.item_id, stable_item_id("event", &["a1", "c1", "e"]));
    assert_eq!(all_day.reminders, "[]");
    assert!(normalize_event("a1", "c1", &json(r#"{"start":{"date":"2026-08-31"}}"#)).is_none());
    let task = normalize_task(
        "a1",
        "l1",
        &json(r#"{"id":"t","title":"T","due":"2026-08-31T00:00:00.000Z","status":"needsAction"}"#),
    )
    .unwrap();
    assert_eq!(task.due_date.as_deref(), Some("2026-08-31"));
    assert_eq!(task.item_id, stable_item_id("task", &["a1", "l1", "t"]));
    assert!(normalize_task("a1", "l1", &json("{}")).is_none());
}

#[test]
fn agendas_are_ordered_and_stay_in_their_range() {
    let mut database = filled();
    let events = vec![
        event("b", "2026-08-31T10:00:00Z", "2026-08-31T11:00:00Z"),
        event("A", "2026-08-31T10:00:00Z", "2026-08-31T11:00:00Z"),
        event("early", "2026-08-31T08:00:00Z", "2026-08-31T09:00:00Z"),
        event("past", "2026-08-30T10:00:00Z", "2026-08-30T11:00:00Z"),
        event("touching", "2026-09-01T00:00:00Z", "2026-09-01T01:00:00Z"),
    ];
    database.apply_events("a1", "c1", &events, "t1", true, NOW).unwrap();
    let bounds = range_bounds("2026-08-31T00:00:00Z", "2026-09-01T00:00:00Z").unwrap();
    let titles: Vec<String> =
        database.agenda_items(&bounds, "all").into_iter().map(|item| item.title).collect();
    assert_eq!(titles, vec!["early", "A", "b"]);
    assert!(database.agenda_items(&bounds, "a2").is_empty());
    let no_syncing: Vec<String> = Vec::new();
    assert_eq!(
        database
            .agenda("2026-08-31T00:00:00Z", "2026-09-01T00:00:00Z", "a3", &no_syncing, true)
            .unwrap_err()
            .code,
        "account_not_found"
    );
    assert_eq!(database.item_url("event:none"), None);
}

#[test]
fn ranges_are_read_as_local_or_absolute_times() {
    let instant = parse_rfc3339("2026-08-31T10:00:00+05:30").unwrap();
    assert_eq!(instant, Timestamp { seconds: 1788150600, nanos: 0 });
    assert_eq!(parse_boundary("2026-08-31T04:30:00Z").unwrap(), instant);
    assert_eq!(parse_boundary("soon").unwrap_err().code, "invalid_params");
    assert!(parse_boundary("2026-08-31").is_ok());
    assert_eq!(
        range_bounds("2026-09-01", "2026-08-31").unwrap_err().message,
        "end must be later than start"
    );
    let later = Timestamp { seconds: 1788150601, nanos: 0 };
    assert_eq!(choose_local(LocalTime::Single(instant)).unwrap(), instant);
    assert_eq!(choose_local(LocalTime::Ambiguous(instant, later)).unwrap(), instant);
    assert_eq!(choose_local(LocalTime::Missing).unwrap_err().code, "invalid_params");
    let date = Some("2026-08-31".to_string());
    assert!(bounds_between(instant, later, date.clone(), date.clone()).is_ok());
    assert!(bounds_between(later, instant, date.clone(), date.clone()).is_err());
    assert!(bounds_between(instant, later, None, date).is_err());
    assert_eq!(
        shifted_text(&instant, 1).unwrap(),
        "2026-09-01T04:30:00.000000Z"
    );
    let week = parse_rfc3339("2026-09-07T04:30:00Z").unwrap();
    assert!(older(&instant, &week, 7));
    assert!(!older(&instant, &week, 8));
}

#[test]
fn json_keeps_what_it_reads() {
    let text = r#"{"a":[1,-2,1.5,18446744073709551615],"b":{"c":"é\n"},"d":null}"#;
    let value = json(text);
    assert_eq!(
        field(&value, "a"),
        Json::Array(vec![
            Json::Integer(1),
            Json::Integer(-2),
            Json::Number("1.5".to_string()),
            Json::Unsigned(18446744073709551615),
        ])
    );
    assert_eq!(json(&value.to_line()), value);
    assert_eq!(
        value.to_line(),
        "{\"a\":[1,-2,1.5,18446744073709551615],\"b\":{\"c\":\"\u{e9}\\n\"},\"d\":null}"
    );
    assert!(Json::parse(b"{\"a\":").is_none());
    assert!(Json::parse(b"\xff").is_none());
    let object = JsonObject::new().with("b", Json::Null).with("a", Json::Null);
    assert_eq!(Json::Object(object).to_line(), "{\"a\":null,\"b\":null}");
}

#[test]
fn messages_are_collapsed_and_cut() {
    assert_eq!(safe_message("  two \n words ", "fallback"), "two words");
    assert_eq!(safe_message(" \t", "fallback"), "fallback");
    assert_eq!(safe_message(&"\u{e9}".repeat(400), "fallback").chars().count(), 300);
    let error = CalendarError::google_http(410, "gone");
    assert_eq!(error.code, "google_http_410");
    assert_eq!(error.to_string(), "gone");
    assert_eq!(
        error.response(Json::text("1")),
        json(r#"{"id":"1","ok":false,"error":{"code":"google_http_410","message":"gone"}}"#)
    );
}

#[test]
fn dates_follow_the_offset_of_the_zone() {
    let instant = parse_rfc3339("2026-08-31T04:30:00Z").unwrap();
    assert_eq!(date_at(&instant, 0).as_deref(), Some("2026-08-31"));
    assert_eq!(date_at(&instant, -18000).as_deref(), Some("2026-08-30"));
    assert_eq!(date_at(&instant, 86399).as_deref(), Some("2026-09-01"));
    let last = Timestamp { seconds: 8210266876799, nanos: 0 };
    assert_eq!(date_at(&last, 1), None);
}

#[test]
fn whole_days_are_read_as_those_days() {
    let bounds = range_bounds("2026-08-31", "2026-09-02").unwrap();
    assert_eq!(bounds.start_date, "2026-08-31");
    assert_eq!(bounds.end_date, "2026-09-02");
    let midnight = parse_rfc3339("2026-08-31T00:00:00Z").unwrap();
    let start = parse_boundary("2026-08-31").unwrap();
    assert_eq!(start, bounds.start);
    assert!((start.seconds - midnight.seconds).abs() < 86400);
    assert_eq!(start.nanos, 0);
    let noon = parse_boundary("2026-08-31 12:00:00.5").unwrap();
    assert_eq!(noon.nanos, 500000000);
    assert!((noon.seconds - midnight.seconds - 43200).abs() < 86400);
}

#[test]
fn today_and_tomorrow_make_a_range() {
    let (today, tomorrow) = local_days();
    assert_eq!(today.len(), 10);
    let bounds = range_bounds(&today, &tomorrow).unwrap();
    assert_eq!((bounds.start_date, bounds.end_date), (today, tomorrow));
}

#[test]
fn whole_days_an_event_covers_are_listed() {
    let mut database = filled();
    let day = |id: &str, start: &str, end: &str| {
        json(&format!(
            "{{\"id\":\"{id}\",\"summary\":\"{id}\",\"start\":{{\"date\":\"{start}\"}},\"end\":{{\"date\":\"{end}\"}}}}"
        ))
    };
    let events = vec![
        day("before", "2026-08-30", "2026-08-31"),
        day("first", "2026-08-31", "2026-09-01"),
        day("last", "2026-09-01", "2026-09-02"),
        day("after", "2026-09-02", "2026-09-03"),
    ];
    database.apply_events("a1", "c1", &events, "t1", true, NOW).unwrap();
    let bounds = range_bounds("2026-08-31", "2026-09-02").unwrap();
    let titles: Vec<String> =
        database.agenda_items(&bounds, "all").into_iter().map(|item| item.title).collect();
    assert_eq!(titles, vec!["first", "last"]);
}

#[test]
fn days_are_counted_towards_zero() {
    let noon = parse_rfc3339("2026-08-31T12:00:00Z").unwrap();
    let nearly = parse_rfc3339("2026-09-01T11:59:59.999Z").unwrap();
    assert!(older(&noon, &nearly, 0));
    assert!(!older(&noon, &nearly, 1));
    assert!(older(&nearly, &noon, 0));
    assert!(!older(&noon, &Timestamp { seconds: i64::MAX, nanos: 0 }, -1));
    assert_eq!(shifted_text(&Timestamp { seconds: i64::MAX, nanos: 0 }, 1), None);
    assert_eq!(
        shifted_text(&Timestamp { seconds: 253402300799, nanos: 0 }, 1).unwrap(),
        "+10000-01-01T23:59:59.000000Z"
    );
}

#[test]
fn one_account_sees_its_part_of_the_agenda() {
    let mut database = filled();
    database.replace_calendars("a2", &vec![calendar("c1", "Shared", true)]).unwrap();
    let at = |id: &str| event(id, "2026-08-31T10:00:00Z", "2026-08-31T11:00:00Z");
    let shared = vec![at("b"), at("a"), at("c")];
    database.apply_events("a1", "c1", &shared, "t1", true, NOW).unwrap();
    database.apply_events("a2", "c1", &shared, "t1", true, NOW).unwrap();
    let tasks = vec![("l1".to_string(), vec![json(r#"{"id":"b","due":"2026-08-31"}"#)])];
    database.replace_tasks("a2", &vec![list("l1")], &tasks).unwrap();
    let bounds = range_bounds("2026-08-30T00:00:00Z", "2026-09-02T00:00:00Z").unwrap();
    let all = database.agenda_items(&bounds, "all");
    assert_eq!(all.len(), 7);
    let mut ids: Vec<String> = all.iter().map(|item| item.id.clone()).collect();
    let own: Vec<String> =
        all.iter().filter(|item| item.account_id == "a2").map(|item| item.id.clone()).collect();
    let alone: Vec<String> =
        database.agenda_items(&bounds, "a2").into_iter().map(|item| item.id).collect();
    assert_eq!(alone, own);
    ids.sort();
    ids.dedup();
    assert_eq!(ids.len(), 7);
}

#[test]
fn links_are_those_that_were_reported_last() {
    let mut database = filled();
    let linked = |link: &str| {
        vec![json(&format!(
            "{{\"id\":\"e\",\"htmlLink\":\"{link}\",\"start\":{{\"date\":\"2026-08-31\"}},\"end\":{{\"date\":\"2026-09-01\"}}}}"
        ))]
    };
    let id = stable_item_id("event", &["a1", "c1", "e"]);
    let url = "https://calendar.google.com/e";
    database.apply_events("a1", "c1", &linked(url), "t1", true, NOW).unwrap();
    assert_eq!(database.item_url(&id).as_deref(), Some(url));
    database.apply_events("a1", "c1", &linked(""), "t2", false, NOW).unwrap();
    assert_eq!(database.item_url(&id), None);
    database.apply_events("a1", "c1", &linked(url), "t3", true, NOW).unwrap();
    assert!(database.delete_account("a1"));
    assert_eq!(database.item_url(&id), None);
}

#[test]
fn restored_rows_stay_as_they_are() {
    let mut database = filled();
    database.set_sync_result("a1", None, Some("invalid_grant"), NOW);
    let restored = |from: &Database| {
        Database::restore(
            "agenda.db",
            from.stored_accounts().clone(),
            from.stored_calendars().clone(),
            from.stored_events().clone(),
            from.stored_task_lists().clone(),
            from.stored_tasks().clone(),
        )
    };
    let once = restored(&database);
    assert_eq!(once.account("a1").unwrap().error_code.as_deref(), Some("credentials_expired"));
    let twice = restored(&once);
    assert_eq!(twice.stored_accounts(), once.stored_accounts());
    assert_eq!(twice.stored_calendars(), database.stored_calendars());
}

#[test]
fn labels_end_at_a_zero_character_and_then_go_by_length() {
    let mut database = Database::new("agenda.db");
    database.upsert_account("a1", "s1", "one@example.com", "a\0aa", NOW).unwrap();
    database.upsert_account("a2", "s2", "two@example.com", "A\0b", NOW).unwrap();
    database.upsert_account("a3", "s3", "three@example.com", "AB", NOW).unwrap();
    database.upsert_account("a4", "s4", "four@example.com", "a", NOW).unwrap();
    let listed: Vec<String> =
        database.configured_accounts().into_iter().map(|account| account.account_id).collect();
    assert_eq!(listed, vec!["a4", "a2", "a1", "a3"]);
}

#[test]
fn numbers_are_echoed_as_they_were_read() {
    for text in [
        "1.5",
        "-0.0",
        "1e300",
        "9.3170532238714134e-113",
        "1.2345678901234567e305",
        "5.0e-324",
        "18446744073709551615",
        "18446744073709551616",
    ] {
        let echoed = serde_json::from_str::<serde_json::Value>(text).unwrap().to_string();
        assert_eq!(json(text).to_line(), echoed);
    }
}

#[test]
fn drawn_identities_have_the_form_of_a_uuid() {
    let first = Surroundings::observe(true).fresh_id;
    let second = Surroundings::observe(true).fresh_id;
    assert_ne!(first, second);
    assert_eq!(first.len(), 36);
    for (i, c) in first.chars().enumerate() {
        if [8, 13, 18, 23].contains(&i) {
            assert_eq!(c, '-');
        } else {
            assert!(c.is_ascii_hexdigit() && !c.is_ascii_uppercase());
        }
    }
}

#[test]
fn polling_needs_an_account() {
    let world = Surroundings::observe(true);
    let mut service = CalendarService::new(Database::new("agenda.db"));
    assert!(service.poll(&world).is_none());
    service.put_back(filled());
    assert_eq!(service.database().stored_accounts().len(), 2);
    assert!(service.poll(&world).is_some());
}

#[test]
fn today_and_tomorrow_follow_the_offset() {
    let noon = parse_rfc3339("2026-12-31T12:00:00Z").unwrap();
    let days = |offset: i32| days_at(&noon, offset);
    assert_eq!(days(0), ("2026-12-31".to_string(), "2027-01-01".to_string()));
    assert_eq!(days(43200), ("2027-01-01".to_string(), "2027-01-02".to_string()));
    assert_eq!(days(-43201), ("2026-12-30".to_string(), "2026-12-31".to_string()));
}

#[test]
fn reminders_that_cannot_be_read_back_are_empty() {
    let mut database = filled();
    let deep = format!("{}{}", "[".repeat(125), "]".repeat(125));
    let entry = CalendarEntry { default_reminders: json(&deep), ..calendar("c1", "Eta", true) };
    let nested = CalendarEntry {
        default_reminders: Json::Array(vec![Json::Array(vec![Json::Array(vec![json(&deep)])])]),
        ..calendar("c2", "Zeta", false)
    };
    database.replace_calendars("a1", &vec![entry, nested]).unwrap();
    let reported = vec![json(
        r#"{"id":"e","reminders":{"useDefault":true},"start":{"date":"2026-08-31"},"end":{"date":"2026-09-01"}}"#,
    )];
    database.apply_events("a1", "c1", &reported, "t1", true, NOW).unwrap();
    database.apply_events("a1", "c2", &reported, "t1", true, NOW).unwrap();
    let bounds = range_bounds("2026-08-30", "2026-09-02").unwrap();
    let shown: Vec<(String, Json)> = database
        .agenda_items(&bounds, "all")
        .into_iter()
        .map(|item| (item.calendar_id, item.reminders))
        .collect();
    assert_eq!(shown.len(), 2);
    assert!(shown.contains(&("c1".to_string(), json(&deep))));
    assert!(shown.contains(&("c2".to_string(), json("[]"))));
}

#[test]
fn events_of_one_calendar_leave_the_others() {
    let mut database = filled();
    let at = |id: &str| event(id, "2026-08-31T10:00:00Z", "2026-08-31T11:00:00Z");
    database.apply_events("a1", "c1", &vec![at("one")], "t1", true, NOW).unwrap();
    database.apply_events("a1", "c2", &vec![at("two")], "t2", true, NOW).unwrap();
    database.apply_events("a1", "c1", &Vec::new(), "t3", true, NOW).unwrap();
    assert_eq!(database.stored_events().len(), 1);
    assert_eq!(database.stored_events()[0].event_id, "two");
    let token = |id: &str| {
        let calendars = database.stored_calendars();
        calendars.iter().find(|calendar| calendar.calendar_id == id).unwrap().sync_token.clone()
    };
    assert_eq!(token("c2").as_deref(), Some("t2"));
    assert_eq!(token("c1").as_deref(), Some("t3"));
}

#[test]
fn timed_events_do_not_depend_on_the_dates_of_a_range() {
    let mut database = filled();
    let timed = vec![event("e", "2026-08-31T10:00:00Z", "2026-08-31T11:00:00Z")];
    database.apply_events("a1", "c1", &timed, "t1", true, NOW).unwrap();
    let start = parse_rfc3339("2026-08-31T00:00:00Z").unwrap();
    let end = parse_rfc3339("2026-09-01T00:00:00Z").unwrap();
    for (from, to) in [("2026-08-30", "2026-08-31"), ("2026-08-31", "2026-09-01")] {
        let bounds =
            bounds_between(start, end, Some(from.to_string()), Some(to.to_string())).unwrap();
        assert_eq!(database.agenda_items(&bounds, "all").len(), 1);
    }
}

#[test]
fn what_is_kept_is_private() {
    assert_eq!(CACHE_FILE_MODE, 0o600);
    assert_eq!(CACHE_DIRECTORY_MODE, 0o700);
    assert_eq!(SOCKET_MODE, 0o600);
    assert_eq!(CREATION_MASK, 0o077);
}

#[test]
fn an_account_without_a_name_is_not_synchronized() {
    let mut database = Database::new("agenda.db");
    database.upsert_account("", "s1", "one@example.com", "One", NOW).unwrap();
    let mut service = CalendarService::new(database);
    let run = Storing {
        account_id: String::new(),
        subject: "s1".to_string(),
        email: "one@example.com".to_string(),
        label: "One".to_string(),
        known: true,
        reconnect: false,
    };
    let turn = service.stored(run, Ok(()), &Surroundings::observe(true));
    let Next::Finished { result } = turn.next else {
        panic!("the request is answered");
    };
    let error = result.unwrap_err();
    assert_eq!(error.code, "invalid_params");
    assert_eq!(error.message, "accountId must be a string");
}

#[test]
fn a_day_lists_its_own_whole_day_events_and_tasks() {
    let mut database = Database::new("agenda.db");
    database.upsert_account("a", "s", "m", "L", NOW).unwrap();
    database.replace_calendars("a", &vec![calendar("c", "", true)]).unwrap();
    let day = |start: &str, end: &str| {
        json(&format!(
            "{{\"id\":\"{start}\",\"start\":{{\"date\":\"{start}\"}},\"end\":{{\"date\":\"{end}\"}}}}"
        ))
    };
    let events = vec![
        day("2026-08-30", "2026-08-31"),
        day("2026-08-31", "2026-09-01"),
        day("2026-09-01", "2026-09-02"),
    ];
    database.apply_events("a", "c", &events, "k", true, NOW).unwrap();
    let no_syncing: Vec<String> = Vec::new();
    let answer = database.agenda("2026-08-31", "2026-09-01", "all", &no_syncing, true).unwrap();
    let items = answer.get_items("items").unwrap();
    assert_eq!(items.len(), 1);
    assert_eq!(field(&items[0], "start"), Json::text("2026-08-31"));
    let due = |id: &str, date: &str| json(&format!("{{\"id\":\"{id}\",\"due\":\"{date}\"}}"));
    let tasks = vec![(
        "l".to_string(),
        vec![due("x", "2026-08-30"), due("y", "2026-08-31"), due("z", "2026-09-01")],
    )];
    database.replace_tasks("a", &vec![list("l")], &tasks).unwrap();
    let bounds = range_bounds("2026-08-31", "2026-09-01").unwrap();
    let dates: Vec<Option<String>> =
        database.agenda_items(&bounds, "all").into_iter().map(|item| item.due_date).collect();
    assert_eq!(dates.len(), 2);
    assert!(dates.contains(&Some("2026-08-31".to_string())));
}

#[test]
fn local_times_have_the_dates_they_are_written_with() {
    let bounds = range_bounds("2026-08-31T23:30:00", "2026-09-02 00:30:00").unwrap();
    assert_eq!(bounds.start_date, "2026-08-31");
    assert_eq!(bounds.end_date, "2026-09-02");
    let signed = range_bounds("+2026-8-31", "2026-09-01").unwrap();
    assert_eq!(signed.start_date, "2026-08-31");
}

#[test]
fn the_state_tells_errors_without_their_codes() {
    let mut database = filled();
    database.set_sync_result("a1", Some("network_error"), Some("Could not reach Google"), NOW);
    let state = Json::Object(database.state(&Vec::new(), true));
    let accounts = state.get_items("accounts").unwrap();
    let failed = accounts.iter().find(|account| field(account, "id") == Json::text("a1")).unwrap();
    assert_eq!(field(failed, "error"), Json::text("Could not reach Google"));
    assert!(failed.get("errorCode").is_none());
}
