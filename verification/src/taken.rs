//! What is made of what comes in.
use vstd::prelude::*;
use vstd::utf8::{decode_utf8, valid_utf8};

use crate::browser::{
    brave_among, brave_processes, fields_of, inspection, parse_listening_singleton_sockets,
    pid_named, pids_view, socket_in, BrowserOpenResult, ProcessSeen, SocketView,
    UnixSocketEntry,
};
use crate::bytes::{file_name, is_absolute, pieces};
use crate::entries::{
    AuthResult, CalendarEntry, CalendarEntryView, TaskListEntry, TaskListEntryView,
};
use crate::error::{shown_message, CalendarError, Result};
use crate::google::{
    calendar_entry, read_calendars, read_task_lists, required_token, task_list_entry,
};
use crate::http::{body_limit, read_reply, HttpReply, HttpRequest};
use crate::json::{array_view, json_of_bytes, Json, JsonView};
use crate::link::link_of;
use crate::oauth::{
    callback_complete, callback_link, read_access_token, revoke_request, revoked, sign_in_shown,
    stop_waiting, Callback, Credentials, OAuthAttempt, OAuthPhase, SignIn,
};
use crate::protocol::{
    connect_error, probed, same_socket, socket_step, too_large_response, ConnectFailure,
    SocketFact, SocketStep,
};
use crate::table::{made_rows, rows};
use crate::text::{decimal, lines_of, unsigned_value, words};
use crate::time::{
    bounds_between, choose_local, day_text, days_at, in_calendar, micros_text, midnight, older,
    read_boundary, rfc3339, shifted_text, wall_clock, Boundary, LocalTime, RangeBounds,
    Timestamp,
};

verus! {

broadcast use crate::json::group_json;

/// A process list gives the numbers of all processes in it that are Brave, and of no others; it gives
/// none at all where an entry could not be read, or a process in it is not safe.
pub proof fn all_brave_processes_are_found(
    seen: &Vec<Option<ProcessSeen>>,
    uid: u32,
    executable: &[u8],
    pids: Option<Vec<i32>>,
    pid: nat,
)
    requires
        call_ensures(brave_processes, (seen, uid, executable), pids),
    ensures
        pids is None <==> exists|i: int|
            0 <= i < seen@.len() && is_alarming(#[trigger] seen@[i], uid, executable@),
        pids matches Some(pids) ==> (pids_view(pids@).contains(pid) <==> exists|i: int|
            0 <= i < seen@.len() && is_brave(#[trigger] seen@[i], uid, executable@, pid)),
{
    found_among(seen@, uid, executable@, pid);
}

/// Whether an entry of the process list stops the search.
pub open spec fn is_alarming(entry: Option<ProcessSeen>, uid: u32, executable: Seq<u8>) -> bool {
    match entry {
        None => true,
        Some(process) => pid_named(process.name@) is Some && inspection(
            process.facts,
            uid,
            executable,
        ) is Unsafe,
    }
}

/// Whether an entry of the process list is a Brave process with a number.
pub open spec fn is_brave(
    entry: Option<ProcessSeen>,
    uid: u32,
    executable: Seq<u8>,
    pid: nat,
) -> bool {
    entry matches Some(process) && pid_named(process.name@) == Some(pid) && inspection(
        process.facts,
        uid,
        executable,
    ) is Brave
}

proof fn found_among(seen: Seq<Option<ProcessSeen>>, uid: u32, executable: Seq<u8>, pid: nat)
    ensures
        brave_among(seen, uid, executable) is None <==> exists|i: int|
            0 <= i < seen.len() && is_alarming(#[trigger] seen[i], uid, executable),
        brave_among(seen, uid, executable) matches Some(pids) ==> (pids.contains(pid)
            <==> exists|i: int|
            0 <= i < seen.len() && is_brave(#[trigger] seen[i], uid, executable, pid)),
    decreases seen.len(),
{
    if seen.len() > 0 {
        let front = seen.drop_last();
        let last = seen.len() - 1;
        found_among(front, uid, executable, pid);
        assert(forall|i: int| 0 <= i < front.len() ==> front[i] == #[trigger] seen[i]);
        assert(seen[last] == seen.last());
        if exists|i: int|
            0 <= i < front.len() && is_alarming(#[trigger] front[i], uid, executable) {
            let i = choose|i: int|
                0 <= i < front.len() && is_alarming(#[trigger] front[i], uid, executable);
            assert(is_alarming(seen[i], uid, executable));
        }
        if exists|i: int| 0 <= i < seen.len() && is_alarming(#[trigger] seen[i], uid, executable) {
            let i = choose|i: int|
                0 <= i < seen.len() && is_alarming(#[trigger] seen[i], uid, executable);
            if i < last {
                assert(is_alarming(front[i], uid, executable));
            }
        }
        if let Some(pids) = brave_among(seen, uid, executable) {
            let before = brave_among(front, uid, executable)->0;
            let extended = before.push(pid);
            assert(extended[before.len() as int] == pid);
            assert(pids.contains(pid) <==> before.contains(pid) || is_brave(
                seen[last],
                uid,
                executable,
                pid,
            )) by {
                if before.contains(pid) {
                    let k = choose|k: int| 0 <= k < before.len() && before[k] == pid;
                    assert(pids[k] == pid);
                }
                if pids.contains(pid) {
                    let k = choose|k: int| 0 <= k < pids.len() && pids[k] == pid;
                    if k < before.len() {
                        assert(before[k] == pid);
                    }
                }
                if is_brave(seen[last], uid, executable, pid) {
                    assert(pids == extended);
                }
            }
            if before.contains(pid) {
                let i = choose|i: int|
                    0 <= i < front.len() && is_brave(#[trigger] front[i], uid, executable, pid);
                assert(is_brave(seen[i], uid, executable, pid));
            }
            if exists|i: int|
                0 <= i < seen.len() && is_brave(#[trigger] seen[i], uid, executable, pid) {
                let i = choose|i: int|
                    0 <= i < seen.len() && is_brave(#[trigger] seen[i], uid, executable, pid);
                if i < last {
                    assert(is_brave(front[i], uid, executable, pid));
                }
            }
        }
    }
}

/// The kernel's list gives exactly the sockets of its lines that are streams, listen, are not
/// connected, and are bound to an absolute path with the name of Brave's socket.
pub proof fn all_listening_sockets_are_found(
    content: &[u8],
    entries: Vec<UnixSocketEntry>,
    socket: SocketView,
)
    requires
        call_ensures(parse_listening_singleton_sockets, (content,), entries),
    ensures
        rows(entries@).contains(socket) <==> exists|i: int|
            0 <= i < pieces(content@, 10).len() && is_socket_line(
                #[trigger] pieces(content@, 10)[i],
                socket,
            ),
{
    let list = pieces(content@, 10);
    made_rows(list, socket_in());
    assert forall|line: Seq<u8>| is_socket_line(line, socket) == (socket_in()(line) == Some(
        socket,
    )) by {}
    if exists|i: int| 0 <= i < list.len() && is_socket_line(#[trigger] list[i], socket) {
        let i = choose|i: int| 0 <= i < list.len() && is_socket_line(#[trigger] list[i], socket);
        assert(socket_in()(list[i]) == Some(socket));
    }
    if rows(entries@).contains(socket) {
        let i = choose|i: int| 0 <= i < list.len() && socket_in()(#[trigger] list[i]) == Some(socket);
        assert(is_socket_line(list[i], socket));
    }
}

/// Whether a line of the kernel's list is that of a listening socket of Brave.
pub open spec fn is_socket_line(line: Seq<u8>, socket: SocketView) -> bool {
    fields_of(line, 7) matches Some(split) && {
        &&& unsigned_value(split.0[3], 16, u64::MAX as nat) matches Some(flags) && flags % 131072
            >= 65536
        &&& unsigned_value(split.0[4], 16, u64::MAX as nat) matches Some(kind) && kind % 4294967296
            == 1
        &&& split.0[5] == vstd::utf8::encode_utf8("01"@)
        &&& unsigned_value(split.0[6], 10, u64::MAX as nat) matches Some(inode)
            && socket.inode as nat == inode as u64 as nat
        &&& is_absolute(split.1) && file_name(split.1) == Some(
            vstd::utf8::encode_utf8("SingletonSocket"@),
        )
        &&& socket.path == split.1
    }
}

/// A sign-in is given up only while the user is at Google, and finished only where it was not given
/// up.
pub proof fn sign_ins_end_one_way(
    attempt: &mut OAuthAttempt,
    cancelled: bool,
    other: &mut OAuthAttempt,
    allowed: bool,
    begun: OAuthAttempt,
)
    requires
        call_ensures(OAuthAttempt::new, (), begun),
        call_ensures(OAuthAttempt::cancel, (attempt,), cancelled),
        call_ensures(OAuthAttempt::begin_finishing, (other,), allowed),
    ensures
        begun@ is Waiting,
        cancelled <==> old(attempt)@ is Waiting,
        final(attempt)@ is Cancelled <==> old(attempt)@ is Waiting || old(attempt)@ is Cancelled,
        final(attempt)@ is Finishing <==> old(attempt)@ is Finishing,
        allowed <==> !(old(other)@ is Cancelled),
        final(other)@ is Cancelled <==> old(other)@ is Cancelled,
        final(other)@ is Finishing <==> allowed,
{
}

/// Waiting for the user goes on until the user gives up or the time is up; the former is told before
/// the latter. A sign-in goes on only where the browser shows it.
pub proof fn waiting_ends_in_two_ways(
    phase: OAuthPhase,
    expired: bool,
    error: Option<CalendarError>,
    result: BrowserOpenResult,
    shown: Result<()>,
)
    requires
        call_ensures(stop_waiting, (phase, expired), error),
        call_ensures(sign_in_shown, (result,), shown),
    ensures
        error is None <==> !(phase is Cancelled) && !expired,
        phase is Cancelled ==> error->0@.code == "oauth_cancelled"@,
        !(phase is Cancelled) && expired ==> error->0@.code == "oauth_timeout"@,
        shown is Ok <==> result is Opened,
        shown matches Err(error) ==> error@.code == "browser_open_failed"@,
{
}

/// A callback was read far enough where its head ended, or where it holds sixteen kilobytes.
pub proof fn callbacks_are_read_to_their_head(raw: &[u8], complete: bool, at: int)
    requires
        call_ensures(callback_complete, (raw,), complete),
    ensures
        raw@.len() >= 16384 ==> complete,
        0 <= at && at + 4 <= raw@.len() && raw@.subrange(at, at + 4) == seq![13u8, 10u8, 13u8, 10u8]
            ==> complete,
        complete && raw@.len() < 16384 ==> exists|i: int|
            0 <= i && i + 4 <= raw@.len() && #[trigger] raw@.subrange(i, i + 4) == seq![
                13u8,
                10u8,
                13u8,
                10u8,
            ],
{
    if 0 <= at && at + 4 <= raw@.len() && raw@.subrange(at, at + 4) == seq![
        13u8,
        10u8,
        13u8,
        10u8,
    ] {
        let part = raw@.subrange(at, at + 4);
        assert(part[0] == raw@[at] && part[1] == raw@[at + 1] && part[2] == raw@[at + 2] && part[3]
            == raw@[at + 3]);
    }
    if complete && raw@.len() < 16384 {
        let i = choose|i: int|
            0 <= i && i + 4 <= raw@.len() && #[trigger] raw@[i] == 13 && raw@[i + 1] == 10 && raw@[i
                + 2] == 13 && raw@[i + 3] == 10;
        assert(raw@.subrange(i, i + 4) =~= seq![13u8, 10u8, 13u8, 10u8]);
    }
}

/// A callback is answered where it is a request at all: with success where it came to its path, and
/// else that nothing is there.
pub proof fn callbacks_are_answered(sign_in: &SignIn, raw: &[u8], callback: Callback)
    requires
        call_ensures(SignIn::callback, (sign_in, raw), callback),
    ensures
        callback.answer is Some <==> callback_link(raw@) is Some,
        callback_link(raw@) matches Some(link) ==> {
            let answer = callback.answer->0@;
            &&& link.path == "/callback"@ ==> "HTTP/1.1 200 OK"@.is_prefix_of(answer)
            &&& link.path != "/callback"@ ==> "HTTP/1.1 404 Not Found"@.is_prefix_of(answer) && (
            callback.exchange matches Err(error) && error@.code == "oauth_callback_failed"@)
        },
        callback_link(raw@) is None ==> (callback.exchange matches Err(error) && error@.code
            == "oauth_callback_failed"@),
{
    reveal_strlit("HTTP/1.1 200 OK");
    reveal_strlit("HTTP/1.1 404 Not Found");
    reveal_strlit(
        "HTTP/1.1 200 OK\r\nContent-Type: text/html; charset=utf-8\r\nContent-Length: ",
    );
    reveal_strlit("HTTP/1.1 404 Not Found\r\nContent-Length: ");
    if let Some(link) = callback_link(raw@) {
        let answer = callback.answer->0@;
        if link.path == "/callback"@ {
            assert("HTTP/1.1 200 OK"@ =~= answer.subrange(0, 15));
        } else {
            assert("HTTP/1.1 404 Not Found"@ =~= answer.subrange(0, 22));
        }
    }
}

/// Whether an object has a text that is not empty under a name.
pub open spec fn has_word(value: JsonView, name: Seq<char>, word: Seq<char>) -> bool {
    value.field(name) == Some(JsonView::Text(word)) && word.len() > 0
}

/// Whether an object has no such text.
pub open spec fn lacks_word(value: JsonView, name: Seq<char>) -> bool {
    !(value.field(name) matches Some(JsonView::Text(word)) && word.len() > 0)
}

/// A sign-in gives credentials where Google's answer has both a refresh token and an access token,
/// and an account where the answer to who the user is has both a subject and an address; each is
/// taken as it came. An access token is taken where the answer has one.
pub proof fn credentials_are_taken_whole(
    body: Vec<u8>,
    status: u16,
    value: JsonView,
    credentials: Result<Credentials>,
    given: Credentials,
    result: Result<AuthResult>,
    token: Result<String>,
)
    requires
        200 <= status <= 299,
        json_of_bytes(body@) == Some(value),
        value is Object,
        call_ensures(Credentials::read, (&HttpReply::Received { status, body },), credentials),
        call_ensures(Credentials::complete, (given, &HttpReply::Received { status, body }), result),
        call_ensures(read_access_token, (&HttpReply::Received { status, body },), token),
    ensures
        credentials matches Ok(found) ==> has_word(value, "refresh_token"@, found.refresh_token@)
            && has_word(value, "access_token"@, found.access_token@),
        credentials matches Err(error) ==> (lacks_word(value, "refresh_token"@) || lacks_word(
            value,
            "access_token"@,
        )) && error@.code == "oauth_credentials_missing"@,
        result matches Ok(auth) ==> {
            &&& has_word(value, "sub"@, auth@.subject) && has_word(value, "email"@, auth@.email)
            &&& auth@.refresh_token == given.refresh_token@
            &&& auth@.access_token == given.access_token@
        },
        result matches Err(error) ==> (lacks_word(value, "sub"@) || lacks_word(value, "email"@))
            && error@.code == "oauth_profile_invalid"@,
        token matches Ok(found) ==> has_word(value, "access_token"@, found@),
        token matches Err(error) ==> lacks_word(value, "access_token"@) && error@.code
            == "token_refresh_failed"@,
{
}

/// A refusal of Google keeps its status, and its message says what Google says: the text of the
/// error, or the message in it, or else its status word; where Google says nothing that can be read,
/// it names the status. Where the refresh token is refused as `invalid_grant`, the account has to
/// sign in again.
pub proof fn refusals_say_what_google_says(
    body: Vec<u8>,
    status: u16,
    allow_empty: bool,
    value: Result<Json>,
    token: Result<String>,
)
    requires
        status < 200 || status > 299,
        call_ensures(read_reply, (&HttpReply::Received { status, body }, allow_empty), value),
        call_ensures(read_access_token, (&HttpReply::Received { status, body },), token),
    ensures
        value matches Err(error) && {
            let told = match json_of_bytes(body@) {
                Some(payload) => match payload.field("error"@) {
                    Some(JsonView::Text(message)) => Some(message),
                    Some(JsonView::Object(fields)) => match (
                        JsonView::Object(fields).field("message"@),
                        JsonView::Object(fields).field("status"@),
                    ) {
                        (Some(JsonView::Text(message)), _) => Some(message),
                        (None, Some(JsonView::Text(word))) => Some(word),
                        _ => None,
                    },
                    _ => None,
                },
                None => None,
            };
            &&& error@.http_status == Some(status)
            &&& error@.code == "google_http_"@ + decimal(status as nat)
            &&& error@.message == shown_message(
                match told {
                    Some(message) => message,
                    None => "Google API returned HTTP "@ + decimal(status as nat),
                },
                "Google API failed"@,
            )
            &&& token matches Err(refused) && {
                &&& error@.message == "invalid_grant"@ ==> refused@.code == "credentials_expired"@
                    && refused@.http_status is None
                &&& error@.message != "invalid_grant"@ ==> refused@ == error@
            }
        },
{
}

/// A refresh token is given back by itself, at the place for that; it was where Google answers with
/// success, and nothing or an object. Who the user is is asked for with the access token. Of a
/// refusal at most a quarter of a megabyte is read, and of an answer eight.
pub proof fn tokens_are_given_back(
    endpoint: &str,
    refresh_token: &str,
    request: HttpRequest,
    body: Vec<u8>,
    status: u16,
    given_back: bool,
    credentials: &Credentials,
    profile: HttpRequest,
    limit: usize,
)
    requires
        call_ensures(revoke_request, (endpoint, refresh_token), request),
        call_ensures(revoked, (&HttpReply::Received { status, body },), given_back),
        call_ensures(Credentials::profile_request, (credentials,), profile),
        call_ensures(body_limit, (status,), limit),
    ensures
        request@.url == endpoint@,
        request@.access_token is None,
        request@.form == Some(seq![("token"@, refresh_token@)]),
        given_back <==> 200 <= status <= 299 && (body@.len() == 0 || json_of_bytes(body@) matches Some(
            JsonView::Object(_),
        )),
        profile@.url == "https://openidconnect.googleapis.com/v1/userinfo"@,
        profile@.access_token == Some(credentials.access_token@),
        profile@.form is None,
        limit == if 200 <= status <= 299 {
            8388608int
        } else {
            262144int
        },
{
}

/// The calendars and task lists that Google reports are taken in one by one, in their order: exactly
/// those that can be.
pub proof fn reported_lists_are_taken_in(
    items: &Vec<Json>,
    calendars: Vec<CalendarEntry>,
    lists: Vec<TaskListEntry>,
    calendar: CalendarEntryView,
    list: TaskListEntryView,
    token: Option<String>,
    required: Result<String>,
)
    requires
        call_ensures(read_calendars, (items,), calendars),
        call_ensures(read_task_lists, (items,), lists),
        call_ensures(required_token, (token,), required),
    ensures
        rows(calendars@).contains(calendar) <==> exists|i: int|
            0 <= i < array_view(items@).len() && calendar_entry()(
                #[trigger] array_view(items@)[i],
            ) == Some(calendar),
        rows(lists@).contains(list) <==> exists|i: int|
            0 <= i < array_view(items@).len() && task_list_entry()(
                #[trigger] array_view(items@)[i],
            ) == Some(list),
        required is Ok <==> token is Some,
        required matches Ok(found) ==> found@ == token->0@,
{
    made_rows(array_view(items@), calendar_entry());
    made_rows(array_view(items@), task_list_entry());
}

/// The dates of today and tomorrow are those that local clocks show now and a day later.
pub proof fn tomorrow_is_a_day_after_today(now: &Timestamp, offset: i32, days: (String, String))
    requires
        in_calendar(now.seconds + offset),
        in_calendar(now.seconds + offset + 86400),
        call_ensures(days_at, (now, offset), days),
    ensures
        days.0@ == day_text(now.seconds + offset),
        days.1@ == day_text(now.seconds + offset + 24 * 60 * 60),
{
}

/// A boundary of a range is a date exactly where it has ten bytes, and then begins at the midnight of
/// that date; else it is a point in time where it can be read as one, and a local time where it can
/// be read as one with a `T` or, failing that, a space in its middle. A local time that comes twice
/// is taken as the first, and one that does not come is refused.
pub proof fn boundaries_are_read_in_turn(
    value: &str,
    boundary: Result<Boundary>,
    local: LocalTime,
    instant: Result<Timestamp>,
)
    requires
        call_ensures(read_boundary, (value,), boundary),
        call_ensures(choose_local, (local,), instant),
    ensures
        ({
            let is_date = vstd::utf8::encode_utf8(value@).len() == 10;
            let with_letter = wall_clock(value@, "%Y-%m-%dT%H:%M:%S%.f"@);
            let with_space = wall_clock(value@, "%Y-%m-%d %H:%M:%S%.f"@);
            &&& is_date ==> match midnight(value@) {
                Some(wall) => boundary matches Ok(read) && read == Boundary::Wall(wall),
                None => boundary is Err,
            }
            &&& !is_date ==> {
                &&& rfc3339(value@) matches Some(point) ==> (boundary matches Ok(read) && read
                    == Boundary::Instant(point))
                &&& rfc3339(value@) is None && with_letter is Some ==> (boundary matches Ok(read)
                    && read == Boundary::Wall(with_letter->0))
                &&& rfc3339(value@) is None && with_letter is None && with_space is Some ==> (
                boundary matches Ok(read) && read == Boundary::Wall(with_space->0))
                &&& rfc3339(value@) is None && with_letter is None && with_space is None
                    ==> boundary is Err
            }
            &&& boundary matches Err(error) ==> error@.code == "invalid_params"@
        }),
        match local {
            LocalTime::Missing => instant matches Err(error) && error@.code == "invalid_params"@,
            LocalTime::Single(only) => instant matches Ok(chosen) && chosen == only,
            LocalTime::Ambiguous(sooner, _) => instant matches Ok(chosen) && chosen == sooner,
        },
{
}

/// A range has to end later than it starts; it keeps its points in time and its dates.
pub proof fn ranges_end_after_they_start(
    start: Timestamp,
    end: Timestamp,
    start_date: Option<String>,
    end_date: Option<String>,
    bounds: Result<RangeBounds>,
)
    requires
        call_ensures(bounds_between, (start, end, start_date, end_date), bounds),
    ensures
        ({
            let later = start.seconds < end.seconds || (start.seconds == end.seconds && start.nanos
                < end.nanos);
            &&& bounds is Ok <==> later && start_date is Some && end_date is Some
            &&& bounds matches Ok(made) ==> made@.start == start && made@.end == end
                && made@.start_date == start_date->0@ && made@.end_date == end_date->0@
            &&& bounds matches Err(error) ==> error@.code == "invalid_params"@
        }),
{
}

/// At least so many days lie between two points in time, outside leap seconds, exactly where that
/// many times a day has passed; a point in time is moved by whole days of that length.
pub proof fn days_have_their_length(
    from: &Timestamp,
    to: &Timestamp,
    limit: i64,
    passed: bool,
    days: i32,
    text: Option<String>,
)
    requires
        from.is_representable() && from.nanos < 1000000000,
        to.is_representable() && to.nanos < 1000000000,
        0 < limit < 200000000,
        call_ensures(older, (from, to, limit), passed),
        call_ensures(shifted_text, (from, days), text),
    ensures
        passed <==> (to.seconds - from.seconds) * 1000000000 + (to.nanos - from.nanos) >= limit
            * 86400000000000,
        text is Some <==> in_calendar(from.seconds + days * 86400),
        text matches Some(moved) ==> moved@ == micros_text(
            Timestamp { seconds: (from.seconds + days * 86400) as i64, nanos: from.nanos },
        ),
{
}

/// The place of the daemon's socket is used where it is free or holds a socket of the user on which
/// nobody answers; anything else is left alone. The socket is taken away again only where it still is
/// the one that was made. A client that finds no daemon is told so, and one that is denied access is
/// told that.
pub proof fn only_own_sockets_are_touched(
    fact: SocketFact,
    uid: u32,
    step: SocketStep,
    answers: bool,
    error: Option<CalendarError>,
    reason: ConnectFailure,
    told: CalendarError,
    device: u64,
    inode: u64,
    made: (u64, u64),
    same: bool,
    response: Json,
)
    requires
        call_ensures(socket_step, (fact, uid), step),
        call_ensures(probed, (answers,), error),
        call_ensures(connect_error, (reason,), told),
        call_ensures(same_socket, (device, inode, made), same),
        call_ensures(too_large_response, (), response),
    ensures
        step is Free <==> fact is Missing,
        step is Probe <==> fact == (SocketFact::Found { uid, is_socket: true }),
        step matches SocketStep::Refused { error } ==> error@.code == "unsafe_socket_path"@,
        error is Some <==> answers,
        error matches Some(error) ==> error@.code == "already_running"@,
        told@.code == if reason is PermissionDenied {
            "daemon_access_denied"@
        } else {
            "daemon_unavailable"@
        },
        same <==> device == made.0 && inode == made.1,
        response@.field("ok"@) == Some(JsonView::Bool(false)),
        response@.field("id"@) == Some(JsonView::Null),
        response@.field("error"@) matches Some(found) && found.field("code"@) == Some(
            JsonView::Text("message_too_large"@),
        ),
{
    reveal_strlit("id");
    reveal_strlit("ok");
    reveal_strlit("error");
    reveal_strlit("code");
    reveal_strlit("message");
    assert("id"@.len() == 2 && "ok"@.len() == 2 && "error"@.len() == 5);
    assert("id"@[0] == 'i' && "ok"@[0] == 'o');
    assert("code"@.len() == 4 && "message"@.len() == 7);
}

/// A callback asks for the second word of its first line, at this machine.
pub proof fn callbacks_ask_by_their_first_line(raw: Seq<u8>)
    ensures
        ({
            let lines = lines_of(decode_utf8(raw));
            callback_link(raw) == if valid_utf8(raw) && lines.len() > 0 && words(lines[0]).len() >= 2 {
                link_of("http://127.0.0.1"@ + words(lines[0])[1])
            } else {
                None
            }
        }),
{
}

} // verus!
