//! What the cache keeps of what Google reports, row by row.
use vstd::prelude::*;
use vstd::utf8::encode_utf8;

use crate::bytes::{pieces, pieces_first, pieces_whole};
use crate::entries::CalendarEntryView;
use crate::error::ErrorView;
use crate::json::{compact_text, JsonView};
use crate::normalize::{
    event_row, field_or, is_object, item_id, reminder, reminders_in, sha256_digest, task_row,
    zero_joined,
};
use crate::records::{StoredCalendarView, StoredEventView};
use crate::table::{any, filter_rows, unique};
use crate::tables::{
    calendar_at, calendar_key, entry_ids, event_at, event_steps, named_account, new_calendar,
    other_event, outside_calendar, put_calendars, put_event, remaining_calendar,
    remaining_event, reported, rival_account, rival_event, Tables,
};
use crate::text::hex;

verus! {

/// Whether an event was reported as cancelled.
pub open spec fn is_cancelled(event: JsonView) -> bool {
    event.field("status"@) == Some(JsonView::Text("cancelled"@))
}

/// The last of some reported events that says anything of an event of a calendar: that it was
/// cancelled, or what it is like.
pub open spec fn last_report(
    account_id: Seq<char>,
    calendar_id: Seq<char>,
    event_id: Seq<char>,
    reported: Seq<JsonView>,
) -> Option<JsonView>
    decreases reported.len(),
{
    if reported.len() == 0 {
        None
    } else if field_or(reported.last(), "id"@, ""@) == event_id && (is_cancelled(reported.last())
        || event_row(account_id, calendar_id, reported.last()) is Some) {
        Some(reported.last())
    } else {
        last_report(account_id, calendar_id, event_id, reported.drop_last())
    }
}

/// Whether a row is that of an event of a calendar.
pub open spec fn is_row_of(
    row: StoredEventView,
    account_id: Seq<char>,
    calendar_id: Seq<char>,
    event_id: Seq<char>,
) -> bool {
    row.account_id == account_id && row.calendar_id == calendar_id && row.event_id == event_id
}

proof fn put_event_puts(events: Seq<StoredEventView>, row: StoredEventView, other: StoredEventView)
    ensures
        put_event(events, row).contains(other) <==> if is_row_of(
            other,
            row.account_id,
            row.calendar_id,
            row.event_id,
        ) {
            other == row
        } else {
            events.contains(other)
        },
{
    let same = event_at(row.account_id, row.calendar_id, row.event_id);
    let after = put_event(events, row);
    if any(events, same) {
        let at = choose|i: int| 0 <= i < events.len() && same(#[trigger] events[i]);
        assert(after[at] == row);
        if after.contains(other) {
            let k = choose|k: int| 0 <= k < after.len() && after[k] == other;
            assert(events[k] == other || same(events[k]));
        }
        if events.contains(other) && !same(other) {
            let k = choose|k: int| 0 <= k < events.len() && events[k] == other;
            assert(after[k] == other);
        }
    } else {
        assert(after[events.len() as int] == row);
        if after.contains(other) {
            let k = choose|k: int| 0 <= k < after.len() && after[k] == other;
            if k < events.len() {
                assert(events[k] == other);
                assert(!same(events[k]));
            }
        }
        if events.contains(other) {
            let k = choose|k: int| 0 <= k < events.len() && events[k] == other;
            assert(!same(events[k]));
            assert(after[k] == other);
        }
    }
}

proof fn steps_keep_the_last_report(
    events: Seq<StoredEventView>,
    known: bool,
    account_id: Seq<char>,
    calendar_id: Seq<char>,
    event_id: Seq<char>,
    reported: Seq<JsonView>,
    after: Seq<StoredEventView>,
    row: StoredEventView,
)
    requires
        event_steps(events, known, account_id, calendar_id, reported) == Ok::<_, ErrorView>(after),
        event_id.len() > 0,
        is_row_of(row, account_id, calendar_id, event_id),
    ensures
        after.contains(row) <==> match last_report(account_id, calendar_id, event_id, reported) {
            None => events.contains(row),
            Some(event) => !is_cancelled(event) && event_row(account_id, calendar_id, event)
                == Some(row),
        },
    decreases reported.len(),
{
    if reported.len() > 0 {
        let front = reported.drop_last();
        let before = event_steps(events, known, account_id, calendar_id, front)->Ok_0;
        steps_keep_the_last_report(
            events,
            known,
            account_id,
            calendar_id,
            event_id,
            front,
            before,
            row,
        );
        let event = reported.last();
        let id = field_or(event, "id"@, ""@);
        reveal_strlit("");
        filter_rows(before, other_event(account_id, calendar_id, id));
        if id.len() > 0 && event.field_text("status"@) != Some("cancelled"@) {
            if let Some(made) = event_row(account_id, calendar_id, event) {
                put_event_puts(before, made, row);
            }
        }
    }
}

/// After the events of a calendar were taken in, the last report on each of its events decides: one
/// that was cancelled is gone, any other is there as it was reported last, and only so. Of an event
/// of the calendar that no report is about, nothing is left where all events were read, and all stays
/// where only changes were. The next synchronization of the calendar starts from the token.
pub proof fn last_report_decides(
    tables: Tables,
    account_id: Seq<char>,
    calendar_id: Seq<char>,
    reported: Seq<JsonView>,
    token: Seq<char>,
    replace: bool,
    now: Seq<char>,
    after: Tables,
    event_id: Seq<char>,
    row: StoredEventView,
)
    requires
        tables.apply_events(account_id, calendar_id, reported, token, replace, now) == Ok::<
            _,
            ErrorView,
        >(after),
        event_id.len() > 0,
        is_row_of(row, account_id, calendar_id, event_id),
    ensures
        after.events.contains(row) <==> match last_report(
            account_id,
            calendar_id,
            event_id,
            reported,
        ) {
            None => !replace && tables.events.contains(row),
            Some(event) => !is_cancelled(event) && event_row(account_id, calendar_id, event)
                == Some(row),
        },
        after.calendars.len() == tables.calendars.len(),
        forall|i: int|
            0 <= i < after.calendars.len() && (#[trigger] after.calendars[i]).account_id
                == account_id && after.calendars[i].calendar_id == calendar_id
                ==> after.calendars[i].sync_token == Some(token) && after.calendars[i].full_sync_at
                == if replace {
                Some(now)
            } else {
                tables.calendars[i].full_sync_at
            },
        forall|i: int|
            0 <= i < after.calendars.len() ==> {
                let before = tables.calendars[i];
                let kept = #[trigger] after.calendars[i];
                &&& kept.account_id == before.account_id
                &&& kept.calendar_id == before.calendar_id
                &&& kept.label == before.label
                &&& kept.color == before.color
                &&& kept.selected == before.selected
                &&& kept.primary == before.primary
                &&& kept.default_reminders == before.default_reminders
            },
{
    let outside = outside_calendar(account_id, calendar_id);
    let before = if replace {
        tables.events.filter(outside)
    } else {
        tables.events
    };
    filter_rows(tables.events, outside);
    steps_keep_the_last_report(
        before,
        tables.has_calendar(account_id, calendar_id),
        account_id,
        calendar_id,
        event_id,
        reported,
        after.events,
        row,
    );
}

/// The last of some reported calendars with an identity.
pub open spec fn last_entry(
    entries: Seq<CalendarEntryView>,
    calendar_id: Seq<char>,
) -> Option<CalendarEntryView>
    decreases entries.len(),
{
    if entries.len() == 0 {
        None
    } else if entries.last().id == calendar_id {
        Some(entries.last())
    } else {
        last_entry(entries.drop_last(), calendar_id)
    }
}

/// The row of a calendar as a report on it leaves it: what the report says, and from where its
/// synchronization goes on.
pub open spec fn row_as_reported(
    account_id: Seq<char>,
    entry: CalendarEntryView,
    sync_token: Option<Seq<char>>,
    full_sync_at: Option<Seq<char>>,
) -> StoredCalendarView {
    StoredCalendarView {
        account_id,
        calendar_id: entry.id,
        label: entry.label,
        color: entry.color,
        selected: entry.selected,
        primary: entry.primary,
        default_reminders: compact_text(entry.default_reminders),
        sync_token,
        full_sync_at,
    }
}

proof fn put_calendars_put(
    calendars: Seq<StoredCalendarView>,
    id: Seq<char>,
    entries: Seq<CalendarEntryView>,
    row: StoredCalendarView,
)
    requires
        unique(calendars, calendar_key()),
        row.account_id == id,
    ensures
        put_calendars(calendars, id, entries).contains(row) <==> match last_entry(
            entries,
            row.calendar_id,
        ) {
            None => calendars.contains(row),
            Some(entry) => if any(calendars, calendar_at(id, row.calendar_id)) {
                exists|i: int|
                    0 <= i < calendars.len() && calendar_at(id, row.calendar_id)(
                        #[trigger] calendars[i],
                    ) && row == row_as_reported(
                        id,
                        entry,
                        calendars[i].sync_token,
                        calendars[i].full_sync_at,
                    )
            } else {
                row == row_as_reported(id, entry, None, None)
            },
        },
        any(put_calendars(calendars, id, entries), calendar_at(id, row.calendar_id)) <==> any(
            calendars,
            calendar_at(id, row.calendar_id),
        ) || last_entry(entries, row.calendar_id) is Some,
        put_calendars(calendars, id, entries).len() >= calendars.len(),
        forall|i: int|
            0 <= i < calendars.len() ==> {
                let kept = #[trigger] put_calendars(calendars, id, entries)[i];
                kept.account_id == calendars[i].account_id && kept.calendar_id
                    == calendars[i].calendar_id && kept.sync_token == calendars[i].sync_token
                    && kept.full_sync_at == calendars[i].full_sync_at
            },
        forall|i: int|
            calendars.len() <= i < put_calendars(calendars, id, entries).len() ==> {
                let made = #[trigger] put_calendars(calendars, id, entries)[i];
                made.sync_token is None && made.full_sync_at is None
            },
    decreases entries.len(),
{
    let wanted = calendar_at(id, row.calendar_id);
    if entries.len() > 0 {
        let front = entries.drop_last();
        let entry = entries.last();
        put_calendars_put(calendars, id, front, row);
        let before = put_calendars(calendars, id, front);
        let after = put_calendars(calendars, id, entries);
        let same = calendar_at(id, entry.id);
        if any(before, same) {
            let at = choose|i: int| 0 <= i < before.len() && same(#[trigger] before[i]);
            assert(same(after[at]));
            if any(before, wanted) {
                let k = choose|k: int| 0 <= k < before.len() && wanted(#[trigger] before[k]);
                assert(wanted(after[k]));
            }
            if any(after, wanted) {
                let k = choose|k: int| 0 <= k < after.len() && wanted(#[trigger] after[k]);
                assert(wanted(before[k]));
            }
            if entry.id == row.calendar_id {
                if any(calendars, wanted) {
                    let i = choose|i: int| 0 <= i < calendars.len() && wanted(#[trigger] calendars[i]);
                    assert(wanted(before[i]));
                    assert(after[i] == row_as_reported(
                        id,
                        entry,
                        calendars[i].sync_token,
                        calendars[i].full_sync_at,
                    ));
                    if after.contains(row) {
                        let k = choose|k: int| 0 <= k < after.len() && after[k] == row;
                        assert(wanted(before[k]));
                        if k < calendars.len() {
                            assert(wanted(calendars[k]));
                        } else {
                            calendars_made_are_new(calendars, id, front, k);
                        }
                    }
                    if exists|j: int|
                        0 <= j < calendars.len() && wanted(#[trigger] calendars[j]) && row
                            == row_as_reported(
                            id,
                            entry,
                            calendars[j].sync_token,
                            calendars[j].full_sync_at,
                        ) {
                        let j = choose|j: int|
                            0 <= j < calendars.len() && wanted(#[trigger] calendars[j]) && row
                                == row_as_reported(
                                id,
                                entry,
                                calendars[j].sync_token,
                                calendars[j].full_sync_at,
                            );
                        assert(wanted(before[j]));
                        assert(after[j] == row);
                    }
                } else {
                    if after.contains(row) {
                        let k = choose|k: int| 0 <= k < after.len() && after[k] == row;
                        assert(wanted(before[k]));
                        if k < calendars.len() {
                            assert(wanted(calendars[k]));
                        }
                    }
                    assert(wanted(before[at]));
                    if at < calendars.len() {
                        assert(wanted(calendars[at]));
                    }
                    assert(after[at] == row_as_reported(id, entry, None, None));
                }
            } else {
                if after.contains(row) {
                    let k = choose|k: int| 0 <= k < after.len() && after[k] == row;
                    assert(!same(after[k]));
                    assert(before[k] == after[k]);
                }
                if before.contains(row) {
                    let k = choose|k: int| 0 <= k < before.len() && before[k] == row;
                    assert(after[k] == row);
                }
            }
        } else {
            let made = new_calendar(id, entry);
            assert(after[before.len() as int] == made);
            if any(before, wanted) {
                let k = choose|k: int| 0 <= k < before.len() && wanted(#[trigger] before[k]);
                assert(wanted(after[k]));
            }
            if any(after, wanted) {
                let k = choose|k: int| 0 <= k < after.len() && wanted(#[trigger] after[k]);
                if k < before.len() {
                    assert(wanted(before[k]));
                }
            }
            if after.contains(row) {
                let k = choose|k: int| 0 <= k < after.len() && after[k] == row;
                if k < before.len() {
                    assert(before[k] == row);
                    assert(!same(before[k]));
                }
            }
            if before.contains(row) {
                let k = choose|k: int| 0 <= k < before.len() && before[k] == row;
                assert(!same(before[k]));
                assert(after[k] == row);
            }
            if entry.id == row.calendar_id {
                assert(wanted(made));
                assert(made == row_as_reported(id, entry, None, None));
            }
            assert forall|i: int| 0 <= i < calendars.len() implies {
                let kept = #[trigger] after[i];
                kept.account_id == calendars[i].account_id && kept.calendar_id
                    == calendars[i].calendar_id && kept.sync_token == calendars[i].sync_token
                    && kept.full_sync_at == calendars[i].full_sync_at
            } by {
                assert(after[i] == before[i]);
            }
            assert forall|i: int| calendars.len() <= i < after.len() implies {
                let made = #[trigger] after[i];
                made.sync_token is None && made.full_sync_at is None
            } by {
                if i < before.len() {
                    assert(after[i] == before[i]);
                }
            }
        }
    }
}

/// A calendar that was added by reports is one that was not there.
proof fn calendars_made_are_new(
    calendars: Seq<StoredCalendarView>,
    id: Seq<char>,
    entries: Seq<CalendarEntryView>,
    at: int,
)
    requires
        unique(calendars, calendar_key()),
        calendars.len() <= at < put_calendars(calendars, id, entries).len(),
    ensures
        forall|i: int|
            0 <= i < calendars.len() ==> calendar_key()(#[trigger] calendars[i])
                != calendar_key()(put_calendars(calendars, id, entries)[at]),
    decreases entries.len(),
{
    if entries.len() > 0 {
        let front = entries.drop_last();
        let entry = entries.last();
        let before = put_calendars(calendars, id, front);
        let after = put_calendars(calendars, id, entries);
        let same = calendar_at(id, entry.id);
        let some = new_calendar(id, entry);
        put_calendars_put(calendars, id, front, some);
        if at < before.len() {
            calendars_made_are_new(calendars, id, front, at);
        } else {
            assert forall|i: int| 0 <= i < calendars.len() implies calendar_key()(
                #[trigger] calendars[i],
            ) != calendar_key()(after[at]) by {
                assert(!same(before[i]));
            }
        }
    }
}

/// After the calendars of an account were taken in, its calendars are exactly those that were
/// reported, each as it was reported last. One that was known goes on from where its synchronization
/// stands, a new one from the start. Events stay where their calendar does.
pub proof fn calendars_are_those_reported(
    tables: Tables,
    id: Seq<char>,
    entries: Seq<CalendarEntryView>,
    after: Tables,
    row: StoredCalendarView,
    event: StoredEventView,
)
    requires
        tables.wf(),
        tables.replace_calendars(id, entries) == Ok::<_, ErrorView>(after),
        row.account_id == id,
    ensures
        after.calendars.contains(row) <==> (last_entry(entries, row.calendar_id) matches Some(entry)
            && if tables.has_calendar(id, row.calendar_id) {
            exists|i: int|
                0 <= i < tables.calendars.len() && (#[trigger] tables.calendars[i]).account_id == id
                    && tables.calendars[i].calendar_id == row.calendar_id && row
                    == row_as_reported(
                    id,
                    entry,
                    tables.calendars[i].sync_token,
                    tables.calendars[i].full_sync_at,
                )
        } else {
            row == row_as_reported(id, entry, None, None)
        }),
        after.events.contains(event) <==> tables.events.contains(event) && (event.account_id != id
            || last_entry(entries, event.calendar_id) is Some),
{
    let incoming = entry_ids(entries);
    let written = put_calendars(tables.calendars, id, entries);
    put_calendars_put(tables.calendars, id, entries, row);
    filter_rows(written, remaining_calendar(id, incoming));
    filter_rows(tables.events, remaining_event(id, incoming));
    last_entry_is_incoming(entries, row.calendar_id);
    last_entry_is_incoming(entries, event.calendar_id);
    if tables.has_calendar(id, row.calendar_id) && after.calendars.contains(row) {
        let entry = last_entry(entries, row.calendar_id)->0;
        let i = choose|i: int|
            0 <= i < tables.calendars.len() && calendar_at(id, row.calendar_id)(
                #[trigger] tables.calendars[i],
            ) && row == row_as_reported(
                id,
                entry,
                tables.calendars[i].sync_token,
                tables.calendars[i].full_sync_at,
            );
        assert(tables.calendars[i].account_id == id);
    }
}

proof fn last_entry_is_incoming(entries: Seq<CalendarEntryView>, calendar_id: Seq<char>)
    ensures
        last_entry(entries, calendar_id) is Some <==> entry_ids(entries).contains(calendar_id),
        last_entry(entries, calendar_id) matches Some(entry) ==> entry.id == calendar_id,
    decreases entries.len(),
{
    let ids = entry_ids(entries);
    if entries.len() > 0 {
        let front = entries.drop_last();
        last_entry_is_incoming(front, calendar_id);
        let front_ids = entry_ids(front);
        if front_ids.contains(calendar_id) {
            let i = choose|i: int| 0 <= i < front_ids.len() && front_ids[i] == calendar_id;
            assert(ids[i] == calendar_id);
        }
        if ids.contains(calendar_id) {
            let i = choose|i: int| 0 <= i < ids.len() && ids[i] == calendar_id;
            if i < front_ids.len() {
                assert(front_ids[i] == calendar_id);
            }
        }
        assert(ids[entries.len() - 1] == entries.last().id);
    }
}

/// A sign-in is refused exactly where another account has its Google identity. Otherwise the account
/// is there once, with its Google identity, email and label, enabled and without an error; what was
/// known of its last synchronization stays, and no other account changes.
pub proof fn signed_in_account_is_kept(
    tables: Tables,
    id: Seq<char>,
    subject: Seq<char>,
    email: Seq<char>,
    label: Seq<char>,
    now: Seq<char>,
)
    requires
        tables.wf(),
    ensures
        tables.upsert_account(id, subject, email, label, now) is Err <==> exists|i: int|
            0 <= i < tables.accounts.len() && (#[trigger] tables.accounts[i]).row.account_id != id
                && tables.accounts[i].row.google_sub == subject,
        tables.upsert_account(id, subject, email, label, now) matches Ok(after) ==> {
            &&& after.accounts.len() >= tables.accounts.len()
            &&& exists|i: int|
                0 <= i < after.accounts.len() && (#[trigger] after.accounts[i]).row.account_id == id
            &&& forall|i: int|
                0 <= i < after.accounts.len() && (#[trigger] after.accounts[i]).row.account_id == id
                    ==> {
                    let row = after.accounts[i].row;
                    &&& row.google_sub == subject
                    &&& row.email == email
                    &&& row.label == label
                    &&& row.enabled
                    &&& row.error is None
                    &&& row.error_code is None
                    &&& after.accounts[i].updated_at == now
                    &&& i < tables.accounts.len() ==> row.last_sync
                        == tables.accounts[i].row.last_sync && after.accounts[i].created_at
                        == tables.accounts[i].created_at
                    &&& i >= tables.accounts.len() ==> row.last_sync is None
                        && after.accounts[i].created_at == now
                }
            &&& forall|i: int|
                0 <= i < after.accounts.len() && (#[trigger] after.accounts[i]).row.account_id != id
                    ==> i < tables.accounts.len() && after.accounts[i] == tables.accounts[i]
        },
{
    if any(tables.accounts, rival_account(id, subject)) {
        let i = choose|i: int|
            0 <= i < tables.accounts.len() && rival_account(id, subject)(
                #[trigger] tables.accounts[i],
            );
        assert(tables.accounts[i].row.account_id != id);
    }
    if exists|i: int|
        0 <= i < tables.accounts.len() && (#[trigger] tables.accounts[i]).row.account_id != id
            && tables.accounts[i].row.google_sub == subject {
        let i = choose|i: int|
            0 <= i < tables.accounts.len() && (#[trigger] tables.accounts[i]).row.account_id != id
                && tables.accounts[i].row.google_sub == subject;
        assert(rival_account(id, subject)(tables.accounts[i]));
    }
    if let Ok(after) = tables.upsert_account(id, subject, email, label, now) {
        if tables.has_account(id) {
            let i = choose|i: int|
                0 <= i < tables.accounts.len() && named_account(id)(#[trigger] tables.accounts[i]);
            assert(after.accounts[i].row.account_id == id);
        } else {
            let n = tables.accounts.len() as int;
            assert(after.accounts[n].row.account_id == id);
            assert forall|i: int|
                0 <= i < after.accounts.len() && (#[trigger] after.accounts[i]).row.account_id == id
                implies i == n by {
                if i < n {
                    assert(!named_account(id)(tables.accounts[i]));
                    assert(after.accounts[i] == tables.accounts[i]);
                }
            }
        }
    }
}

/// Of a field that a report has as text and that is not empty, that text is taken; of one that it
/// lacks or has as null, the fallback.
pub proof fn fields_are_taken_as_text(value: JsonView, field: Seq<char>, fallback: Seq<char>)
    ensures
        value.field(field) matches Some(JsonView::Text(text)) ==> field_or(value, field, fallback)
            == if text.len() == 0 {
            fallback
        } else {
            text
        },
        value.field(field) is None || value.field(field) == Some(JsonView::Null) ==> field_or(
            value,
            field,
            fallback,
        ) == fallback,
{
}

/// An event that has an identity, a start and an end, both as dates or both as times, becomes a row
/// of its calendar: it lasts whole days exactly where its start is a date, and keeps its start, its
/// end and what else was reported of it.
pub proof fn events_become_rows(
    account_id: Seq<char>,
    calendar_id: Seq<char>,
    event: JsonView,
    start: JsonView,
    end: JsonView,
)
    requires
        event.field("start"@) == Some(start),
        event.field("end"@) == Some(end),
    ensures
        ({
            let row = event_row(account_id, calendar_id, event);
            let id = field_or(event, "id"@, ""@);
            let dated = start.field("date"@) is Some;
            let name = if dated {
                "date"@
            } else {
                "dateTime"@
            };
            &&& row is Some <==> id.len() > 0 && start.field_text(name) is Some && end.field_text(
                name,
            ) is Some
            &&& row matches Some(row) ==> {
                &&& is_row_of(row, account_id, calendar_id, id)
                &&& row.item_id == item_id("event"@, seq![account_id, calendar_id, id])
                &&& row.all_day == dated
                &&& Some(row.start) == start.field_text(name)
                &&& Some(row.end) == end.field_text(name)
                &&& row.title == field_or(event, "summary"@, "(Untitled event)"@)
                &&& row.location == field_or(event, "location"@, ""@)
                &&& row.url == field_or(event, "htmlLink"@, ""@)
                &&& event.field("iCalUID"@) matches Some(JsonView::Text(uid)) ==> row.ical_uid
                    == Some(uid)
                &&& event.field("originalStartTime"@) is None ==> row.occurrence_start == Some(
                    row.start,
                )
                &&& event.field("originalStartTime"@) matches Some(planned) ==> {
                    &&& planned.field("dateTime"@) matches Some(JsonView::Text(time))
                        ==> row.occurrence_start == Some(time)
                    &&& planned.field("dateTime"@) is None ==> (planned.field(
                        "date"@,
                    ) matches Some(JsonView::Text(date)) ==> row.occurrence_start == Some(date))
                }
                &&& event.field("reminders"@) is None ==> row.reminders == compact_text(
                    JsonView::Array(Seq::empty()),
                )
                &&& event.field("reminders"@) matches Some(reminders) ==> (reminders.field(
                    "useDefault"@,
                ) == Some(JsonView::Bool(true)) ==> row.reminders == compact_text(
                    JsonView::Array(
                        seq![
                            JsonView::Object(
                                Map::empty().insert("useDefault"@, JsonView::Bool(true)),
                            ),
                        ],
                    ),
                ))
            }
        }),
{
}

/// An event without a start or an end becomes no row.
pub proof fn events_without_times_become_none(
    account_id: Seq<char>,
    calendar_id: Seq<char>,
    event: JsonView,
)
    requires
        event.field("start"@) is None || event.field("end"@) is None,
    ensures
        event_row(account_id, calendar_id, event) is None,
{
}

/// A task that has an identity and was neither deleted nor hidden becomes a row of its list, due on
/// the date with which its due time begins, or never.
pub proof fn tasks_become_rows(account_id: Seq<char>, task_list_id: Seq<char>, task: JsonView)
    ensures
        ({
            let row = task_row(account_id, task_list_id, task);
            let id = field_or(task, "id"@, ""@);
            &&& row is Some <==> id.len() > 0 && task.field("deleted"@) != Some(
                JsonView::Bool(true),
            ) && task.field("hidden"@) != Some(JsonView::Bool(true))
            &&& row matches Some(row) ==> {
                &&& row.account_id == account_id
                &&& row.task_list_id == task_list_id
                &&& row.task_id == id
                &&& row.item_id == item_id("task"@, seq![account_id, task_list_id, id])
                &&& row.title == field_or(task, "title"@, "(Untitled task)"@)
                &&& row.status == field_or(task, "status"@, "needsAction"@)
                &&& row.url == field_or(task, "webViewLink"@, ""@)
                &&& row.notes == field_or(task, "notes"@, ""@)
                &&& task.field("due"@) is None || task.field("due"@) == Some(JsonView::Null)
                    ==> row.due_date is None
                &&& task.field("due"@) matches Some(JsonView::Text(due)) ==> (row.due_date
                    matches Some(date) && (due.len() >= 10 ==> date == due.subrange(0, 10)) && (
                due.len() < 10 ==> date == due))
            }
        }),
{
}

/// Dropping the events of a calendar leaves none of them, and its next synchronization starts from
/// the beginning.
pub proof fn dropped_events_are_gone(
    tables: Tables,
    account_id: Seq<char>,
    calendar_id: Seq<char>,
    event: StoredEventView,
)
    ensures
        ({
            let after = tables.clear_calendar_sync(account_id, calendar_id);
            &&& after.events.contains(event) <==> tables.events.contains(event) && !(
            event.account_id == account_id && event.calendar_id == calendar_id)
            &&& forall|i: int|
                0 <= i < after.calendars.len() && (#[trigger] after.calendars[i]).account_id
                    == account_id && after.calendars[i].calendar_id == calendar_id
                    ==> after.calendars[i].sync_token is None
        }),
{
    filter_rows(tables.events, outside_calendar(account_id, calendar_id));
}

/// When the cache is opened, an account whose sign-in Google had refused before errors had codes is
/// marked as one that has to sign in again; no other account changes, and nothing else does.
pub proof fn old_refusals_are_named(tables: Tables)
    ensures
        ({
            let after = tables.migrated();
            &&& after.calendars == tables.calendars
            &&& after.events == tables.events
            &&& after.task_lists == tables.task_lists
            &&& after.tasks == tables.tasks
            &&& after.accounts.len() == tables.accounts.len()
            &&& forall|i: int|
                0 <= i < tables.accounts.len() ==> {
                    let before = tables.accounts[i];
                    let kept = #[trigger] after.accounts[i];
                    if before.row.error == Some("invalid_grant"@) && before.row.error_code is None {
                        &&& kept.row.error_code == Some("credentials_expired"@)
                        &&& kept.row.error == Some("Google access expired. Sign in again."@)
                        &&& kept.row.account_id == before.row.account_id
                        &&& kept.row.google_sub == before.row.google_sub
                        &&& kept.row.email == before.row.email
                        &&& kept.row.label == before.row.label
                        &&& kept.row.enabled == before.row.enabled
                        &&& kept.row.last_sync == before.row.last_sync
                    } else {
                        kept == before
                    }
                }
        }),
{
}

/// A reminder of an event says how it is given, or else that it pops up, and how many whole minutes
/// ahead, or else at once.
pub proof fn reminders_are_completed(value: JsonView)
    ensures
        ({
            let made = reminder(value);
            &&& value.field("method"@) matches Some(JsonView::Text(method)) ==> made.field(
                "method"@,
            ) == Some(JsonView::Text(method))
            &&& !(value.field("method"@) matches Some(JsonView::Text(_))) ==> made.field("method"@)
                == Some(JsonView::Text("popup"@))
            &&& value.field("minutes"@) matches Some(JsonView::Integer(minutes)) ==> made.field(
                "minutes"@,
            ) == Some(JsonView::Integer(minutes))
            &&& !(value.field("minutes"@) matches Some(JsonView::Integer(_))) ==> made.field(
                "minutes"@,
            ) == Some(JsonView::Integer(0))
        }),
{
    reveal_strlit("method");
    reveal_strlit("minutes");
    assert("method"@.len() == 6 && "minutes"@.len() == 7);
}

/// An event with reminders of its own keeps one for each object among them, in their order, and
/// nothing else; where it says that those of its calendar apply, it keeps only that.
pub proof fn own_reminders_are_kept(
    account_id: Seq<char>,
    calendar_id: Seq<char>,
    event: JsonView,
    reminders: JsonView,
    items: Seq<JsonView>,
    next: JsonView,
)
    requires
        event.field("reminders"@) == Some(reminders),
        reminders.field("useDefault"@) != Some(JsonView::Bool(true)),
    ensures
        reminders.field("overrides"@) == Some(JsonView::Array(items)) ==> (event_row(
            account_id,
            calendar_id,
            event,
        ) matches Some(row) ==> row.reminders == compact_text(
            JsonView::Array(reminders_in(items)),
        )),
        !(reminders.field("overrides"@) matches Some(JsonView::Array(_))) ==> (event_row(
            account_id,
            calendar_id,
            event,
        ) matches Some(row) ==> row.reminders == compact_text(JsonView::Array(Seq::empty()))),
        reminders_in(Seq::empty()) == Seq::<JsonView>::empty(),
        reminders_in(items.push(next)) == if next is Object {
            reminders_in(items).push(reminder(next))
        } else {
            reminders_in(items)
        },
{
    reveal(Seq::filter);
    let none = Seq::<JsonView>::empty();
    assert(reminders_in(none) =~= none);
    let all = items.push(next);
    assert(all.drop_last() =~= items);
    assert(all.filter(is_object()) == if next is Object {
        items.filter(is_object()).push(next)
    } else {
        items.filter(is_object())
    });
    if next is Object {
        assert(reminders_in(all) =~= reminders_in(items).push(reminder(next)));
    }
}

/// What an identity is made of can be told apart again: between zero bytes it reads as its parts,
/// one by one. Two different lists of parts without zero characters never give the same bytes.
pub proof fn identities_are_made_of_their_parts(parts: Seq<Seq<char>>)
    requires
        parts.len() > 0,
        forall|i: int| 0 <= i < parts.len() ==> !encode_utf8(#[trigger] parts[i]).contains(0u8),
    ensures
        pieces(zero_joined(parts), 0) == parts.map_values(|part: Seq<char>| encode_utf8(part)),
    decreases parts.len(),
{
    let all = parts.map_values(|part: Seq<char>| encode_utf8(part));
    assert(!encode_utf8(parts[0]).contains(0u8));
    if parts.len() == 1 {
        pieces_whole(encode_utf8(parts[0]), 0);
        assert(all =~= seq![encode_utf8(parts[0])]);
    } else {
        let rest = parts.drop_first();
        assert forall|i: int| 0 <= i < rest.len() implies !encode_utf8(
            #[trigger] rest[i],
        ).contains(0u8) by {
            assert(rest[i] == parts[i + 1]);
        }
        identities_are_made_of_their_parts(rest);
        joined_from_the_front(parts);
        pieces_first(encode_utf8(parts[0]), zero_joined(rest), 0);
        assert(all =~= seq![encode_utf8(parts[0])] + rest.map_values(
            |part: Seq<char>| encode_utf8(part),
        ));
    }
}

proof fn joined_from_the_front(parts: Seq<Seq<char>>)
    requires
        parts.len() > 1,
    ensures
        zero_joined(parts) == encode_utf8(parts[0]) + seq![0u8] + zero_joined(parts.drop_first()),
    decreases parts.len(),
{
    let rest = parts.drop_first();
    let front = parts.drop_last();
    assert(rest.last() == parts.last());
    if parts.len() == 2 {
        assert(front.len() == 1 && front[0] == parts[0]);
        assert(rest.len() == 1 && rest[0] == parts[1]);
        assert(zero_joined(front) == encode_utf8(parts[0]));
        assert(zero_joined(rest) == encode_utf8(parts[1]));
        assert(zero_joined(parts) =~= encode_utf8(parts[0]) + seq![0u8] + zero_joined(rest));
    } else {
        joined_from_the_front(front);
        assert(front.drop_first() =~= rest.drop_last());
        assert(front[0] == parts[0]);
        let middle = zero_joined(rest.drop_last());
        assert(zero_joined(front) == encode_utf8(parts[0]) + seq![0u8] + middle);
        assert(zero_joined(parts) == zero_joined(front).push(0) + encode_utf8(parts.last()));
        assert(zero_joined(rest) == middle.push(0) + encode_utf8(parts.last()));
        assert(zero_joined(parts) =~= encode_utf8(parts[0]) + seq![0u8] + zero_joined(rest));
    }
}

/// The identity of an agenda item is its kind and, after a colon, the SHA-256 digest of where it comes
/// from, in hexadecimal.
pub proof fn identities_name_their_kind(kind: Seq<char>, parts: Seq<Seq<char>>)
    ensures
        ({
            let id = item_id(kind, parts);
            let n = kind.len() as int;
            &&& id.len() == n + 1 + hex(sha256_digest(zero_joined(parts))).len()
            &&& id.take(n) == kind
            &&& id[n] == ':'
            &&& id.skip(n + 1) == hex(sha256_digest(zero_joined(parts)))
        }),
{
    reveal_strlit(":");
    let id = item_id(kind, parts);
    let n = kind.len() as int;
    assert(id.take(n) =~= kind);
    assert(id.skip(n + 1) =~= hex(sha256_digest(zero_joined(parts))));
}

/// Whether an event can stand beside the row of a report: they show as the same agenda item only
/// where they are the same event.
pub open spec fn can_stand_beside(event: StoredEventView, reported: Option<StoredEventView>) -> bool {
    reported matches Some(row) ==> (event.item_id == row.item_id ==> is_row_of(
        event,
        row.account_id,
        row.calendar_id,
        row.event_id,
    ))
}

proof fn event_steps_succeed(
    events: Seq<StoredEventView>,
    account_id: Seq<char>,
    calendar_id: Seq<char>,
    reported: Seq<JsonView>,
)
    requires
        forall|i: int, j: int|
            0 <= i < events.len() && 0 <= j < reported.len() ==> can_stand_beside(
                #[trigger] events[i],
                event_row(account_id, calendar_id, #[trigger] reported[j]),
            ),
        forall|i: int, j: int|
            0 <= i < reported.len() && 0 <= j < reported.len() ==> (event_row(
                account_id,
                calendar_id,
                #[trigger] reported[i],
            ) matches Some(row) ==> can_stand_beside(
                row,
                event_row(account_id, calendar_id, #[trigger] reported[j]),
            )),
    ensures
        event_steps(events, true, account_id, calendar_id, reported) is Ok,
        forall|row: StoredEventView| #[trigger]
            event_steps(events, true, account_id, calendar_id, reported)->Ok_0.contains(row)
                ==> events.contains(row) || exists|j: int|
                0 <= j < reported.len() && event_row(
                    account_id,
                    calendar_id,
                    #[trigger] reported[j],
                ) == Some(row),
    decreases reported.len(),
{
    if reported.len() > 0 {
        let front = reported.drop_last();
        let last = reported.last();
        let n = reported.len() - 1;
        assert(forall|i: int| 0 <= i < front.len() ==> front[i] == #[trigger] reported[i]);
        assert(reported[n] == last);
        event_steps_succeed(events, account_id, calendar_id, front);
        let before = event_steps(events, true, account_id, calendar_id, front)->Ok_0;
        let id = field_or(last, "id"@, ""@);
        filter_rows(before, other_event(account_id, calendar_id, id));
        if let Some(made) = event_row(account_id, calendar_id, last) {
            assert forall|k: int| 0 <= k < before.len() implies !rival_event(made)(
                #[trigger] before[k],
            ) by {
                let row = before[k];
                assert(before.contains(row));
                if events.contains(row) {
                    let i = choose|i: int| 0 <= i < events.len() && events[i] == row;
                    assert(can_stand_beside(
                        events[i],
                        event_row(account_id, calendar_id, reported[n]),
                    ));
                } else {
                    let j = choose|j: int|
                        0 <= j < front.len() && event_row(
                            account_id,
                            calendar_id,
                            #[trigger] front[j],
                        ) == Some(row);
                    assert(front[j] == reported[j]);
                    assert(can_stand_beside(
                        row,
                        event_row(account_id, calendar_id, reported[n]),
                    ));
                }
            }
            assert forall|row: StoredEventView| #[trigger]
                put_event(before, made).contains(row) implies before.contains(row) || row
                == made by {
                put_event_puts(before, made, row);
            }
        }
        let after = event_steps(events, true, account_id, calendar_id, reported)->Ok_0;
        assert forall|row: StoredEventView| #[trigger]
            after.contains(row) implies events.contains(row) || exists|j: int|
            0 <= j < reported.len() && event_row(account_id, calendar_id, #[trigger] reported[j])
                == Some(row) by {
            if before.contains(row) {
                if !events.contains(row) {
                    let j = choose|j: int|
                        0 <= j < front.len() && event_row(
                            account_id,
                            calendar_id,
                            #[trigger] front[j],
                        ) == Some(row);
                    assert(front[j] == reported[j]);
                }
            } else {
                assert(event_row(account_id, calendar_id, reported[n]) == Some(row));
            }
        }
    }
}

/// The events that Google reports for a calendar in the cache are taken in, whatever they are and
/// however often an event is among them, unless two different events would show as the same agenda
/// item.
pub proof fn events_of_known_calendars_are_taken_in(
    tables: Tables,
    account_id: Seq<char>,
    calendar_id: Seq<char>,
    reported: Seq<JsonView>,
    token: Seq<char>,
    replace: bool,
    now: Seq<char>,
    at: int,
)
    requires
        0 <= at < tables.calendars.len(),
        tables.calendars[at].account_id == account_id,
        tables.calendars[at].calendar_id == calendar_id,
        forall|i: int, j: int|
            0 <= i < tables.events.len() && 0 <= j < reported.len() ==> can_stand_beside(
                #[trigger] tables.events[i],
                event_row(account_id, calendar_id, #[trigger] reported[j]),
            ),
        forall|i: int, j: int|
            0 <= i < reported.len() && 0 <= j < reported.len() ==> (event_row(
                account_id,
                calendar_id,
                #[trigger] reported[i],
            ) matches Some(row) ==> can_stand_beside(
                row,
                event_row(account_id, calendar_id, #[trigger] reported[j]),
            )),
    ensures
        tables.apply_events(account_id, calendar_id, reported, token, replace, now) is Ok,
{
    let outside = outside_calendar(account_id, calendar_id);
    let kept = tables.events.filter(outside);
    let before = if replace {
        kept
    } else {
        tables.events
    };
    filter_rows(tables.events, outside);
    assert(calendar_at(account_id, calendar_id)(tables.calendars[at]));
    assert forall|i: int, j: int| 0 <= i < before.len() && 0 <= j < reported.len() implies can_stand_beside(
        #[trigger] before[i],
        event_row(account_id, calendar_id, #[trigger] reported[j]),
    ) by {
        assert(before.contains(before[i]));
        assert(tables.events.contains(before[i]));
        let k = choose|k: int| 0 <= k < tables.events.len() && tables.events[k] == before[i];
        assert(can_stand_beside(
            tables.events[k],
            event_row(account_id, calendar_id, reported[j]),
        ));
    }
    event_steps_succeed(before, account_id, calendar_id, reported);
}

/// The calendars that Google reports for an account are taken in exactly where the account is in the
/// cache, or there are none. An event of a calendar that is not there is refused.
pub proof fn reports_need_their_account(
    tables: Tables,
    id: Seq<char>,
    entries: Seq<CalendarEntryView>,
    calendar_id: Seq<char>,
    event: JsonView,
    token: Seq<char>,
    replace: bool,
    now: Seq<char>,
)
    ensures
        tables.replace_calendars(id, entries) is Ok <==> entries.len() == 0 || exists|i: int|
            0 <= i < tables.accounts.len() && (#[trigger] tables.accounts[i]).row.account_id == id,
        !is_cancelled(event) && event_row(id, calendar_id, event) is Some && (forall|i: int|
            0 <= i < tables.calendars.len() ==> !((#[trigger] tables.calendars[i]).account_id == id
                && tables.calendars[i].calendar_id == calendar_id)) ==> tables.apply_events(
            id,
            calendar_id,
            seq![event],
            token,
            replace,
            now,
        ) is Err,
{
    if tables.has_account(id) {
        let i = choose|i: int|
            0 <= i < tables.accounts.len() && named_account(id)(#[trigger] tables.accounts[i]);
        assert(tables.accounts[i].row.account_id == id);
    }
    if exists|i: int|
        0 <= i < tables.accounts.len() && (#[trigger] tables.accounts[i]).row.account_id == id {
        let i = choose|i: int|
            0 <= i < tables.accounts.len() && (#[trigger] tables.accounts[i]).row.account_id == id;
        assert(named_account(id)(tables.accounts[i]));
    }
    if tables.has_calendar(id, calendar_id) {
        let i = choose|i: int|
            0 <= i < tables.calendars.len() && calendar_at(id, calendar_id)(
                #[trigger] tables.calendars[i],
            );
        assert(tables.calendars[i].account_id == id);
    }
    let one = seq![event];
    assert(one.last() == event);
    assert(one.drop_last() =~= Seq::<JsonView>::empty());
    reveal_strlit("");
    reveal_with_fuel(event_steps, 2);
}

} // verus!
