//! What every operation on the cache keeps: identities name one row each, rows name only rows that
//! are there, and accounts do not touch each other.
use vstd::prelude::*;

use crate::entries::{CalendarEntryView, TaskListEntryView};
use crate::json::JsonView;
use crate::normalize::{event_row, field_or, task_row};
use crate::records::{StoredCalendarView, StoredEventView, StoredTaskListView, StoredTaskView};
use crate::table::{all, any, filter_rows, revised, unique};
use crate::tables::{
    account_key, calendar_at, calendar_key, entry_ids, event_at, event_identified, event_item_key,
    event_key, event_steps, foreign_calendar, foreign_event, foreign_task, foreign_task_list,
    forgetting, named_account, naming_refusal, new_account, new_calendar, new_task_list,
    other_account, other_event, outside_calendar, put_calendars, put_event, refused_before,
    remaining_calendar, remaining_event, replacing, reporting, rival_account, rival_event,
    same_item, same_task, signing_in, subject_key, syncing, syncing_events, task_identified,
    task_item_key, task_key, task_list_at, task_list_key, task_list_step, task_list_steps,
    task_steps, tasks_of, ListsAndTasks, Tables, TasksByList,
};

verus! {

proof fn filter_unique<A, K>(list: Seq<A>, property: spec_fn(A) -> bool, key: spec_fn(A) -> K)
    requires
        unique(list, key),
    ensures
        unique(list.filter(property), key),
    decreases list.len(),
{
    reveal(Seq::filter);
    if list.len() > 0 {
        let front = list.drop_last();
        assert forall|i: int, j: int| 0 <= i < j < front.len() implies key(#[trigger] front[i])
            != key(#[trigger] front[j]) by {
            assert(front[i] == list[i] && front[j] == list[j]);
        }
        filter_unique(front, property, key);
        filter_rows(front, property);
        if property(list.last()) {
            let inner = front.filter(property);
            let kept = list.filter(property);
            assert forall|i: int, j: int| 0 <= i < j < kept.len() implies key(#[trigger] kept[i])
                != key(#[trigger] kept[j]) by {
                if j < inner.len() {
                    assert(kept[i] == inner[i] && kept[j] == inner[j]);
                } else {
                    assert(kept[i] == inner[i]);
                    assert(inner.contains(inner[i]));
                    assert(front.contains(inner[i]));
                    let k = choose|k: int| 0 <= k < front.len() && front[k] == inner[i];
                    assert(list[k] == front[k]);
                    assert(list[list.len() - 1] == kept[j]);
                }
            }
        }
    }
}

proof fn filter_any<A>(list: Seq<A>, property: spec_fn(A) -> bool, wanted: spec_fn(A) -> bool)
    requires
        any(list, wanted),
        forall|row: A| #[trigger] wanted(row) ==> property(row),
    ensures
        any(list.filter(property), wanted),
{
    filter_rows(list, property);
    let i = choose|i: int| 0 <= i < list.len() && wanted(#[trigger] list[i]);
    assert(list.contains(list[i]));
    let kept = list.filter(property);
    assert(kept.contains(list[i]));
    let j = choose|j: int| 0 <= j < kept.len() && kept[j] == list[i];
    assert(wanted(kept[j]));
}

proof fn filter_member<A>(list: Seq<A>, property: spec_fn(A) -> bool, at: int) -> (from: int)
    requires
        0 <= at < list.filter(property).len(),
    ensures
        0 <= from < list.len(),
        list[from] == list.filter(property)[at],
        property(list[from]),
{
    filter_rows(list, property);
    let row = list.filter(property)[at];
    assert(list.filter(property).contains(row));
    choose|k: int| 0 <= k < list.len() && list[k] == row
}

proof fn filter_all<A>(list: Seq<A>, property: spec_fn(A) -> bool, wanted: spec_fn(A) -> bool)
    requires
        all(list, wanted),
    ensures
        all(list.filter(property), wanted),
{
    let kept = list.filter(property);
    assert forall|i: int| 0 <= i < kept.len() implies wanted(#[trigger] kept[i]) by {
        let k = filter_member(list, property, i);
        assert(wanted(list[k]));
    }
}

proof fn revised_unique<A, K>(
    list: Seq<A>,
    property: spec_fn(A) -> bool,
    change: spec_fn(A) -> A,
    key: spec_fn(A) -> K,
)
    requires
        unique(list, key),
        forall|row: A| property(row) ==> key(#[trigger] change(row)) == key(row),
    ensures
        unique(revised(list, property, change), key),
{
    let after = revised(list, property, change);
    assert forall|i: int, j: int| 0 <= i < j < after.len() implies key(#[trigger] after[i]) != key(
        #[trigger] after[j],
    ) by {
        assert(key(list[i]) != key(list[j]));
    }
}

proof fn revised_any<A>(
    list: Seq<A>,
    property: spec_fn(A) -> bool,
    change: spec_fn(A) -> A,
    wanted: spec_fn(A) -> bool,
)
    requires
        any(list, wanted),
        forall|row: A| property(row) && wanted(row) ==> wanted(#[trigger] change(row)),
    ensures
        any(revised(list, property, change), wanted),
{
    let i = choose|i: int| 0 <= i < list.len() && wanted(#[trigger] list[i]);
    let after = revised(list, property, change);
    assert(wanted(after[i]));
}

proof fn push_any<A>(list: Seq<A>, row: A, wanted: spec_fn(A) -> bool)
    requires
        any(list, wanted),
    ensures
        any(list.push(row), wanted),
{
    let i = choose|i: int| 0 <= i < list.len() && wanted(#[trigger] list[i]);
    assert(wanted(list.push(row)[i]));
}

proof fn push_unique<A, K>(list: Seq<A>, row: A, key: spec_fn(A) -> K)
    requires
        unique(list, key),
        forall|i: int| 0 <= i < list.len() ==> key(#[trigger] list[i]) != key(row),
    ensures
        unique(list.push(row), key),
{
    let after = list.push(row);
    assert forall|i: int, j: int| 0 <= i < j < after.len() implies key(#[trigger] after[i]) != key(
        #[trigger] after[j],
    ) by {
        assert(after[i] == list[i]);
        if j < list.len() {
            assert(after[j] == list[j]);
        }
    }
}

/// Signing in keeps identities and references.
pub proof fn upsert_account_keeps(
    tables: Tables,
    id: Seq<char>,
    subject: Seq<char>,
    email: Seq<char>,
    label: Seq<char>,
    now: Seq<char>,
)
    requires
        tables.wf(),
    ensures
        tables.upsert_account(id, subject, email, label, now) matches Ok(after) ==> after.wf(),
{
    if let Ok(after) = tables.upsert_account(id, subject, email, label, now) {
        let accounts = tables.accounts;
        if tables.has_account(id) {
            let change = signing_in(subject, email, label, now);
            revised_unique(accounts, named_account(id), change, account_key());
            assert forall|i: int, j: int| 0 <= i < j < after.accounts.len() implies subject_key()(
                #[trigger] after.accounts[i],
            ) != subject_key()(#[trigger] after.accounts[j]) by {
                assert(account_key()(accounts[i]) != account_key()(accounts[j]));
                assert(subject_key()(accounts[i]) != subject_key()(accounts[j]));
                assert(!rival_account(id, subject)(accounts[i]));
                assert(!rival_account(id, subject)(accounts[j]));
            }
            assert forall|other: Seq<char>| tables.has_account(other) implies after.has_account(
                other,
            ) by {
                revised_any(accounts, named_account(id), change, named_account(other));
            }
        } else {
            let row = new_account(id, subject, email, label, now);
            assert forall|i: int| 0 <= i < accounts.len() implies account_key()(
                #[trigger] accounts[i],
            ) != account_key()(row) && subject_key()(accounts[i]) != subject_key()(row) by {
                assert(!named_account(id)(accounts[i]));
                assert(!rival_account(id, subject)(accounts[i]));
            }
            push_unique(accounts, row, account_key());
            push_unique(accounts, row, subject_key());
            assert forall|other: Seq<char>| tables.has_account(other) implies after.has_account(
                other,
            ) by {
                push_any(accounts, row, named_account(other));
            }
        }
    }
}

/// Naming old errors keeps identities and references.
pub proof fn migrated_keeps(tables: Tables)
    requires
        tables.wf(),
    ensures
        tables.migrated().wf(),
{
    let after = tables.migrated();
    revised_unique(tables.accounts, refused_before(), naming_refusal(), account_key());
    revised_unique(tables.accounts, refused_before(), naming_refusal(), subject_key());
    assert forall|other: Seq<char>| tables.has_account(other) implies after.has_account(other) by {
        revised_any(tables.accounts, refused_before(), naming_refusal(), named_account(other));
    }
}

/// Whether no account has an error that was kept without its code.
pub open spec fn is_settled(tables: Tables) -> bool {
    !any(tables.accounts, refused_before())
}

/// To name old errors twice is to name them once: rows that were restored, kept and restored again
/// stay as they are.
pub proof fn migrated_once(tables: Tables)
    ensures
        tables.migrated().migrated() == tables.migrated(),
        is_settled(tables.migrated()),
{
    let after = tables.migrated();
    if any(after.accounts, refused_before()) {
        let i = choose|i: int|
            0 <= i < after.accounts.len() && refused_before()(#[trigger] after.accounts[i]);
        assert(refused_before()(tables.accounts[i]) ==> after.accounts[i] == naming_refusal()(
            tables.accounts[i],
        ));
    }
    reopening_keeps_rows(after);
}

/// Where no error lacks its code, rows that are kept and restored stay as they are.
pub proof fn reopening_keeps_rows(tables: Tables)
    requires
        is_settled(tables),
    ensures
        tables.migrated() == tables,
{
    assert(tables.migrated().accounts =~= tables.accounts) by {
        assert forall|i: int| 0 <= i < tables.accounts.len() implies !refused_before()(
            #[trigger] tables.accounts[i],
        ) by {}
    }
}

/// No operation brings back an error without its code, so a cache that was opened, used and kept is
/// the same when it is opened again.
pub proof fn operations_stay_settled(
    tables: Tables,
    id: Seq<char>,
    subject: Seq<char>,
    email: Seq<char>,
    label: Seq<char>,
    code: Option<Seq<char>>,
    message: Option<Seq<char>>,
    calendars: Seq<CalendarEntryView>,
    calendar_id: Seq<char>,
    events: Seq<JsonView>,
    token: Seq<char>,
    replace: bool,
    lists: Seq<TaskListEntryView>,
    tasks: TasksByList,
    now: Seq<char>,
)
    requires
        is_settled(tables),
        message is Some ==> code is Some,
    ensures
        is_settled(Tables::empty()),
        tables.upsert_account(id, subject, email, label, now) matches Ok(after) ==> is_settled(
            after,
        ),
        is_settled(tables.delete_account(id)),
        is_settled(tables.set_sync_result(id, code, message, now)),
        tables.replace_calendars(id, calendars) matches Ok(after) ==> is_settled(after),
        tables.apply_events(id, calendar_id, events, token, replace, now) matches Ok(after)
            ==> is_settled(after),
        is_settled(tables.clear_calendar_sync(id, calendar_id)),
        tables.replace_tasks(id, lists, tasks) matches Ok(after) ==> is_settled(after),
{
    assert forall|i: int| 0 <= i < tables.accounts.len() implies !refused_before()(
        #[trigger] tables.accounts[i],
    ) by {}
    if let Ok(after) = tables.upsert_account(id, subject, email, label, now) {
        if any(after.accounts, refused_before()) {
            let i = choose|i: int|
                0 <= i < after.accounts.len() && refused_before()(#[trigger] after.accounts[i]);
            if i < tables.accounts.len() {
                assert(!refused_before()(tables.accounts[i]));
            }
        }
    }
    let removed = tables.delete_account(id);
    if any(removed.accounts, refused_before()) {
        let i = choose|i: int|
            0 <= i < removed.accounts.len() && refused_before()(#[trigger] removed.accounts[i]);
        let k = filter_member(tables.accounts, other_account(id), i);
        assert(!refused_before()(tables.accounts[k]));
    }
    let noted = tables.set_sync_result(id, code, message, now);
    if any(noted.accounts, refused_before()) {
        let i = choose|i: int|
            0 <= i < noted.accounts.len() && refused_before()(#[trigger] noted.accounts[i]);
        assert(!refused_before()(tables.accounts[i]));
    }
}

/// Noting the outcome of a synchronization keeps identities and references.
pub proof fn set_sync_result_keeps(
    tables: Tables,
    id: Seq<char>,
    code: Option<Seq<char>>,
    message: Option<Seq<char>>,
    now: Seq<char>,
)
    requires
        tables.wf(),
    ensures
        tables.set_sync_result(id, code, message, now).wf(),
{
    let change = syncing(code, message, now);
    let after = tables.set_sync_result(id, code, message, now);
    revised_unique(tables.accounts, named_account(id), change, account_key());
    revised_unique(tables.accounts, named_account(id), change, subject_key());
    assert forall|other: Seq<char>| tables.has_account(other) implies after.has_account(other) by {
        revised_any(tables.accounts, named_account(id), change, named_account(other));
    }
}

/// Removing an account keeps identities and references.
pub proof fn delete_account_keeps(tables: Tables, id: Seq<char>)
    requires
        tables.wf(),
    ensures
        tables.delete_account(id).wf(),
{
    let after = tables.delete_account(id);
    filter_unique(tables.accounts, other_account(id), account_key());
    filter_unique(tables.accounts, other_account(id), subject_key());
    filter_unique(tables.calendars, foreign_calendar(id), calendar_key());
    filter_unique(tables.events, foreign_event(id), event_key());
    filter_unique(tables.events, foreign_event(id), event_item_key());
    filter_unique(tables.task_lists, foreign_task_list(id), task_list_key());
    filter_unique(tables.tasks, foreign_task(id), task_key());
    filter_unique(tables.tasks, foreign_task(id), task_item_key());
    filter_all(tables.events, foreign_event(id), event_identified());
    filter_all(tables.tasks, foreign_task(id), task_identified());
    assert forall|i: int| 0 <= i < after.calendars.len() implies after.has_account(
        (#[trigger] after.calendars[i]).account_id,
    ) by {
        let k = filter_member(tables.calendars, foreign_calendar(id), i);
        filter_any(
            tables.accounts,
            other_account(id),
            named_account(tables.calendars[k].account_id),
        );
    }
    assert forall|i: int| 0 <= i < after.events.len() implies after.has_calendar(
        (#[trigger] after.events[i]).account_id,
        after.events[i].calendar_id,
    ) by {
        let k = filter_member(tables.events, foreign_event(id), i);
        let event = tables.events[k];
        filter_any(
            tables.calendars,
            foreign_calendar(id),
            calendar_at(event.account_id, event.calendar_id),
        );
    }
    assert forall|i: int| 0 <= i < after.task_lists.len() implies after.has_account(
        (#[trigger] after.task_lists[i]).account_id,
    ) by {
        let k = filter_member(tables.task_lists, foreign_task_list(id), i);
        filter_any(
            tables.accounts,
            other_account(id),
            named_account(tables.task_lists[k].account_id),
        );
    }
    assert forall|i: int| 0 <= i < after.tasks.len() implies after.has_task_list(
        (#[trigger] after.tasks[i]).account_id,
        after.tasks[i].task_list_id,
    ) by {
        let k = filter_member(tables.tasks, foreign_task(id), i);
        let task = tables.tasks[k];
        filter_any(
            tables.task_lists,
            foreign_task_list(id),
            task_list_at(task.account_id, task.task_list_id),
        );
    }
}

/// After its removal nothing of an account is left.
pub proof fn delete_account_clears(tables: Tables, id: Seq<char>)
    ensures
        !tables.delete_account(id).has_account(id),
        forall|i: int|
            0 <= i < tables.delete_account(id).calendars.len() ==> (
            #[trigger] tables.delete_account(id).calendars[i]).account_id != id,
        forall|i: int|
            0 <= i < tables.delete_account(id).events.len() ==> (
            #[trigger] tables.delete_account(id).events[i]).account_id != id,
        forall|i: int|
            0 <= i < tables.delete_account(id).task_lists.len() ==> (
            #[trigger] tables.delete_account(id).task_lists[i]).account_id != id,
        forall|i: int|
            0 <= i < tables.delete_account(id).tasks.len() ==> (
            #[trigger] tables.delete_account(id).tasks[i]).account_id != id,
{
    let after = tables.delete_account(id);
    if after.has_account(id) {
        let i = choose|i: int|
            0 <= i < after.accounts.len() && named_account(id)(#[trigger] after.accounts[i]);
        let k = filter_member(tables.accounts, other_account(id), i);
    }
    assert forall|i: int| 0 <= i < after.calendars.len() implies (
    #[trigger] after.calendars[i]).account_id != id by {
        let k = filter_member(tables.calendars, foreign_calendar(id), i);
    }
    assert forall|i: int| 0 <= i < after.events.len() implies (
    #[trigger] after.events[i]).account_id != id by {
        let k = filter_member(tables.events, foreign_event(id), i);
    }
    assert forall|i: int| 0 <= i < after.task_lists.len() implies (
    #[trigger] after.task_lists[i]).account_id != id by {
        let k = filter_member(tables.task_lists, foreign_task_list(id), i);
    }
    assert forall|i: int| 0 <= i < after.tasks.len() implies (
    #[trigger] after.tasks[i]).account_id != id by {
        let k = filter_member(tables.tasks, foreign_task(id), i);
    }
}

proof fn put_calendars_keeps(
    calendars: Seq<StoredCalendarView>,
    id: Seq<char>,
    entries: Seq<CalendarEntryView>,
)
    requires
        unique(calendars, calendar_key()),
    ensures
        unique(put_calendars(calendars, id, entries), calendar_key()),
        forall|account_id: Seq<char>, calendar_id: Seq<char>| #[trigger]
            any(calendars, calendar_at(account_id, calendar_id)) ==> any(
                put_calendars(calendars, id, entries),
                calendar_at(account_id, calendar_id),
            ),
        forall|i: int|
            0 <= i < put_calendars(calendars, id, entries).len() ==> ({
                let row = #[trigger] put_calendars(calendars, id, entries)[i];
                (entries.len() > 0 && row.account_id == id) || exists|k: int|
                    0 <= k < calendars.len() && (#[trigger] calendars[k]).account_id
                        == row.account_id
            }),
    decreases entries.len(),
{
    if entries.len() > 0 {
        let front = entries.drop_last();
        let entry = entries.last();
        put_calendars_keeps(calendars, id, front);
        let before = put_calendars(calendars, id, front);
        let after = put_calendars(calendars, id, entries);
        let wanted = calendar_at(id, entry.id);
        if any(before, wanted) {
            revised_unique(before, wanted, reporting(entry), calendar_key());
            assert forall|account_id: Seq<char>, calendar_id: Seq<char>| #[trigger]
                any(calendars, calendar_at(account_id, calendar_id)) implies any(
                after,
                calendar_at(account_id, calendar_id),
            ) by {
                revised_any(before, wanted, reporting(entry), calendar_at(account_id, calendar_id));
            }
            assert forall|i: int| 0 <= i < after.len() implies ({
                let row = #[trigger] after[i];
                (entries.len() > 0 && row.account_id == id) || exists|k: int|
                    0 <= k < calendars.len() && (#[trigger] calendars[k]).account_id
                        == row.account_id
            }) by {
                assert(before[i].account_id == after[i].account_id);
            }
        } else {
            let row = new_calendar(id, entry);
            assert forall|i: int| 0 <= i < before.len() implies calendar_key()(#[trigger] before[i])
                != calendar_key()(row) by {
                assert(!wanted(before[i]));
            }
            push_unique(before, row, calendar_key());
            assert forall|account_id: Seq<char>, calendar_id: Seq<char>| #[trigger]
                any(calendars, calendar_at(account_id, calendar_id)) implies any(
                after,
                calendar_at(account_id, calendar_id),
            ) by {
                push_any(before, row, calendar_at(account_id, calendar_id));
            }
            assert forall|i: int| 0 <= i < after.len() implies ({
                let row = #[trigger] after[i];
                (entries.len() > 0 && row.account_id == id) || exists|k: int|
                    0 <= k < calendars.len() && (#[trigger] calendars[k]).account_id
                        == row.account_id
            }) by {
                if i < before.len() {
                    assert(before[i] == after[i]);
                }
            }
        }
    } else {
        assert forall|i: int| 0 <= i < calendars.len() implies exists|k: int|
            0 <= k < calendars.len() && (#[trigger] calendars[k]).account_id == (
            #[trigger] calendars[i]).account_id by {
            assert(calendars[i].account_id == calendars[i].account_id);
        }
    }
}

/// Taking in the calendars of an account keeps identities and references.
pub proof fn replace_calendars_keeps(
    tables: Tables,
    id: Seq<char>,
    entries: Seq<CalendarEntryView>,
)
    requires
        tables.wf(),
    ensures
        tables.replace_calendars(id, entries) matches Ok(after) ==> after.wf(),
{
    if let Ok(after) = tables.replace_calendars(id, entries) {
        let incoming = entry_ids(entries);
        let written = put_calendars(tables.calendars, id, entries);
        put_calendars_keeps(tables.calendars, id, entries);
        filter_unique(written, remaining_calendar(id, incoming), calendar_key());
        filter_unique(tables.events, remaining_event(id, incoming), event_key());
        filter_unique(tables.events, remaining_event(id, incoming), event_item_key());
        filter_all(tables.events, remaining_event(id, incoming), event_identified());
        assert forall|i: int| 0 <= i < after.calendars.len() implies after.has_account(
            (#[trigger] after.calendars[i]).account_id,
        ) by {
            let k = filter_member(written, remaining_calendar(id, incoming), i);
            let row = written[k];
            if !(entries.len() > 0 && row.account_id == id) {
                let m = choose|m: int|
                    0 <= m < tables.calendars.len() && (#[trigger] tables.calendars[m]).account_id
                        == row.account_id;
                assert(tables.has_account(tables.calendars[m].account_id));
            }
        }
        assert forall|i: int| 0 <= i < after.events.len() implies after.has_calendar(
            (#[trigger] after.events[i]).account_id,
            after.events[i].calendar_id,
        ) by {
            let k = filter_member(tables.events, remaining_event(id, incoming), i);
            let event = tables.events[k];
            assert(tables.has_calendar(event.account_id, event.calendar_id));
            filter_any(
                written,
                remaining_calendar(id, incoming),
                calendar_at(event.account_id, event.calendar_id),
            );
        }
    }
}

/// Events with identities of their own, each of a calendar that is there.
spec fn sound_events(events: Seq<StoredEventView>, calendars: Seq<StoredCalendarView>) -> bool {
    &&& unique(events, event_key())
    &&& unique(events, event_item_key())
    &&& all(events, event_identified())
    &&& forall|i: int|
        0 <= i < events.len() ==> any(
            calendars,
            calendar_at((#[trigger] events[i]).account_id, events[i].calendar_id),
        )
}

proof fn filter_sound(
    events: Seq<StoredEventView>,
    property: spec_fn(StoredEventView) -> bool,
    calendars: Seq<StoredCalendarView>,
)
    requires
        sound_events(events, calendars),
    ensures
        sound_events(events.filter(property), calendars),
{
    filter_unique(events, property, event_key());
    filter_unique(events, property, event_item_key());
    filter_all(events, property, event_identified());
    let kept = events.filter(property);
    assert forall|i: int| 0 <= i < kept.len() implies any(
        calendars,
        calendar_at((#[trigger] kept[i]).account_id, kept[i].calendar_id),
    ) by {
        let k = filter_member(events, property, i);
        assert(events[k] == kept[i]);
    }
}

proof fn put_event_sound(
    events: Seq<StoredEventView>,
    row: StoredEventView,
    calendars: Seq<StoredCalendarView>,
)
    requires
        sound_events(events, calendars),
        !any(events, rival_event(row)),
        event_identified()(row),
        any(calendars, calendar_at(row.account_id, row.calendar_id)),
    ensures
        sound_events(put_event(events, row), calendars),
{
    let same = event_at(row.account_id, row.calendar_id, row.event_id);
    let after = put_event(events, row);
    assert forall|i: int| 0 <= i < after.len() implies event_identified()(#[trigger] after[i]) by {
        if i < events.len() {
            assert(event_identified()(events[i]));
        }
    }
    if any(events, same) {
        revised_unique(events, same, replacing(row), event_key());
        assert forall|i: int, j: int| 0 <= i < j < after.len() implies event_item_key()(
            #[trigger] after[i],
        ) != event_item_key()(#[trigger] after[j]) by {
            assert(event_key()(events[i]) != event_key()(events[j]));
            assert(event_item_key()(events[i]) != event_item_key()(events[j]));
            assert(!rival_event(row)(events[i]));
            assert(!rival_event(row)(events[j]));
        }
        assert forall|i: int| 0 <= i < after.len() implies any(
            calendars,
            calendar_at((#[trigger] after[i]).account_id, after[i].calendar_id),
        ) by {
            assert(any(calendars, calendar_at(events[i].account_id, events[i].calendar_id)));
        }
    } else {
        assert forall|i: int| 0 <= i < events.len() implies event_key()(#[trigger] events[i])
            != event_key()(row) && event_item_key()(events[i]) != event_item_key()(row) by {
            assert(!same(events[i]));
            assert(!rival_event(row)(events[i]));
        }
        push_unique(events, row, event_key());
        push_unique(events, row, event_item_key());
        assert forall|i: int| 0 <= i < after.len() implies any(
            calendars,
            calendar_at((#[trigger] after[i]).account_id, after[i].calendar_id),
        ) by {
            if i < events.len() {
                assert(after[i] == events[i]);
            }
        }
    }
}

proof fn event_steps_sound(
    events: Seq<StoredEventView>,
    calendars: Seq<StoredCalendarView>,
    account_id: Seq<char>,
    calendar_id: Seq<char>,
    reported: Seq<JsonView>,
)
    requires
        sound_events(events, calendars),
    ensures
        event_steps(
            events,
            any(calendars, calendar_at(account_id, calendar_id)),
            account_id,
            calendar_id,
            reported,
        ) matches Ok(after) ==> sound_events(after, calendars),
    decreases reported.len(),
{
    let known = any(calendars, calendar_at(account_id, calendar_id));
    if reported.len() > 0 {
        event_steps_sound(events, calendars, account_id, calendar_id, reported.drop_last());
        if let Ok(before) = event_steps(
            events,
            known,
            account_id,
            calendar_id,
            reported.drop_last(),
        ) {
            let event = reported.last();
            let event_id = field_or(event, "id"@, ""@);
            filter_sound(before, other_event(account_id, calendar_id, event_id), calendars);
            if let Some(row) = event_row(account_id, calendar_id, event) {
                if !any(before, rival_event(row)) && known {
                    put_event_sound(before, row, calendars);
                }
            }
        }
    }
}

/// Taking in the events of a calendar keeps identities and references.
pub proof fn apply_events_keeps(
    tables: Tables,
    account_id: Seq<char>,
    calendar_id: Seq<char>,
    reported: Seq<JsonView>,
    token: Seq<char>,
    replace: bool,
    now: Seq<char>,
)
    requires
        tables.wf(),
    ensures
        tables.apply_events(account_id, calendar_id, reported, token, replace, now) matches Ok(
            after,
        ) ==> after.wf(),
{
    if let Ok(after) = tables.apply_events(
        account_id,
        calendar_id,
        reported,
        token,
        replace,
        now,
    ) {
        let before = if replace {
            tables.events.filter(outside_calendar(account_id, calendar_id))
        } else {
            tables.events
        };
        assert(sound_events(tables.events, tables.calendars)) by {
            assert forall|i: int| 0 <= i < tables.events.len() implies any(
                tables.calendars,
                calendar_at(
                    (#[trigger] tables.events[i]).account_id,
                    tables.events[i].calendar_id,
                ),
            ) by {
                assert(tables.has_calendar(
                    tables.events[i].account_id,
                    tables.events[i].calendar_id,
                ));
            }
        }
        filter_sound(tables.events, outside_calendar(account_id, calendar_id), tables.calendars);
        event_steps_sound(before, tables.calendars, account_id, calendar_id, reported);
        let changed = calendar_at(account_id, calendar_id);
        let change = syncing_events(token, replace, now);
        calendars_changed(tables, after, changed, change);
    }
}

proof fn calendars_changed(
    tables: Tables,
    after: Tables,
    property: spec_fn(StoredCalendarView) -> bool,
    change: spec_fn(StoredCalendarView) -> StoredCalendarView,
)
    requires
        tables.wf(),
        after.accounts == tables.accounts,
        after.task_lists == tables.task_lists,
        after.tasks == tables.tasks,
        after.calendars == revised(tables.calendars, property, change),
        sound_events(after.events, tables.calendars),
        forall|row: StoredCalendarView|
            (#[trigger] change(row)).account_id == row.account_id && change(row).calendar_id
                == row.calendar_id,
    ensures
        after.wf(),
{
    revised_unique(tables.calendars, property, change, calendar_key());
    assert forall|i: int| 0 <= i < after.calendars.len() implies after.has_account(
        (#[trigger] after.calendars[i]).account_id,
    ) by {
        assert(tables.has_account(tables.calendars[i].account_id));
    }
    assert forall|i: int| 0 <= i < after.events.len() implies after.has_calendar(
        (#[trigger] after.events[i]).account_id,
        after.events[i].calendar_id,
    ) by {
        revised_any(
            tables.calendars,
            property,
            change,
            calendar_at(after.events[i].account_id, after.events[i].calendar_id),
        );
    }
    assert forall|i: int| 0 <= i < after.task_lists.len() implies after.has_account(
        (#[trigger] after.task_lists[i]).account_id,
    ) by {
        assert(tables.has_account(tables.task_lists[i].account_id));
    }
    assert forall|i: int| 0 <= i < after.tasks.len() implies after.has_task_list(
        (#[trigger] after.tasks[i]).account_id,
        after.tasks[i].task_list_id,
    ) by {
        assert(tables.has_task_list(tables.tasks[i].account_id, tables.tasks[i].task_list_id));
    }
}

/// Dropping the events of a calendar keeps identities and references.
pub proof fn clear_calendar_sync_keeps(
    tables: Tables,
    account_id: Seq<char>,
    calendar_id: Seq<char>,
)
    requires
        tables.wf(),
    ensures
        tables.clear_calendar_sync(account_id, calendar_id).wf(),
{
    let after = tables.clear_calendar_sync(account_id, calendar_id);
    assert(sound_events(tables.events, tables.calendars)) by {
        assert forall|i: int| 0 <= i < tables.events.len() implies any(
            tables.calendars,
            calendar_at((#[trigger] tables.events[i]).account_id, tables.events[i].calendar_id),
        ) by {
            assert(tables.has_calendar(tables.events[i].account_id, tables.events[i].calendar_id));
        }
    }
    filter_sound(tables.events, outside_calendar(account_id, calendar_id), tables.calendars);
    calendars_changed(tables, after, calendar_at(account_id, calendar_id), forgetting());
}

/// Task lists and tasks with identities of their own, each task of a list that is there.
spec fn sound_tasks(state: ListsAndTasks) -> bool {
    &&& unique(state.0, task_list_key())
    &&& unique(state.1, task_key())
    &&& unique(state.1, task_item_key())
    &&& all(state.1, task_identified())
    &&& forall|i: int|
        0 <= i < state.1.len() ==> any(
            state.0,
            task_list_at((#[trigger] state.1[i]).account_id, state.1[i].task_list_id),
        )
}

proof fn task_steps_sound(
    lists: Seq<StoredTaskListView>,
    tasks: Seq<StoredTaskView>,
    account_id: Seq<char>,
    task_list_id: Seq<char>,
    reported: Seq<JsonView>,
)
    requires
        sound_tasks((lists, tasks)),
        any(lists, task_list_at(account_id, task_list_id)),
    ensures
        task_steps(tasks, account_id, task_list_id, reported) matches Ok(after) ==> sound_tasks(
            (lists, after),
        ),
    decreases reported.len(),
{
    if reported.len() > 0 {
        task_steps_sound(lists, tasks, account_id, task_list_id, reported.drop_last());
        if let Ok(before) = task_steps(tasks, account_id, task_list_id, reported.drop_last()) {
            if let Some(row) = task_row(account_id, task_list_id, reported.last()) {
                if !any(before, same_task(row)) && !any(before, same_item(row)) {
                    assert forall|i: int| 0 <= i < before.len() implies task_key()(
                        #[trigger] before[i],
                    ) != task_key()(row) && task_item_key()(before[i]) != task_item_key()(row) by {
                        assert(!same_task(row)(before[i]));
                        assert(!same_item(row)(before[i]));
                    }
                    push_unique(before, row, task_key());
                    push_unique(before, row, task_item_key());
                    let after = before.push(row);
                    assert forall|i: int| 0 <= i < after.len() implies task_identified()(
                        #[trigger] after[i],
                    ) by {
                        if i < before.len() {
                            assert((lists, before).1[i] == before[i]);
                            assert(task_identified()(before[i]));
                        }
                    }
                    assert forall|i: int| 0 <= i < after.len() implies any(
                        lists,
                        task_list_at((#[trigger] after[i]).account_id, after[i].task_list_id),
                    ) by {
                        if i < before.len() {
                            assert(after[i] == before[i]);
                            assert((lists, before).1[i] == before[i]);
                        }
                    }
                }
            }
        }
    }
}

proof fn task_list_steps_sound(
    state: ListsAndTasks,
    account_known: bool,
    id: Seq<char>,
    entries: Seq<TaskListEntryView>,
    tasks: TasksByList,
)
    requires
        sound_tasks(state),
    ensures
        task_list_steps(state, account_known, id, entries, tasks) matches Ok(after) ==> {
            &&& sound_tasks(after)
            &&& forall|i: int|
                0 <= i < after.0.len() ==> ({
                    let list = #[trigger] after.0[i];
                    (account_known && list.account_id == id) || exists|k: int|
                        0 <= k < state.0.len() && (#[trigger] state.0[k]).account_id
                            == list.account_id
                })
        },
    decreases entries.len(),
{
    if entries.len() > 0 {
        let front = entries.drop_last();
        let entry = entries.last();
        task_list_steps_sound(state, account_known, id, front, tasks);
        if let Ok(before) = task_list_steps(state, account_known, id, front, tasks) {
            if let Ok(after) = task_list_step(before, account_known, id, entry, tasks) {
                let row = new_task_list(id, entry);
                assert forall|i: int| 0 <= i < before.0.len() implies task_list_key()(
                    #[trigger] before.0[i],
                ) != task_list_key()(row) by {
                    assert(!task_list_at(id, entry.id)(before.0[i]));
                }
                push_unique(before.0, row, task_list_key());
                assert(task_list_at(id, entry.id)(after.0[before.0.len() as int]));
                assert forall|i: int| 0 <= i < before.1.len() implies any(
                    after.0,
                    task_list_at((#[trigger] before.1[i]).account_id, before.1[i].task_list_id),
                ) by {
                    push_any(
                        before.0,
                        row,
                        task_list_at(before.1[i].account_id, before.1[i].task_list_id),
                    );
                }
                assert(sound_tasks((after.0, before.1)));
                task_steps_sound(after.0, before.1, id, entry.id, tasks_of(tasks, entry.id));
                assert forall|i: int| 0 <= i < after.0.len() implies ({
                    let list = #[trigger] after.0[i];
                    (account_known && list.account_id == id) || exists|k: int|
                        0 <= k < state.0.len() && (#[trigger] state.0[k]).account_id
                            == list.account_id
                }) by {
                    if i < before.0.len() {
                        assert(after.0[i] == before.0[i]);
                    }
                }
            }
        }
    } else {
        assert forall|i: int| 0 <= i < state.0.len() implies exists|k: int|
            0 <= k < state.0.len() && (#[trigger] state.0[k]).account_id == (
            #[trigger] state.0[i]).account_id by {
            assert(state.0[i].account_id == state.0[i].account_id);
        }
    }
}

/// Taking in the task lists of an account keeps identities and references.
pub proof fn replace_tasks_keeps(
    tables: Tables,
    id: Seq<char>,
    entries: Seq<TaskListEntryView>,
    tasks: TasksByList,
)
    requires
        tables.wf(),
    ensures
        tables.replace_tasks(id, entries, tasks) matches Ok(after) ==> after.wf(),
{
    if let Ok(after) = tables.replace_tasks(id, entries, tasks) {
        let lists = tables.task_lists.filter(foreign_task_list(id));
        let stored = tables.tasks.filter(foreign_task(id));
        filter_unique(tables.task_lists, foreign_task_list(id), task_list_key());
        filter_unique(tables.tasks, foreign_task(id), task_key());
        filter_unique(tables.tasks, foreign_task(id), task_item_key());
        filter_all(tables.tasks, foreign_task(id), task_identified());
        assert forall|i: int| 0 <= i < stored.len() implies any(
            lists,
            task_list_at((#[trigger] stored[i]).account_id, stored[i].task_list_id),
        ) by {
            let k = filter_member(tables.tasks, foreign_task(id), i);
            let task = tables.tasks[k];
            assert(tables.has_task_list(task.account_id, task.task_list_id));
            filter_any(
                tables.task_lists,
                foreign_task_list(id),
                task_list_at(task.account_id, task.task_list_id),
            );
        }
        assert(sound_tasks((lists, stored)));
        task_list_steps_sound((lists, stored), tables.has_account(id), id, entries, tasks);
        assert forall|i: int| 0 <= i < after.task_lists.len() implies after.has_account(
            (#[trigger] after.task_lists[i]).account_id,
        ) by {
            let list = after.task_lists[i];
            if !(tables.has_account(id) && list.account_id == id) {
                let m = choose|m: int|
                    0 <= m < lists.len() && (#[trigger] lists[m]).account_id == list.account_id;
                let k = filter_member(tables.task_lists, foreign_task_list(id), m);
                assert(tables.has_account(tables.task_lists[k].account_id));
            }
        }
        assert forall|i: int| 0 <= i < after.tasks.len() implies after.has_task_list(
            (#[trigger] after.tasks[i]).account_id,
            after.tasks[i].task_list_id,
        ) by {
            assert(any(
                after.task_lists,
                task_list_at(after.tasks[i].account_id, after.tasks[i].task_list_id),
            ));
        }
    }
}

/// Whether two caches hold the same rows, in the same order, of every account but one.
pub open spec fn agree_but(before: Tables, after: Tables, id: Seq<char>) -> bool {
    &&& before.accounts.filter(other_account(id)) == after.accounts.filter(other_account(id))
    &&& before.calendars.filter(foreign_calendar(id)) == after.calendars.filter(
        foreign_calendar(id),
    )
    &&& before.events.filter(foreign_event(id)) == after.events.filter(foreign_event(id))
    &&& before.task_lists.filter(foreign_task_list(id)) == after.task_lists.filter(
        foreign_task_list(id),
    )
    &&& before.tasks.filter(foreign_task(id)) == after.tasks.filter(foreign_task(id))
}

proof fn filter_filter<A>(list: Seq<A>, outer: spec_fn(A) -> bool, inner: spec_fn(A) -> bool)
    requires
        forall|row: A| #[trigger] outer(row) ==> inner(row),
    ensures
        list.filter(inner).filter(outer) == list.filter(outer),
    decreases list.len(),
{
    reveal(Seq::filter);
    if list.len() > 0 {
        let front = list.drop_last();
        filter_filter(front, outer, inner);
        if inner(list.last()) {
            assert(list.filter(inner).drop_last() =~= front.filter(inner));
        } else {
            assert(!outer(list.last()));
        }
    }
}

proof fn filter_push<A>(list: Seq<A>, row: A, property: spec_fn(A) -> bool)
    requires
        !property(row),
    ensures
        list.push(row).filter(property) == list.filter(property),
{
    reveal(Seq::filter);
    assert(list.push(row).drop_last() =~= list);
}

proof fn filter_revised<A>(
    list: Seq<A>,
    changed: spec_fn(A) -> bool,
    change: spec_fn(A) -> A,
    property: spec_fn(A) -> bool,
)
    requires
        forall|row: A| #[trigger] changed(row) ==> !property(row) && !property(change(row)),
    ensures
        revised(list, changed, change).filter(property) == list.filter(property),
    decreases list.len(),
{
    reveal(Seq::filter);
    let after = revised(list, changed, change);
    if list.len() > 0 {
        let front = list.drop_last();
        filter_revised(front, changed, change, property);
        assert(after.drop_last() =~= revised(front, changed, change));
        assert(changed(list.last()) ==> after.last() == change(list.last()));
    }
}

/// A sign-in changes one account only.
pub proof fn upsert_account_touches_one(
    tables: Tables,
    id: Seq<char>,
    subject: Seq<char>,
    email: Seq<char>,
    label: Seq<char>,
    now: Seq<char>,
)
    ensures
        tables.upsert_account(id, subject, email, label, now) matches Ok(after) ==> agree_but(
            tables,
            after,
            id,
        ),
{
    if tables.has_account(id) {
        filter_revised(
            tables.accounts,
            named_account(id),
            signing_in(subject, email, label, now),
            other_account(id),
        );
    } else {
        filter_push(
            tables.accounts,
            new_account(id, subject, email, label, now),
            other_account(id),
        );
    }
}

/// Signing in again keeps all that the cache holds of an account: its calendars, events and tasks.
pub proof fn upsert_account_keeps_cache(
    tables: Tables,
    id: Seq<char>,
    subject: Seq<char>,
    email: Seq<char>,
    label: Seq<char>,
    now: Seq<char>,
)
    ensures
        tables.upsert_account(id, subject, email, label, now) matches Ok(after) ==> {
            &&& after.calendars == tables.calendars
            &&& after.events == tables.events
            &&& after.task_lists == tables.task_lists
            &&& after.tasks == tables.tasks
        },
{
}

/// Removing an account leaves the others as they are.
pub proof fn delete_account_touches_one(tables: Tables, id: Seq<char>)
    ensures
        agree_but(tables, tables.delete_account(id), id),
{
    filter_filter(tables.accounts, other_account(id), other_account(id));
    filter_filter(tables.calendars, foreign_calendar(id), foreign_calendar(id));
    filter_filter(tables.events, foreign_event(id), foreign_event(id));
    filter_filter(tables.task_lists, foreign_task_list(id), foreign_task_list(id));
    filter_filter(tables.tasks, foreign_task(id), foreign_task(id));
}

/// The outcome of a synchronization is noted on one account only.
pub proof fn set_sync_result_touches_one(
    tables: Tables,
    id: Seq<char>,
    code: Option<Seq<char>>,
    message: Option<Seq<char>>,
    now: Seq<char>,
)
    ensures
        agree_but(tables, tables.set_sync_result(id, code, message, now), id),
{
    filter_revised(
        tables.accounts,
        named_account(id),
        syncing(code, message, now),
        other_account(id),
    );
}

proof fn put_calendars_touches_one(
    calendars: Seq<StoredCalendarView>,
    id: Seq<char>,
    entries: Seq<CalendarEntryView>,
)
    ensures
        put_calendars(calendars, id, entries).filter(foreign_calendar(id)) == calendars.filter(
            foreign_calendar(id),
        ),
    decreases entries.len(),
{
    if entries.len() > 0 {
        let before = put_calendars(calendars, id, entries.drop_last());
        let entry = entries.last();
        put_calendars_touches_one(calendars, id, entries.drop_last());
        if any(before, calendar_at(id, entry.id)) {
            filter_revised(
                before,
                calendar_at(id, entry.id),
                reporting(entry),
                foreign_calendar(id),
            );
        } else {
            filter_push(before, new_calendar(id, entry), foreign_calendar(id));
        }
    }
}

/// The time of the last synchronization of an account is that of its last success: a failure leaves
/// it, and a success sets it and ends the error.
pub proof fn last_sync_is_last_success(
    tables: Tables,
    id: Seq<char>,
    code: Option<Seq<char>>,
    message: Option<Seq<char>>,
    now: Seq<char>,
    i: int,
)
    requires
        0 <= i < tables.accounts.len(),
        tables.accounts[i].row.account_id == id,
    ensures
        ({
            let before = tables.accounts[i].row;
            let after = tables.set_sync_result(id, code, message, now).accounts[i].row;
            &&& message is Some ==> after.last_sync == before.last_sync
            &&& message is None ==> after.last_sync == Some(now) && after.error is None
            &&& after.error == message
            &&& after.error_code == code
        }),
{
}

/// Taking in the calendars of an account leaves the others as they are.
pub proof fn replace_calendars_touches_one(
    tables: Tables,
    id: Seq<char>,
    entries: Seq<CalendarEntryView>,
)
    ensures
        tables.replace_calendars(id, entries) matches Ok(after) ==> agree_but(tables, after, id),
{
    let incoming = entry_ids(entries);
    put_calendars_touches_one(tables.calendars, id, entries);
    filter_filter(
        put_calendars(tables.calendars, id, entries),
        foreign_calendar(id),
        remaining_calendar(id, incoming),
    );
    filter_filter(tables.events, foreign_event(id), remaining_event(id, incoming));
}

proof fn event_steps_touch_one(
    events: Seq<StoredEventView>,
    known: bool,
    account_id: Seq<char>,
    calendar_id: Seq<char>,
    reported: Seq<JsonView>,
)
    ensures
        event_steps(events, known, account_id, calendar_id, reported) matches Ok(after)
            ==> after.filter(foreign_event(account_id)) == events.filter(foreign_event(account_id)),
    decreases reported.len(),
{
    if reported.len() > 0 {
        event_steps_touch_one(events, known, account_id, calendar_id, reported.drop_last());
        if let Ok(before) = event_steps(
            events,
            known,
            account_id,
            calendar_id,
            reported.drop_last(),
        ) {
            let event = reported.last();
            let event_id = field_or(event, "id"@, ""@);
            let foreign = foreign_event(account_id);
            filter_filter(before, foreign, other_event(account_id, calendar_id, event_id));
            if let Some(row) = event_row(account_id, calendar_id, event) {
                let same = event_at(row.account_id, row.calendar_id, row.event_id);
                filter_push(before, row, foreign);
                filter_revised(before, same, replacing(row), foreign);
            }
        }
    }
}

/// Taking in the events of a calendar leaves the other accounts as they are.
pub proof fn apply_events_touches_one(
    tables: Tables,
    account_id: Seq<char>,
    calendar_id: Seq<char>,
    reported: Seq<JsonView>,
    token: Seq<char>,
    replace: bool,
    now: Seq<char>,
)
    ensures
        tables.apply_events(account_id, calendar_id, reported, token, replace, now) matches Ok(
            after,
        ) ==> agree_but(tables, after, account_id),
{
    let foreign = foreign_event(account_id);
    let outside = outside_calendar(account_id, calendar_id);
    let before = if replace {
        tables.events.filter(outside)
    } else {
        tables.events
    };
    filter_filter(tables.events, foreign, outside);
    event_steps_touch_one(
        before,
        tables.has_calendar(account_id, calendar_id),
        account_id,
        calendar_id,
        reported,
    );
    filter_revised(
        tables.calendars,
        calendar_at(account_id, calendar_id),
        syncing_events(token, replace, now),
        foreign_calendar(account_id),
    );
}

/// A calendar other than a given one.
pub open spec fn other_calendar(account_id: Seq<char>, calendar_id: Seq<char>) -> spec_fn(
    StoredCalendarView,
) -> bool {
    |calendar: StoredCalendarView|
        !(calendar.account_id == account_id && calendar.calendar_id == calendar_id)
}

/// Whether two caches differ in one calendar and its events at most.
pub open spec fn agree_but_calendar(
    before: Tables,
    after: Tables,
    account_id: Seq<char>,
    calendar_id: Seq<char>,
) -> bool {
    let other = other_calendar(account_id, calendar_id);
    let outside = outside_calendar(account_id, calendar_id);
    &&& before.accounts == after.accounts
    &&& before.calendars.filter(other) == after.calendars.filter(other)
    &&& before.events.filter(outside) == after.events.filter(outside)
    &&& before.task_lists == after.task_lists
    &&& before.tasks == after.tasks
}

proof fn event_steps_touch_one_calendar(
    events: Seq<StoredEventView>,
    known: bool,
    account_id: Seq<char>,
    calendar_id: Seq<char>,
    reported: Seq<JsonView>,
)
    ensures
        event_steps(events, known, account_id, calendar_id, reported) matches Ok(after)
            ==> after.filter(outside_calendar(account_id, calendar_id)) == events.filter(
            outside_calendar(account_id, calendar_id),
        ),
    decreases reported.len(),
{
    if reported.len() > 0 {
        let front = reported.drop_last();
        event_steps_touch_one_calendar(events, known, account_id, calendar_id, front);
        if let Ok(before) = event_steps(events, known, account_id, calendar_id, front) {
            let event = reported.last();
            let event_id = field_or(event, "id"@, ""@);
            let outside = outside_calendar(account_id, calendar_id);
            filter_filter(before, outside, other_event(account_id, calendar_id, event_id));
            if let Some(row) = event_row(account_id, calendar_id, event) {
                let same = event_at(row.account_id, row.calendar_id, row.event_id);
                filter_push(before, row, outside);
                filter_revised(before, same, replacing(row), outside);
            }
        }
    }
}

/// Taking in the events of a calendar, or dropping them, leaves all other calendars and their events
/// as they are, those of the same account too.
pub proof fn events_touch_one_calendar(
    tables: Tables,
    account_id: Seq<char>,
    calendar_id: Seq<char>,
    reported: Seq<JsonView>,
    token: Seq<char>,
    replace: bool,
    now: Seq<char>,
)
    ensures
        tables.apply_events(account_id, calendar_id, reported, token, replace, now) matches Ok(
            after,
        ) ==> agree_but_calendar(tables, after, account_id, calendar_id),
        agree_but_calendar(
            tables,
            tables.clear_calendar_sync(account_id, calendar_id),
            account_id,
            calendar_id,
        ),
{
    let outside = outside_calendar(account_id, calendar_id);
    let other = other_calendar(account_id, calendar_id);
    let this = calendar_at(account_id, calendar_id);
    let before = if replace {
        tables.events.filter(outside)
    } else {
        tables.events
    };
    filter_filter(tables.events, outside, outside);
    event_steps_touch_one_calendar(
        before,
        tables.has_calendar(account_id, calendar_id),
        account_id,
        calendar_id,
        reported,
    );
    filter_revised(tables.calendars, this, syncing_events(token, replace, now), other);
    filter_revised(tables.calendars, this, forgetting(), other);
}

/// Dropping the events of a calendar leaves the other accounts as they are.
pub proof fn clear_calendar_sync_touches_one(
    tables: Tables,
    account_id: Seq<char>,
    calendar_id: Seq<char>,
)
    ensures
        agree_but(tables, tables.clear_calendar_sync(account_id, calendar_id), account_id),
{
    let outside = outside_calendar(account_id, calendar_id);
    filter_filter(tables.events, foreign_event(account_id), outside);
    filter_revised(
        tables.calendars,
        calendar_at(account_id, calendar_id),
        forgetting(),
        foreign_calendar(account_id),
    );
}

proof fn task_steps_touch_one(
    tasks: Seq<StoredTaskView>,
    account_id: Seq<char>,
    task_list_id: Seq<char>,
    reported: Seq<JsonView>,
)
    ensures
        task_steps(tasks, account_id, task_list_id, reported) matches Ok(after) ==> after.filter(
            foreign_task(account_id),
        ) == tasks.filter(foreign_task(account_id)),
    decreases reported.len(),
{
    if reported.len() > 0 {
        task_steps_touch_one(tasks, account_id, task_list_id, reported.drop_last());
        if let Ok(before) = task_steps(tasks, account_id, task_list_id, reported.drop_last()) {
            if let Some(row) = task_row(account_id, task_list_id, reported.last()) {
                filter_push(before, row, foreign_task(account_id));
            }
        }
    }
}

proof fn task_list_steps_touch_one(
    state: ListsAndTasks,
    account_known: bool,
    id: Seq<char>,
    entries: Seq<TaskListEntryView>,
    tasks: TasksByList,
)
    ensures
        task_list_steps(state, account_known, id, entries, tasks) matches Ok(after) ==> {
            &&& after.0.filter(foreign_task_list(id)) == state.0.filter(foreign_task_list(id))
            &&& after.1.filter(foreign_task(id)) == state.1.filter(foreign_task(id))
        },
    decreases entries.len(),
{
    if entries.len() > 0 {
        let front = entries.drop_last();
        let entry = entries.last();
        task_list_steps_touch_one(state, account_known, id, front, tasks);
        if let Ok(before) = task_list_steps(state, account_known, id, front, tasks) {
            task_steps_touch_one(before.1, id, entry.id, tasks_of(tasks, entry.id));
            filter_push(before.0, new_task_list(id, entry), foreign_task_list(id));
        }
    }
}

/// Taking in the task lists of an account leaves the others as they are.
pub proof fn replace_tasks_touches_one(
    tables: Tables,
    id: Seq<char>,
    entries: Seq<TaskListEntryView>,
    tasks: TasksByList,
)
    ensures
        tables.replace_tasks(id, entries, tasks) matches Ok(after) ==> agree_but(tables, after, id),
{
    let lists = tables.task_lists.filter(foreign_task_list(id));
    let stored = tables.tasks.filter(foreign_task(id));
    filter_filter(tables.task_lists, foreign_task_list(id), foreign_task_list(id));
    filter_filter(tables.tasks, foreign_task(id), foreign_task(id));
    task_list_steps_touch_one((lists, stored), tables.has_account(id), id, entries, tasks);
}

} // verus!
