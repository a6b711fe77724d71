//! What an agenda lists, row by row of the cache.
use vstd::prelude::*;

use crate::agenda::{
    agenda_complete, agenda_in_order, event_named, item_rank, task_named, AgendaItemView,
};
use crate::json::{value_or_empty, JsonView};
use crate::normalize::kinds_keep_apart;
use crate::order::key_lt;
use crate::records::{StoredCalendarView, StoredEventView};
use crate::table::{first, first_none, unique};
use crate::tables::{
    account_key, calendar_at, calendar_key, event_identified, event_item_key, named_account,
    task_identified, task_item_key, task_list_at, task_list_key, Tables,
};
use crate::text::{lowercase, text_lt, text_lt_irreflexive};
use crate::time::{rfc3339, RangeView, Timestamp};

verus! {

/// Whether one point in time is before another: by the second, and within one second by what is
/// less than a second.
pub open spec fn is_before(first: Timestamp, second: Timestamp) -> bool {
    if first.seconds == second.seconds {
        first.nanos < second.nanos
    } else {
        first.seconds < second.seconds
    }
}

/// Whether an event is still going on or yet to come when a range starts, and has begun before it
/// ends.
pub open spec fn goes_on_in(event: StoredEventView, bounds: RangeView) -> bool {
    if event.all_day {
        text_lt(event.start, bounds.end_date) && text_lt(bounds.start_date, event.end)
    } else {
        exists|start: Timestamp, end: Timestamp|
            rfc3339(event.start) == Some(start) && rfc3339(event.end) == Some(end)
                && #[trigger] is_before(start, bounds.end) && #[trigger] is_before(
                bounds.start,
                end,
            )
    }
}

/// The reminders that an event is shown with: those of its calendar where its own say nothing but
/// that these are to be used.
pub open spec fn reminders_of(event: StoredEventView, calendar: StoredCalendarView) -> JsonView {
    let own = value_or_empty(event.reminders);
    let default_marker = JsonView::Array(
        seq![
            JsonView::Object(
                Map::<Seq<char>, JsonView>::empty().insert("useDefault"@, JsonView::Bool(true)),
            ),
        ],
    );
    if own == default_marker {
        value_or_empty(calendar.default_reminders)
    } else {
        own
    }
}

proof fn first_is<A, K>(
    list: Seq<A>,
    property: spec_fn(A) -> bool,
    key: spec_fn(A) -> K,
    at: int,
)
    requires
        unique(list, key),
        0 <= at < list.len(),
        property(list[at]),
        forall|row: A| #[trigger] property(row) ==> key(row) == key(list[at]),
    ensures
        first(list, property) == Some(list[at]),
{
    first_none(list, property);
    let found = first(list, property)->0;
    assert(property(list[at]));
    let k = choose|k: int| 0 <= k < list.len() && list[k] == found;
    if k < at {
        assert(key(list[k]) != key(list[at]));
    } else if at < k {
        assert(key(list[at]) != key(list[k]));
    }
}

/// An event is listed in the agenda of a range exactly where its account is enabled and asked for,
/// its calendar is selected, and it goes on at some time of the range: one that began before the
/// range and ends in it or after it is listed too. It is listed with all that the cache holds of it.
pub proof fn event_is_listed(
    tables: Tables,
    bounds: RangeView,
    filter: Seq<char>,
    at: int,
    account_at: int,
    calendar_index: int,
)
    requires
        tables.wf(),
        0 <= at < tables.events.len(),
        0 <= account_at < tables.accounts.len(),
        0 <= calendar_index < tables.calendars.len(),
        tables.accounts[account_at].row.account_id == tables.events[at].account_id,
        tables.calendars[calendar_index].account_id == tables.events[at].account_id,
        tables.calendars[calendar_index].calendar_id == tables.events[at].calendar_id,
    ensures
        ({
            let event = tables.events[at];
            let account = tables.accounts[account_at].row;
            let calendar = tables.calendars[calendar_index];
            let listed = account.enabled && calendar.selected && (filter == "all"@ || filter
                == event.account_id) && goes_on_in(event, bounds);
            let item = AgendaItemView {
                id: event.item_id,
                is_task: false,
                account_id: event.account_id,
                account_label: account.label,
                calendar_id: event.calendar_id,
                calendar_label: calendar.label,
                color: calendar.color,
                title: event.title,
                start: event.start,
                end: event.end,
                all_day: event.all_day,
                due_date: None,
                location: event.location,
                url: event.url,
                reminders: reminders_of(event, calendar),
                ical_uid: event.ical_uid,
                occurrence_start: event.occurrence_start,
            };
            &&& listed ==> tables.agenda(bounds, filter).contains(item)
            &&& !listed ==> forall|other: AgendaItemView| #[trigger]
                tables.agenda(bounds, filter).contains(other) ==> other.id != event.item_id
        }),
{
    let event = tables.events[at];
    let account = tables.accounts[account_at].row;
    let calendar = tables.calendars[calendar_index];
    let listed = account.enabled && calendar.selected && (filter == "all"@ || filter
        == event.account_id) && goes_on_in(event, bounds);
    first_is(tables.accounts, named_account(event.account_id), account_key(), account_at);
    first_is(
        tables.calendars,
        calendar_at(event.account_id, event.calendar_id),
        calendar_key(),
        calendar_index,
    );
    let shown = tables.shown_event(bounds, filter)(event);
    if !event.all_day {
        if let (Some(start), Some(end)) = (rfc3339(event.start), rfc3339(event.end)) {
            assert(is_before(start, bounds.end) == start.lt(bounds.end));
            assert(is_before(bounds.start, end) == bounds.start.lt(end));
        }
    }
    assert(shown is Some == listed);
    if listed {
        let item = shown->0;
        assert(item.reminders == reminders_of(event, calendar));
        agenda_complete(tables, bounds, filter, item);
        assert(tables.shown_event(bounds, filter)(tables.events[at]) == Some(item));
    } else {
        assert forall|other: AgendaItemView| #[trigger]
            tables.agenda(bounds, filter).contains(other) implies other.id != event.item_id by {
            agenda_complete(tables, bounds, filter, other);
            if exists|i: int|
                0 <= i < tables.events.len() && tables.shown_event(bounds, filter)(
                    #[trigger] tables.events[i],
                ) == Some(other) {
                let i = choose|i: int|
                    0 <= i < tables.events.len() && tables.shown_event(bounds, filter)(
                        #[trigger] tables.events[i],
                    ) == Some(other);
                assert(i != at);
                if i < at {
                    assert(event_item_key()(tables.events[i]) != event_item_key()(
                        tables.events[at],
                    ));
                } else {
                    assert(event_item_key()(tables.events[at]) != event_item_key()(
                        tables.events[i],
                    ));
                }
            } else {
                let j = choose|j: int|
                    0 <= j < tables.tasks.len() && tables.shown_task(bounds, filter)(
                        #[trigger] tables.tasks[j],
                    ) == Some(other);
                rows_keep_apart(tables, at, j);
            }
        }
    }
}

proof fn rows_keep_apart(tables: Tables, i: int, j: int)
    requires
        tables.wf(),
        0 <= i < tables.events.len(),
        0 <= j < tables.tasks.len(),
    ensures
        tables.events[i].item_id != tables.tasks[j].item_id,
{
    let event = tables.events[i];
    let task = tables.tasks[j];
    assert(event_identified()(event) && task_identified()(task));
    kinds_keep_apart(
        seq![event.account_id, event.calendar_id, event.event_id],
        seq![task.account_id, task.task_list_id, task.task_id],
    );
}

/// A task is listed in the agenda of a range exactly where its account is enabled and asked for, it
/// is not completed, and it is due on a day of the range, the first day among them and the last one
/// not. It is listed on that day, as a whole-day item of its list.
pub proof fn task_is_listed(
    tables: Tables,
    bounds: RangeView,
    filter: Seq<char>,
    at: int,
    account_at: int,
    list_index: int,
)
    requires
        tables.wf(),
        0 <= at < tables.tasks.len(),
        0 <= account_at < tables.accounts.len(),
        0 <= list_index < tables.task_lists.len(),
        tables.accounts[account_at].row.account_id == tables.tasks[at].account_id,
        tables.task_lists[list_index].account_id == tables.tasks[at].account_id,
        tables.task_lists[list_index].task_list_id == tables.tasks[at].task_list_id,
    ensures
        ({
            let task = tables.tasks[at];
            let account = tables.accounts[account_at].row;
            let list = tables.task_lists[list_index];
            let due = task.due_date->0;
            let listed = account.enabled && task.status != "completed"@ && (filter == "all"@
                || filter == task.account_id) && task.due_date is Some && text_lt(
                due,
                bounds.end_date,
            ) && (due == bounds.start_date || !text_lt(due, bounds.start_date));
            let item = AgendaItemView {
                id: task.item_id,
                is_task: true,
                account_id: task.account_id,
                account_label: account.label,
                calendar_id: task.task_list_id,
                calendar_label: list.label,
                color: "#8ab4f8"@,
                title: task.title,
                start: due,
                end: due,
                all_day: true,
                due_date: Some(due),
                location: Seq::empty(),
                url: task.url,
                reminders: JsonView::Array(Seq::empty()),
                ical_uid: None,
                occurrence_start: None,
            };
            &&& listed ==> tables.agenda(bounds, filter).contains(item)
            &&& !listed ==> forall|other: AgendaItemView| #[trigger]
                tables.agenda(bounds, filter).contains(other) ==> other.id != task.item_id
        }),
{
    let task = tables.tasks[at];
    let account = tables.accounts[account_at].row;
    let list = tables.task_lists[list_index];
    first_is(tables.accounts, named_account(task.account_id), account_key(), account_at);
    first_is(
        tables.task_lists,
        task_list_at(task.account_id, task.task_list_id),
        task_list_key(),
        list_index,
    );
    text_lt_irreflexive(bounds.start_date);
    reveal_strlit("");
    assert(""@ =~= Seq::<char>::empty());
    let shown = tables.shown_task(bounds, filter)(task);
    if shown is Some {
        let item = shown->0;
        agenda_complete(tables, bounds, filter, item);
        assert(tables.shown_task(bounds, filter)(tables.tasks[at]) == Some(item));
    } else {
        assert forall|other: AgendaItemView| #[trigger]
            tables.agenda(bounds, filter).contains(other) implies other.id != task.item_id by {
            agenda_complete(tables, bounds, filter, other);
            if exists|j: int|
                0 <= j < tables.tasks.len() && tables.shown_task(bounds, filter)(
                    #[trigger] tables.tasks[j],
                ) == Some(other) {
                let j = choose|j: int|
                    0 <= j < tables.tasks.len() && tables.shown_task(bounds, filter)(
                        #[trigger] tables.tasks[j],
                    ) == Some(other);
                assert(j != at);
                if j < at {
                    assert(task_item_key()(tables.tasks[j]) != task_item_key()(tables.tasks[at]));
                } else {
                    assert(task_item_key()(tables.tasks[at]) != task_item_key()(tables.tasks[j]));
                }
            } else {
                let i = choose|i: int|
                    0 <= i < tables.events.len() && tables.shown_event(bounds, filter)(
                        #[trigger] tables.events[i],
                    ) == Some(other);
                rows_keep_apart(tables, i, at);
            }
        }
    }
}

/// Of two items of an agenda, the one that is listed first starts no later than the other; where
/// they start at the same, it lasts whole days if the other does; where that does not tell them
/// apart either, its title comes no later in the alphabet, without regard to capitals, and at last
/// its identity.
pub proof fn agenda_is_chronological(
    tables: Tables,
    bounds: RangeView,
    filter: Seq<char>,
    a: int,
    b: int,
)
    requires
        0 <= a < b < tables.agenda(bounds, filter).len(),
    ensures
        ({
            let earlier = tables.agenda(bounds, filter)[a];
            let later = tables.agenda(bounds, filter)[b];
            let title = lowercase(earlier.title);
            let other_title = lowercase(later.title);
            &&& !text_lt(later.start, earlier.start)
            &&& earlier.start == later.start && later.all_day ==> earlier.all_day
            &&& earlier.start == later.start && earlier.all_day == later.all_day ==> !text_lt(
                other_title,
                title,
            ) && (title == other_title ==> !text_lt(later.id, earlier.id))
        }),
{
    agenda_in_order(tables, bounds, filter);
    let earlier = tables.agenda(bounds, filter)[a];
    let later = tables.agenda(bounds, filter)[b];
    let x = item_rank()(later);
    let y = item_rank()(earlier);
    assert(!key_lt(x, y));
    reveal_with_fuel(key_lt, 5);
    reveal_strlit("0");
    reveal_strlit("1");
    assert(text_lt("0"@, "1"@));
    assert(x.drop_first()[0] == x[1] && y.drop_first()[0] == y[1]);
    assert(x.drop_first().drop_first()[0] == x[2] && y.drop_first().drop_first()[0] == y[2]);
    assert(x.drop_first().drop_first().drop_first()[0] == x[3]);
    assert(y.drop_first().drop_first().drop_first()[0] == y[3]);
}

/// The link of an agenda item is that of its event or task, where it has one; an item that is not
/// there has none.
pub proof fn items_have_the_links_of_their_rows(tables: Tables, i: int, j: int, id: Seq<char>)
    requires
        tables.wf(),
    ensures
        0 <= i < tables.events.len() ==> tables.item_url(tables.events[i].item_id) == if tables.events[i].url.len()
            > 0 {
            Some(tables.events[i].url)
        } else {
            None
        },
        0 <= j < tables.tasks.len() ==> tables.item_url(tables.tasks[j].item_id) == if tables.tasks[j].url.len()
            > 0 {
            Some(tables.tasks[j].url)
        } else {
            None
        },
        (forall|k: int| 0 <= k < tables.events.len() ==> (#[trigger] tables.events[k]).item_id != id)
            && (forall|k: int| 0 <= k < tables.tasks.len() ==> (#[trigger] tables.tasks[k]).item_id
            != id) ==> tables.item_url(id) is None,
{
    first_none(tables.events, event_named(id));
    first_none(tables.tasks, task_named(id));
    if 0 <= i < tables.events.len() {
        let name = tables.events[i].item_id;
        first_is(tables.events, event_named(name), event_item_key(), i);
        first_none(tables.tasks, task_named(name));
        if let Some(task) = first(tables.tasks, task_named(name)) {
            let k = choose|k: int| 0 <= k < tables.tasks.len() && tables.tasks[k] == task;
            rows_keep_apart(tables, i, k);
        }
    }
    if 0 <= j < tables.tasks.len() {
        let name = tables.tasks[j].item_id;
        first_is(tables.tasks, task_named(name), task_item_key(), j);
        first_none(tables.events, event_named(name));
        if let Some(event) = first(tables.events, event_named(name)) {
            let k = choose|k: int| 0 <= k < tables.events.len() && tables.events[k] == event;
            rows_keep_apart(tables, k, j);
        }
    }
}

} // verus!
