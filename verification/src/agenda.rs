//! The agenda: events and tasks of a range of time, as clients see them.
use vstd::prelude::*;

use crate::database::Database;
use crate::error::{failure, CalendarError, ErrorView, Result};
use crate::integrity::{apply_events_keeps, delete_account_clears, delete_account_touches_one};
use crate::json::{
    array_view, json_list, parse_or_empty, text_or_null, value_or_empty, Json, JsonObject, JsonView,
};
use crate::normalize::{event_row, item_id, kinds_keep_apart, use_default};
use crate::order::{
    key_lt, keys_view, sorted, sorted_filter, sorted_in_order, sorted_same_items, sorted_unique,
    stable_sorted,
};
use crate::records::{
    StoredAccount, StoredCalendar, StoredCalendarView, StoredEvent, StoredEventView, StoredTask,
    StoredTaskList, StoredTaskListView, StoredTaskView,
};
use crate::table::{
    any, filter_rows, first, first_none, made_filter, made_of, made_rows, made_unique, position,
    rows, unique,
};
use crate::tables::{
    calendar_at, event_at, event_identified, event_item_key, event_steps, foreign_event,
    foreign_task, named_account, other_account, outside_calendar, put_event, task_identified,
    task_item_key, task_list_at, Tables,
};
use crate::text::{lowercase, optional_view, text_eq, text_less, text_lt, texts, to_lowercase};
use crate::time::{
    boundary_of, dates_are_read_as_written, in_common_years, instants_are_read_everywhere,
    is_day_form, iso_now, micros_text, parse_rfc3339, range_bounds, range_reading, rfc3339, Boundary, RangeBounds, RangeView,
    Timestamp,
};

verus! {

broadcast use crate::json::group_json;

/// An event or a task, as clients see it.
#[derive(Debug, PartialEq, Eq)]
pub struct AgendaItem {
    pub id: String,
    pub is_task: bool,
    pub account_id: String,
    pub account_label: String,
    pub calendar_id: String,
    pub calendar_label: String,
    pub color: String,
    pub title: String,
    pub start: String,
    pub end: String,
    pub all_day: bool,
    pub due_date: Option<String>,
    pub location: String,
    pub url: String,
    pub reminders: Json,
    pub ical_uid: Option<String>,
    pub occurrence_start: Option<String>,
}

/// What an agenda item holds.
pub struct AgendaItemView {
    pub id: Seq<char>,
    pub is_task: bool,
    pub account_id: Seq<char>,
    pub account_label: Seq<char>,
    pub calendar_id: Seq<char>,
    pub calendar_label: Seq<char>,
    pub color: Seq<char>,
    pub title: Seq<char>,
    pub start: Seq<char>,
    pub end: Seq<char>,
    pub all_day: bool,
    pub due_date: Option<Seq<char>>,
    pub location: Seq<char>,
    pub url: Seq<char>,
    pub reminders: JsonView,
    pub ical_uid: Option<Seq<char>>,
    pub occurrence_start: Option<Seq<char>>,
}

impl View for AgendaItem {
    type V = AgendaItemView;

    open spec fn view(&self) -> AgendaItemView {
        AgendaItemView {
            id: self.id@,
            is_task: self.is_task,
            account_id: self.account_id@,
            account_label: self.account_label@,
            calendar_id: self.calendar_id@,
            calendar_label: self.calendar_label@,
            color: self.color@,
            title: self.title@,
            start: self.start@,
            end: self.end@,
            all_day: self.all_day,
            due_date: optional_view(self.due_date),
            location: self.location@,
            url: self.url@,
            reminders: self.reminders@,
            ical_uid: optional_view(self.ical_uid),
            occurrence_start: optional_view(self.occurrence_start),
        }
    }
}

impl Clone for AgendaItem {
    fn clone(&self) -> (copy: AgendaItem)
        ensures
            copy@ == self@,
    {
        AgendaItem {
            id: self.id.clone(),
            is_task: self.is_task,
            account_id: self.account_id.clone(),
            account_label: self.account_label.clone(),
            calendar_id: self.calendar_id.clone(),
            calendar_label: self.calendar_label.clone(),
            color: self.color.clone(),
            title: self.title.clone(),
            start: self.start.clone(),
            end: self.end.clone(),
            all_day: self.all_day,
            due_date: self.due_date.clone(),
            location: self.location.clone(),
            url: self.url.clone(),
            reminders: self.reminders.clone(),
            ical_uid: self.ical_uid.clone(),
            occurrence_start: self.occurrence_start.clone(),
        }
    }
}

/// An agenda item in an answer.
pub open spec fn item_json() -> spec_fn(AgendaItemView) -> JsonView {
    |item: AgendaItemView|
        JsonView::Object(
            Map::empty()
                .insert("id"@, JsonView::Text(item.id))
                .insert(
                    "type"@,
                    JsonView::Text(
                        if item.is_task {
                            "task"@
                        } else {
                            "event"@
                        },
                    ),
                )
                .insert("accountId"@, JsonView::Text(item.account_id))
                .insert("accountLabel"@, JsonView::Text(item.account_label))
                .insert("calendarId"@, JsonView::Text(item.calendar_id))
                .insert("calendarLabel"@, JsonView::Text(item.calendar_label))
                .insert("color"@, JsonView::Text(item.color))
                .insert("title"@, JsonView::Text(item.title))
                .insert("start"@, JsonView::Text(item.start))
                .insert("end"@, JsonView::Text(item.end))
                .insert("allDay"@, JsonView::Bool(item.all_day))
                .insert("dueDate"@, text_or_null(item.due_date))
                .insert("location"@, JsonView::Text(item.location))
                .insert("url"@, JsonView::Text(item.url))
                .insert("reminders"@, item.reminders)
                .insert("icalUid"@, text_or_null(item.ical_uid))
                .insert("occurrenceStart"@, text_or_null(item.occurrence_start)),
        )
}

/// By what agenda items are listed: their start, whole days first, then their title in lower case
/// and their identity.
pub open spec fn item_rank() -> spec_fn(AgendaItemView) -> Seq<Seq<char>> {
    |item: AgendaItemView|
        seq![
            item.start,
            if item.all_day {
                "0"@
            } else {
                "1"@
            },
            lowercase(item.title),
            item.id,
        ]
}

/// Whether a filter lets an account through: all of them, or the one that it names.
pub open spec fn admits(filter: Seq<char>, account_id: Seq<char>) -> bool {
    filter == "all"@ || account_id == filter
}

/// Whether an event and a range of time overlap: by date where the event lasts whole days, by the
/// points in time otherwise. An event whose times are in no known format overlaps with nothing.
pub open spec fn event_in_range(event: StoredEventView, bounds: RangeView) -> bool {
    if event.all_day {
        text_lt(event.start, bounds.end_date) && text_lt(bounds.start_date, event.end)
    } else {
        match (rfc3339(event.start), rfc3339(event.end)) {
            (Some(start), Some(end)) => start.lt(bounds.end) && bounds.start.lt(end),
            _ => false,
        }
    }
}

/// Whether a date is in a range of time.
pub open spec fn date_in_range(date: Seq<char>, bounds: RangeView) -> bool {
    !text_lt(date, bounds.start_date) && text_lt(date, bounds.end_date)
}

/// The reminders of an event, as they are read from their text: those of its calendar where it says
/// so.
pub open spec fn shown_reminders(
    event: StoredEventView,
    calendar: StoredCalendarView,
) -> JsonView {
    if value_or_empty(event.reminders) == use_default() {
        value_or_empty(calendar.default_reminders)
    } else {
        value_or_empty(event.reminders)
    }
}

/// The agenda item of an event.
pub open spec fn event_item(
    event: StoredEventView,
    account_label: Seq<char>,
    calendar: StoredCalendarView,
) -> AgendaItemView {
    AgendaItemView {
        id: event.item_id,
        is_task: false,
        account_id: event.account_id,
        account_label,
        calendar_id: event.calendar_id,
        calendar_label: calendar.label,
        color: calendar.color,
        title: event.title,
        start: event.start,
        end: event.end,
        all_day: event.all_day,
        due_date: None,
        location: event.location,
        url: event.url,
        reminders: shown_reminders(event, calendar),
        ical_uid: event.ical_uid,
        occurrence_start: event.occurrence_start,
    }
}

/// The agenda item of a task that is due on a date.
pub open spec fn task_item(
    task: StoredTaskView,
    due_date: Seq<char>,
    account_label: Seq<char>,
    list: StoredTaskListView,
) -> AgendaItemView {
    AgendaItemView {
        id: task.item_id,
        is_task: true,
        account_id: task.account_id,
        account_label,
        calendar_id: task.task_list_id,
        calendar_label: list.label,
        color: "#8ab4f8"@,
        title: task.title,
        start: due_date,
        end: due_date,
        all_day: true,
        due_date: Some(due_date),
        location: ""@,
        url: task.url,
        reminders: JsonView::Array(Seq::empty()),
        ical_uid: None,
        occurrence_start: None,
    }
}

/// Says that no account has the identity.
pub open spec fn unknown_account() -> ErrorView {
    failure("account_not_found"@, "Google account was not found"@)
}

impl Tables {
    /// The agenda item of an event: none where its account is disabled or not asked for, its
    /// calendar not selected, or the event outside the range.
    pub open spec fn shown_event(self, bounds: RangeView, filter: Seq<char>) -> spec_fn(
        StoredEventView,
    ) -> Option<AgendaItemView> {
        |event: StoredEventView|
            match (
                first(self.accounts, named_account(event.account_id)),
                first(self.calendars, calendar_at(event.account_id, event.calendar_id)),
            ) {
                (Some(account), Some(calendar)) => if account.row.enabled && calendar.selected
                    && admits(filter, event.account_id) && event_in_range(event, bounds) {
                    Some(event_item(event, account.row.label, calendar))
                } else {
                    None
                },
                _ => None,
            }
    }

    /// The agenda item of a task: none where its account is disabled or not asked for, where it
    /// is completed, or where it is not due in the range.
    pub open spec fn shown_task(self, bounds: RangeView, filter: Seq<char>) -> spec_fn(
        StoredTaskView,
    ) -> Option<AgendaItemView> {
        |task: StoredTaskView|
            match (
                first(self.accounts, named_account(task.account_id)),
                first(self.task_lists, task_list_at(task.account_id, task.task_list_id)),
                task.due_date,
            ) {
                (Some(account), Some(list), Some(due_date)) => if account.row.enabled
                    && task.status != "completed"@ && admits(filter, task.account_id)
                    && date_in_range(due_date, bounds) {
                    Some(task_item(task, due_date, account.row.label, list))
                } else {
                    None
                },
                _ => None,
            }
    }

    /// The agenda items of a range, events before tasks.
    pub open spec fn unsorted_agenda(self, bounds: RangeView, filter: Seq<char>) -> Seq<
        AgendaItemView,
    > {
        made_of(self.events, self.shown_event(bounds, filter)) + made_of(
            self.tasks,
            self.shown_task(bounds, filter),
        )
    }

    /// The agenda items of a range, as they are listed.
    pub open spec fn agenda(self, bounds: RangeView, filter: Seq<char>) -> Seq<AgendaItemView> {
        let items = self.unsorted_agenda(bounds, filter);
        stable_sorted(items, items.map_values(item_rank()))
    }

    /// The link of an agenda item, where it has one.
    pub open spec fn item_url(self, id: Seq<char>) -> Option<Seq<char>> {
        match first(self.events, event_named(id)) {
            Some(event) if event.url.len() > 0 => Some(event.url),
            _ => match first(self.tasks, task_named(id)) {
                Some(task) if task.url.len() > 0 => Some(task.url),
                _ => None,
            },
        }
    }

    /// The answer to an agenda request whose range was read.
    pub open spec fn agenda_answer(
        self,
        start: Seq<char>,
        end: Seq<char>,
        bounds: RangeView,
        filter: Seq<char>,
        syncing: Seq<Seq<char>>,
        configured: bool,
        generated_at: Seq<char>,
    ) -> std::result::Result<JsonView, ErrorView> {
        if filter != "all"@ && !self.has_account(filter) {
            Err(unknown_account())
        } else {
            Ok(
                JsonView::Object(
                    Map::empty()
                        .insert("start"@, JsonView::Text(start))
                        .insert("end"@, JsonView::Text(end))
                        .insert(
                            "items"@,
                            JsonView::Array(self.agenda(bounds, filter).map_values(item_json())),
                        )
                        .insert("generatedAt"@, JsonView::Text(generated_at))
                        .insert("context"@, self.context(syncing, configured, filter)),
                ),
            )
        }
    }
}

impl Tables {
    /// The answer to an agenda request whose range was read so.
    pub open spec fn agenda_read(
        self,
        start: Seq<char>,
        end: Seq<char>,
        read: std::result::Result<RangeView, ErrorView>,
        filter: Seq<char>,
        syncing: Seq<Seq<char>>,
        configured: bool,
        generated_at: Seq<char>,
    ) -> std::result::Result<JsonView, ErrorView> {
        match read {
            Ok(bounds) => self.agenda_answer(
                start,
                end,
                bounds,
                filter,
                syncing,
                configured,
                generated_at,
            ),
            Err(error) => Err(error),
        }
    }

    /// Whether an agenda request can have had a result: the range was read so in some time zone,
    /// and the answer was given at some time.
    pub open spec fn agenda_result(
        self,
        start: Seq<char>,
        end: Seq<char>,
        filter: Seq<char>,
        syncing: Seq<Seq<char>>,
        configured: bool,
        result: std::result::Result<JsonView, ErrorView>,
    ) -> bool {
        exists|read: std::result::Result<RangeView, ErrorView>, instant: Timestamp|
            instant.is_representable() && range_reading(start, end, read) && result
                == #[trigger] self.agenda_read(
                start,
                end,
                read,
                filter,
                syncing,
                configured,
                micros_text(instant),
            )
    }
}

/// An event that shows as an agenda item.
pub open spec fn event_named(id: Seq<char>) -> spec_fn(StoredEventView) -> bool {
    |event: StoredEventView| event.item_id == id
}

/// A task that shows as an agenda item.
pub open spec fn task_named(id: Seq<char>) -> spec_fn(StoredTaskView) -> bool {
    |task: StoredTaskView| task.item_id == id
}

/// A request for the agenda between two points in time of the common years is answered, in every
/// time zone, where it ends later than it starts and its account is known.
pub proof fn agenda_is_answered(
    tables: Tables,
    start: Seq<char>,
    end: Seq<char>,
    from: Timestamp,
    to: Timestamp,
    filter: Seq<char>,
    syncing: Seq<Seq<char>>,
    configured: bool,
    result: std::result::Result<JsonView, ErrorView>,
)
    requires
        boundary_of(start) == Some(Boundary::Instant(from)),
        boundary_of(end) == Some(Boundary::Instant(to)),
        from.is_representable() && in_common_years(from.seconds as int),
        to.is_representable() && in_common_years(to.seconds as int),
        from.lt(to),
        filter == "all"@ || tables.has_account(filter),
        tables.agenda_result(start, end, filter, syncing, configured, result),
    ensures
        result is Ok,
{
    let read = choose|read: std::result::Result<RangeView, ErrorView>|
        range_reading(start, end, read) && exists|instant: Timestamp|
            result == #[trigger] tables.agenda_read(
                start,
                end,
                read,
                filter,
                syncing,
                configured,
                micros_text(instant),
            );
    instants_are_read_everywhere(start, end, from, to, read);
}

/// The agenda holds exactly the events and tasks that the request admits.
pub proof fn agenda_complete(
    tables: Tables,
    bounds: RangeView,
    filter: Seq<char>,
    item: AgendaItemView,
)
    ensures
        tables.agenda(bounds, filter).contains(item) <==> (exists|i: int|
            0 <= i < tables.events.len() && tables.shown_event(bounds, filter)(
                #[trigger] tables.events[i],
            ) == Some(item)) || (exists|i: int|
            0 <= i < tables.tasks.len() && tables.shown_task(bounds, filter)(
                #[trigger] tables.tasks[i],
            ) == Some(item)),
{
    let items = tables.unsorted_agenda(bounds, filter);
    let events = made_of(tables.events, tables.shown_event(bounds, filter));
    let tasks = made_of(tables.tasks, tables.shown_task(bounds, filter));
    sorted_same_items(items, items.map_values(item_rank()));
    made_rows(tables.events, tables.shown_event(bounds, filter));
    made_rows(tables.tasks, tables.shown_task(bounds, filter));
    assert(items.contains(item) <==> events.contains(item) || tasks.contains(item)) by {
        if events.contains(item) {
            let a = choose|a: int| 0 <= a < events.len() && events[a] == item;
            assert(items[a] == item);
        }
        if tasks.contains(item) {
            let a = choose|a: int| 0 <= a < tasks.len() && tasks[a] == item;
            assert(items[events.len() + a] == item);
        }
        if items.contains(item) {
            let a = choose|a: int| 0 <= a < items.len() && items[a] == item;
            if a < events.len() {
                assert(events[a] == item);
            } else {
                assert(tasks[a - events.len()] == item);
            }
        }
    }
}

/// The items of an agenda come by their start, whole days first, then by title and identity.
pub proof fn agenda_in_order(tables: Tables, bounds: RangeView, filter: Seq<char>)
    ensures
        forall|a: int, b: int|
            0 <= a < b < tables.agenda(bounds, filter).len() ==> !key_lt(
                item_rank()(#[trigger] tables.agenda(bounds, filter)[b]),
                item_rank()(#[trigger] tables.agenda(bounds, filter)[a]),
            ),
{
    sorted_in_order(tables.unsorted_agenda(bounds, filter), item_rank());
}

/// Every item of an agenda belongs to an enabled account that was asked for; an event is of a
/// selected calendar, a task has a date and is not completed.
pub proof fn agenda_in_scope(
    tables: Tables,
    bounds: RangeView,
    filter: Seq<char>,
    item: AgendaItemView,
)
    requires
        tables.agenda(bounds, filter).contains(item),
    ensures
        admits(filter, item.account_id),
        first(tables.accounts, named_account(item.account_id)) matches Some(account)
            && account.row.enabled && account.row.label == item.account_label,
        !item.is_task ==> (first(
            tables.calendars,
            calendar_at(item.account_id, item.calendar_id),
        ) matches Some(calendar) && calendar.selected && calendar.label == item.calendar_label),
        item.is_task ==> exists|i: int|
            0 <= i < tables.tasks.len() && (#[trigger] tables.tasks[i]).item_id == item.id
                && tables.tasks[i].status != "completed"@ && tables.tasks[i].due_date is Some,
{
    agenda_complete(tables, bounds, filter, item);
}

/// The identity of an agenda item.
pub open spec fn item_identity() -> spec_fn(AgendaItemView) -> Seq<char> {
    |item: AgendaItemView| item.id
}

/// No two items of an agenda have the same identity, from however many accounts, calendars and task
/// lists they come.
pub proof fn agenda_identities_differ(tables: Tables, bounds: RangeView, filter: Seq<char>)
    requires
        tables.wf(),
    ensures
        unique(tables.agenda(bounds, filter), item_identity()),
{
    let events = made_of(tables.events, tables.shown_event(bounds, filter));
    let tasks = made_of(tables.tasks, tables.shown_task(bounds, filter));
    let items = tables.unsorted_agenda(bounds, filter);
    made_unique(
        tables.events,
        tables.shown_event(bounds, filter),
        event_item_key(),
        item_identity(),
    );
    made_unique(tables.tasks, tables.shown_task(bounds, filter), task_item_key(), item_identity());
    made_rows(tables.events, tables.shown_event(bounds, filter));
    made_rows(tables.tasks, tables.shown_task(bounds, filter));
    assert forall|a: int, b: int| 0 <= a < b < items.len() implies item_identity()(
        #[trigger] items[a],
    ) != item_identity()(#[trigger] items[b]) by {
        if b < events.len() {
            assert(items[a] == events[a] && items[b] == events[b]);
        } else if a >= events.len() {
            assert(items[a] == tasks[a - events.len()] && items[b] == tasks[b - events.len()]);
        } else {
            assert(events.contains(items[a]) && tasks.contains(items[b])) by {
                assert(events[a] == items[a] && tasks[b - events.len()] == items[b]);
            }
            let i = choose|i: int|
                0 <= i < tables.events.len() && tables.shown_event(bounds, filter)(
                    #[trigger] tables.events[i],
                ) == Some(items[a]);
            let j = choose|j: int|
                0 <= j < tables.tasks.len() && tables.shown_task(bounds, filter)(
                    #[trigger] tables.tasks[j],
                ) == Some(items[b]);
            identities_keep_apart(tables, i, j);
        }
    }
    sorted_unique(items, items.map_values(item_rank()), item_identity());
}

proof fn identities_keep_apart(tables: Tables, i: int, j: int)
    requires
        tables.wf(),
        0 <= i < tables.events.len(),
        0 <= j < tables.tasks.len(),
    ensures
        tables.events[i].item_id != tables.tasks[j].item_id,
{
    let event = tables.events[i];
    let task = tables.tasks[j];
    assert(event_identified()(event) && task_identified()(task));
    kinds_keep_apart(
        seq![event.account_id, event.calendar_id, event.event_id],
        seq![task.account_id, task.task_list_id, task.task_id],
    );
}

/// Every item of an agenda is in its range: an event overlaps with it, a task is due in it.
pub proof fn agenda_in_range(
    tables: Tables,
    bounds: RangeView,
    filter: Seq<char>,
    item: AgendaItemView,
)
    requires
        tables.agenda(bounds, filter).contains(item),
    ensures
        item.is_task ==> date_in_range(item.start, bounds) && item.due_date == Some(item.start),
        !item.is_task ==> if item.all_day {
            text_lt(item.start, bounds.end_date) && text_lt(bounds.start_date, item.end)
        } else {
            rfc3339(item.start) matches Some(start) && rfc3339(item.end) matches Some(end)
                && start.lt(bounds.end) && bounds.start.lt(end)
        },
{
    agenda_complete(tables, bounds, filter, item);
}

/// An agenda item of an account.
pub open spec fn item_of(id: Seq<char>) -> spec_fn(AgendaItemView) -> bool {
    |item: AgendaItemView| item.account_id == id
}

/// The agenda item of an event, whenever it is: none where its account is disabled or not asked for,
/// or its calendar not selected.
pub open spec fn event_candidate(
    tables: Tables,
    filter: Seq<char>,
    event: StoredEventView,
) -> Option<AgendaItemView> {
    match (
        first(tables.accounts, named_account(event.account_id)),
        first(tables.calendars, calendar_at(event.account_id, event.calendar_id)),
    ) {
        (Some(account), Some(calendar)) => if account.row.enabled && calendar.selected && admits(
            filter,
            event.account_id,
        ) {
            Some(event_item(event, account.row.label, calendar))
        } else {
            None
        },
        _ => None,
    }
}

/// The agenda item of a task, whenever it is due: none where its account is disabled or not asked
/// for, where it is completed, or where it is never due.
pub open spec fn task_candidate(
    tables: Tables,
    filter: Seq<char>,
    task: StoredTaskView,
) -> Option<AgendaItemView> {
    match (
        first(tables.accounts, named_account(task.account_id)),
        first(tables.task_lists, task_list_at(task.account_id, task.task_list_id)),
        task.due_date,
    ) {
        (Some(account), Some(list), Some(due_date)) => if account.row.enabled && task.status
            != "completed"@ && admits(filter, task.account_id) {
            Some(task_item(task, due_date, account.row.label, list))
        } else {
            None
        },
        _ => None,
    }
}

/// Whether an event that lasts whole days shows as an item among the days from one date up to
/// another, which is not one of them.
pub open spec fn event_on_days(
    tables: Tables,
    filter: Seq<char>,
    start: Seq<char>,
    end: Seq<char>,
    event: StoredEventView,
    item: AgendaItemView,
) -> bool {
    &&& event.all_day
    &&& event_candidate(tables, filter, event) == Some(item)
    &&& text_lt(event.start, end)
    &&& text_lt(start, event.end)
}

/// Whether a task shows as an item among the days from one date up to another, which is not one of
/// them.
pub open spec fn task_on_days(
    tables: Tables,
    filter: Seq<char>,
    start: Seq<char>,
    end: Seq<char>,
    task: StoredTaskView,
    item: AgendaItemView,
) -> bool {
    &&& task_candidate(tables, filter, task) == Some(item)
    &&& task.due_date matches Some(due_date) && !text_lt(due_date, start) && text_lt(due_date, end)
}

/// The agenda between two dates lists exactly those whole days' events and tasks, whatever the time
/// zone: of the events that last whole days, those that start before the end and end after the
/// start; of the tasks, those that are due from the start on and before the end.
pub proof fn agenda_of_whole_days(
    tables: Tables,
    start: Seq<char>,
    end: Seq<char>,
    bounds: RangeView,
    filter: Seq<char>,
    item: AgendaItemView,
)
    requires
        is_day_form(start) && is_day_form(end),
        range_reading(start, end, Ok(bounds)),
    ensures
        tables.agenda(bounds, filter).contains(item) && item.all_day && !item.is_task <==> exists|
            i: int,
        |
            0 <= i < tables.events.len() && event_on_days(
                tables,
                filter,
                start,
                end,
                #[trigger] tables.events[i],
                item,
            ),
        tables.agenda(bounds, filter).contains(item) && item.is_task <==> exists|i: int|
            0 <= i < tables.tasks.len() && task_on_days(
                tables,
                filter,
                start,
                end,
                #[trigger] tables.tasks[i],
                item,
            ),
{
    dates_are_read_as_written(start, end, bounds);
    agenda_complete(tables, bounds, filter, item);
    assert forall|i: int| 0 <= i < tables.events.len() && tables.events[i].all_day implies (
    tables.shown_event(bounds, filter)(#[trigger] tables.events[i]) == Some(item) <==> event_on_days(
        tables,
        filter,
        start,
        end,
        tables.events[i],
        item,
    )) by {}
    assert forall|i: int| 0 <= i < tables.tasks.len() implies (tables.shown_task(bounds, filter)(
        #[trigger] tables.tasks[i],
    ) == Some(item) <==> task_on_days(tables, filter, start, end, tables.tasks[i], item)) by {}
}

/// The answer between two dates is one of some range with exactly these dates.
pub proof fn answer_is_of_these_days(
    tables: Tables,
    start: Seq<char>,
    end: Seq<char>,
    filter: Seq<char>,
    syncing: Seq<Seq<char>>,
    configured: bool,
    json: JsonView,
)
    requires
        is_day_form(start) && is_day_form(end),
        tables.agenda_result(start, end, filter, syncing, configured, Ok(json)),
    ensures
        exists|bounds: RangeView|
            range_reading(start, end, Ok(bounds)) && bounds.start_date == start && bounds.end_date
                == end && json.field("items"@) == Some(
                JsonView::Array(
                    (#[trigger] tables.agenda(bounds, filter)).map_values(item_json()),
                ),
            ),
{
    let (read, instant) = choose|
        read: std::result::Result<RangeView, ErrorView>,
        instant: Timestamp,
    |
        instant.is_representable() && range_reading(start, end, read) && Ok::<JsonView, ErrorView>(
            json,
        ) == #[trigger] tables.agenda_read(
            start,
            end,
            read,
            filter,
            syncing,
            configured,
            micros_text(instant),
        );
    let bounds = read->Ok_0;
    dates_are_read_as_written(start, end, bounds);
    answer_items(
        tables,
        start,
        end,
        bounds,
        filter,
        syncing,
        configured,
        micros_text(instant),
    );
}

/// The agenda of one account is the agenda of all accounts without the items of the others, in the
/// same order.
pub proof fn agenda_of_one_account(tables: Tables, bounds: RangeView, id: Seq<char>)
    requires
        id != "all"@,
    ensures
        tables.agenda(bounds, id) == tables.agenda(bounds, "all"@).filter(item_of(id)),
{
    let all = tables.unsorted_agenda(bounds, "all"@);
    made_filter(
        tables.events,
        tables.shown_event(bounds, id),
        tables.shown_event(bounds, "all"@),
        item_of(id),
    );
    made_filter(
        tables.tasks,
        tables.shown_task(bounds, id),
        tables.shown_task(bounds, "all"@),
        item_of(id),
    );
    Seq::filter_distributes_over_add(
        made_of(tables.events, tables.shown_event(bounds, "all"@)),
        made_of(tables.tasks, tables.shown_task(bounds, "all"@)),
        item_of(id),
    );
    assert(tables.unsorted_agenda(bounds, id) == all.filter(item_of(id)));
    sorted_filter(all, item_rank(), item_of(id));
}

/// What is asked of one account after all were asked is answered with the items of that account, in
/// the order in which they were listed among all, where the range is read in the same way.
pub proof fn answers_of_one_account(
    tables: Tables,
    start: Seq<char>,
    end: Seq<char>,
    read: std::result::Result<RangeView, ErrorView>,
    id: Seq<char>,
    syncing: Seq<Seq<char>>,
    configured: bool,
    generated_at: Seq<char>,
    later: Seq<char>,
)
    requires
        id != "all"@,
        tables.has_account(id),
        tables.agenda_read(start, end, read, "all"@, syncing, configured, generated_at) is Ok,
    ensures
        tables.agenda_read(start, end, read, id, syncing, configured, later) is Ok,
        read matches Ok(bounds) && {
            let all = tables.agenda(bounds, "all"@);
            &&& tables.agenda_read(
                start,
                end,
                read,
                "all"@,
                syncing,
                configured,
                generated_at,
            )->Ok_0.field("items"@) == Some(JsonView::Array(all.map_values(item_json())))
            &&& tables.agenda_read(start, end, read, id, syncing, configured, later)->Ok_0.field(
                "items"@,
            ) == Some(JsonView::Array(all.filter(item_of(id)).map_values(item_json())))
        },
{
    let bounds = read->Ok_0;
    agenda_of_one_account(tables, bounds, id);
    answer_items(tables, start, end, bounds, "all"@, syncing, configured, generated_at);
    answer_items(tables, start, end, bounds, id, syncing, configured, later);
}

proof fn answer_items(
    tables: Tables,
    start: Seq<char>,
    end: Seq<char>,
    bounds: RangeView,
    filter: Seq<char>,
    syncing: Seq<Seq<char>>,
    configured: bool,
    generated_at: Seq<char>,
)
    requires
        filter == "all"@ || tables.has_account(filter),
    ensures
        tables.agenda_answer(
            start,
            end,
            bounds,
            filter,
            syncing,
            configured,
            generated_at,
        ) matches Ok(json) && json.field("items"@) == Some(
            JsonView::Array(tables.agenda(bounds, filter).map_values(item_json())),
        ),
{
    reveal_strlit("items");
    reveal_strlit("generatedAt");
    reveal_strlit("context");
    assert("items"@.len() == 5 && "generatedAt"@.len() == 11 && "context"@.len() == 7);
}

/// To ask for an agenda twice, with nothing changed between, gives the same items, or the same
/// error, where the range is read in the same way: what is being synchronized and the time do not
/// matter.
pub proof fn same_items_again(
    tables: Tables,
    start: Seq<char>,
    end: Seq<char>,
    read: std::result::Result<RangeView, ErrorView>,
    filter: Seq<char>,
    syncing: Seq<Seq<char>>,
    configured: bool,
    generated_at: Seq<char>,
    syncing_later: Seq<Seq<char>>,
    configured_later: bool,
    later: Seq<char>,
)
    ensures
        match (
            tables.agenda_read(start, end, read, filter, syncing, configured, generated_at),
            tables.agenda_read(start, end, read, filter, syncing_later, configured_later, later),
        ) {
            (Ok(first), Ok(second)) => first.field("items"@) is Some && first.field("items"@)
                == second.field("items"@),
            (Err(first), Err(second)) => first == second,
            _ => false,
        },
{
    if let Ok(bounds) = read {
        if filter == "all"@ || tables.has_account(filter) {
            answer_items(tables, start, end, bounds, filter, syncing, configured, generated_at);
            answer_items(
                tables,
                start,
                end,
                bounds,
                filter,
                syncing_later,
                configured_later,
                later,
            );
        }
    }
}

/// An event with a time of day.
pub open spec fn is_timed() -> spec_fn(AgendaItemView) -> bool {
    |item: AgendaItemView| !item.all_day
}

/// What an event with a time of day shows as in an agenda: none where it lasts whole days.
spec fn timed_event(tables: Tables, bounds: RangeView, filter: Seq<char>) -> spec_fn(
    StoredEventView,
) -> Option<AgendaItemView> {
    |event: StoredEventView|
        match tables.shown_event(bounds, filter)(event) {
            Some(item) if !item.all_day => Some(item),
            _ => None,
        }
}

proof fn timed_agenda(tables: Tables, bounds: RangeView, filter: Seq<char>)
    ensures
        ({
            let events = made_of(tables.events, timed_event(tables, bounds, filter));
            tables.agenda(bounds, filter).filter(is_timed()) == stable_sorted(
                events,
                events.map_values(item_rank()),
            )
        }),
{
    let items = tables.unsorted_agenda(bounds, filter);
    made_filter(
        tables.events,
        timed_event(tables, bounds, filter),
        tables.shown_event(bounds, filter),
        is_timed(),
    );
    let tasks = made_of(tables.tasks, tables.shown_task(bounds, filter));
    made_rows(tables.tasks, tables.shown_task(bounds, filter));
    filter_rows(tasks, is_timed());
    assert(tasks.filter(is_timed()) =~= Seq::<AgendaItemView>::empty()) by {
        let kept = tasks.filter(is_timed());
        if kept.len() > 0 {
            assert(kept.contains(kept[0]));
        }
    }
    Seq::filter_distributes_over_add(
        made_of(tables.events, tables.shown_event(bounds, filter)),
        tasks,
        is_timed(),
    );
    let events = made_of(tables.events, timed_event(tables, bounds, filter));
    assert(items.filter(is_timed()) =~= events);
    sorted_filter(items, item_rank(), is_timed());
}

/// Of a range between two points in time, two agendas hold the same events with a time of day, in the
/// same order, however often and in whatever time zones the range is read.
pub proof fn same_timed_events_everywhere(
    tables: Tables,
    start: Seq<char>,
    end: Seq<char>,
    from: Timestamp,
    to: Timestamp,
    first_read: RangeView,
    second_read: RangeView,
    filter: Seq<char>,
)
    requires
        boundary_of(start) == Some(Boundary::Instant(from)),
        boundary_of(end) == Some(Boundary::Instant(to)),
        range_reading(start, end, Ok(first_read)),
        range_reading(start, end, Ok(second_read)),
    ensures
        tables.agenda(first_read, filter).filter(is_timed()) == tables.agenda(
            second_read,
            filter,
        ).filter(is_timed()),
{
    assert(first_read.start == from && first_read.end == to);
    assert(second_read.start == from && second_read.end == to);
    timed_agenda(tables, first_read, filter);
    timed_agenda(tables, second_read, filter);
    assert(timed_event(tables, first_read, filter) =~= timed_event(tables, second_read, filter));
}

/// The link of an event that Google reported last is the one that it reported, unless that is
/// empty.
pub proof fn reported_link_is_kept(
    tables: Tables,
    account_id: Seq<char>,
    calendar_id: Seq<char>,
    event: JsonView,
    row: StoredEventView,
    token: Seq<char>,
    replace: bool,
    now: Seq<char>,
    after: Tables,
)
    requires
        tables.wf(),
        event_row(account_id, calendar_id, event) == Some(row),
        event.field_text("status"@) != Some("cancelled"@),
        tables.apply_events(account_id, calendar_id, seq![event], token, replace, now) == Ok::<
            Tables,
            ErrorView,
        >(after),
    ensures
        row.item_id == item_id("event"@, seq![account_id, calendar_id, row.event_id]),
        after.item_url(row.item_id) == if row.url.len() > 0 {
            Some(row.url)
        } else {
            None
        },
{
    let reported = seq![event];
    let before = if replace {
        tables.events.filter(outside_calendar(account_id, calendar_id))
    } else {
        tables.events
    };
    let known = tables.has_calendar(account_id, calendar_id);
    assert(reported.drop_last() =~= Seq::<JsonView>::empty());
    assert(event_steps(before, known, account_id, calendar_id, reported.drop_last()) == Ok::<
        _,
        ErrorView,
    >(before));
    assert(after.events == put_event(before, row));
    apply_events_keeps(tables, account_id, calendar_id, reported, token, replace, now);
    let same = event_at(account_id, calendar_id, row.event_id);
    let at = if any(before, same) {
        choose|i: int| 0 <= i < before.len() && same(#[trigger] before[i])
    } else {
        before.len() as int
    };
    assert(after.events[at] == row);
    first_none(after.events, event_named(row.item_id));
    assert(event_named(row.item_id)(after.events[at]));
    let found = first(after.events, event_named(row.item_id))->0;
    let k = choose|k: int| 0 <= k < after.events.len() && after.events[k] == found;
    assert(k == at) by {
        if k != at {
            assert(event_item_key()(after.events[k]) != event_item_key()(after.events[at]));
        }
    }
    first_none(after.tasks, task_named(row.item_id));
    if any(after.tasks, task_named(row.item_id)) {
        let j = choose|j: int|
            0 <= j < after.tasks.len() && task_named(row.item_id)(#[trigger] after.tasks[j]);
        identities_keep_apart(after, at, j);
    }
}

/// No link is empty, and only an event or a task of the cache has one.
pub proof fn links_are_of_items(tables: Tables, id: Seq<char>)
    ensures
        tables.item_url(id) matches Some(url) ==> url.len() > 0,
        !any(tables.events, event_named(id)) && !any(tables.tasks, task_named(id))
            ==> tables.item_url(id) is None,
{
    first_none(tables.events, event_named(id));
    first_none(tables.tasks, task_named(id));
}

/// Once an account was removed, none of its events and tasks has a link, no agenda lists an item of
/// it, and to remove it again changes nothing.
pub proof fn removed_items_are_gone(
    tables: Tables,
    id: Seq<char>,
    bounds: RangeView,
    filter: Seq<char>,
)
    requires
        tables.wf(),
    ensures
        ({
            let after = tables.delete_account(id);
            &&& !after.has_account(id)
            &&& forall|i: int|
                0 <= i < tables.events.len() && (#[trigger] tables.events[i]).account_id == id
                    ==> after.item_url(tables.events[i].item_id) is None
            &&& forall|i: int|
                0 <= i < tables.tasks.len() && (#[trigger] tables.tasks[i]).account_id == id
                    ==> after.item_url(tables.tasks[i].item_id) is None
            &&& forall|item: AgendaItemView|
                #[trigger] after.agenda(bounds, filter).contains(item) ==> item.account_id != id
            &&& after.delete_account(id) == after
        }),
{
    let after = tables.delete_account(id);
    delete_account_clears(tables, id);
    delete_account_touches_one(tables, id);
    filter_rows(tables.events, foreign_event(id));
    filter_rows(tables.tasks, foreign_task(id));
    assert forall|i: int|
        0 <= i < tables.events.len() && (#[trigger] tables.events[i]).account_id == id implies
        after.item_url(tables.events[i].item_id) is None by {
        let wanted = tables.events[i].item_id;
        links_are_of_items(after, wanted);
        if any(after.events, event_named(wanted)) {
            let k = choose|k: int|
                0 <= k < after.events.len() && event_named(wanted)(#[trigger] after.events[k]);
            assert(after.events.contains(after.events[k]));
            let m = choose|m: int| 0 <= m < tables.events.len() && tables.events[m]
                == after.events[k];
            assert(event_item_key()(tables.events[m]) == event_item_key()(tables.events[i]));
            assert(m == i);
        }
        if any(after.tasks, task_named(wanted)) {
            let k = choose|k: int|
                0 <= k < after.tasks.len() && task_named(wanted)(#[trigger] after.tasks[k]);
            assert(after.tasks.contains(after.tasks[k]));
            let m = choose|m: int| 0 <= m < tables.tasks.len() && tables.tasks[m]
                == after.tasks[k];
            identities_keep_apart(tables, i, m);
        }
    }
    assert forall|i: int|
        0 <= i < tables.tasks.len() && (#[trigger] tables.tasks[i]).account_id == id implies
        after.item_url(tables.tasks[i].item_id) is None by {
        let wanted = tables.tasks[i].item_id;
        links_are_of_items(after, wanted);
        if any(after.tasks, task_named(wanted)) {
            let k = choose|k: int|
                0 <= k < after.tasks.len() && task_named(wanted)(#[trigger] after.tasks[k]);
            assert(after.tasks.contains(after.tasks[k]));
            let m = choose|m: int| 0 <= m < tables.tasks.len() && tables.tasks[m]
                == after.tasks[k];
            assert(task_item_key()(tables.tasks[m]) == task_item_key()(tables.tasks[i]));
            assert(m == i);
        }
        if any(after.events, event_named(wanted)) {
            let k = choose|k: int|
                0 <= k < after.events.len() && event_named(wanted)(#[trigger] after.events[k]);
            assert(after.events.contains(after.events[k]));
            let m = choose|m: int| 0 <= m < tables.events.len() && tables.events[m]
                == after.events[k];
            identities_keep_apart(tables, m, i);
        }
    }
    assert forall|item: AgendaItemView|
        #[trigger] after.agenda(bounds, filter).contains(item) implies item.account_id != id by {
        agenda_in_scope(after, bounds, filter, item);
        first_none(after.accounts, named_account(item.account_id));
    }
    assert(after.accounts.filter(other_account(id)) == after.accounts);
}

fn filter_admits(filter: &str, account_id: &str) -> (result: bool)
    ensures
        result == admits(filter@, account_id@),
{
    text_eq(filter, "all") || text_eq(account_id, filter)
}

/// Decides whether an event and a range of time overlap.
pub fn event_overlaps(event: &StoredEvent, bounds: &RangeBounds) -> (result: bool)
    ensures
        result == event_in_range(event@, bounds@),
{
    if event.all_day {
        return text_less(event.start.as_str(), bounds.end_date.as_str()) && text_less(
            bounds.start_date.as_str(),
            event.end.as_str(),
        );
    }
    let start: Option<Timestamp> = parse_rfc3339(event.start.as_str());
    let end: Option<Timestamp> = parse_rfc3339(event.end.as_str());
    match (start, end) {
        (Some(start), Some(end)) => start.earlier(&bounds.end) && bounds.start.earlier(&end),
        _ => false,
    }
}

fn means_default(reminders: &Json) -> (result: bool)
    ensures
        result == (reminders@ == use_default()),
{
    match reminders {
        Json::Array(items) => {
            if items.len() != 1 {
                assert(reminders@ != use_default()) by {
                    assert(array_view(items@).len() != 1);
                }
                return false;
            }
            match &items[0] {
                Json::Object(object) => {
                    let only: bool = object.has_only("useDefault");
                    let flag: bool = items[0].get_flag("useDefault");
                    let ghost wanted = Map::<Seq<char>, JsonView>::empty().insert(
                        "useDefault"@,
                        JsonView::Bool(true),
                    );
                    proof {
                        assert(items@[0]@ == JsonView::Object(object@));
                        if only && flag {
                            assert(object@ =~= wanted);
                            assert(array_view(items@) =~= seq![JsonView::Object(wanted)]);
                        } else if reminders@ == use_default() {
                            assert(array_view(items@)[0] == JsonView::Object(wanted));
                            assert(object@ == wanted);
                            assert(wanted.dom() =~= Set::<Seq<char>>::empty().insert(
                                "useDefault"@,
                            ));
                        }
                    }
                    only && flag
                },
                _ => {
                    proof {
                        if reminders@ == use_default() {
                            assert(array_view(items@)[0] is Object);
                        }
                    }
                    false
                },
            }
        },
        _ => false,
    }
}

impl AgendaItem {
    /// The agenda item in an answer.
    pub fn to_json(&self) -> (json: Json)
        ensures
            json@ == item_json()(self@),
    {
        let kind: &str = if self.is_task {
            "task"
        } else {
            "event"
        };
        Json::Object(
            JsonObject::new()
                .with("id", Json::Text(self.id.clone()))
                .with("type", Json::text(kind))
                .with("accountId", Json::Text(self.account_id.clone()))
                .with("accountLabel", Json::Text(self.account_label.clone()))
                .with("calendarId", Json::Text(self.calendar_id.clone()))
                .with("calendarLabel", Json::Text(self.calendar_label.clone()))
                .with("color", Json::Text(self.color.clone()))
                .with("title", Json::Text(self.title.clone()))
                .with("start", Json::Text(self.start.clone()))
                .with("end", Json::Text(self.end.clone()))
                .with("allDay", Json::Bool(self.all_day))
                .with("dueDate", Json::optional(&self.due_date))
                .with("location", Json::Text(self.location.clone()))
                .with("url", Json::Text(self.url.clone()))
                .with("reminders", self.reminders.clone())
                .with("icalUid", Json::optional(&self.ical_uid))
                .with("occurrenceStart", Json::optional(&self.occurrence_start)),
        )
    }

    fn rank(&self) -> (rank: Vec<String>)
        ensures
            texts(rank@) == item_rank()(self@),
    {
        let mut rank: Vec<String> = Vec::new();
        rank.push(self.start.clone());
        if self.all_day {
            rank.push("0".to_owned());
        } else {
            rank.push("1".to_owned());
        }
        rank.push(to_lowercase(self.title.as_str()));
        rank.push(self.id.clone());
        assert(texts(rank@) =~= item_rank()(self@));
        rank
    }
}

impl Database {
    fn account_at(&self, account_id: &str) -> (account: Option<&StoredAccount>)
        ensures
            match account {
                Some(account) => first(self@.accounts, named_account(account_id@)) == Some(
                    account@,
                ) && self@.has_account(account_id@),
                None => first(self@.accounts, named_account(account_id@)) is None
                    && !self@.has_account(account_id@),
            },
    {
        let stored: &Vec<StoredAccount> = self.stored_accounts();
        let test = |account: &StoredAccount| -> (answer: bool)
            ensures
                answer == named_account(account_id@)(account@)
            {
                text_eq(account.row.account_id.as_str(), account_id)
            };
        match position(stored, test, Ghost(named_account(account_id@))) {
            Some(i) => Some(&stored[i]),
            None => None,
        }
    }

    fn event_shown(&self, event: &StoredEvent, bounds: &RangeBounds, filter: &str) -> (item: Option<
        AgendaItem,
    >)
        ensures
            match item {
                Some(item) => self@.shown_event(bounds@, filter@)(event@) == Some(item@),
                None => self@.shown_event(bounds@, filter@)(event@) is None,
            },
    {
        let account: &StoredAccount = match self.account_at(event.account_id.as_str()) {
            Some(account) => account,
            None => return None,
        };
        let stored: &Vec<StoredCalendar> = self.stored_calendars();
        let test = |calendar: &StoredCalendar| -> (answer: bool)
            ensures
                answer == calendar_at(event@.account_id, event@.calendar_id)(calendar@)
            {
                text_eq(calendar.account_id.as_str(), event.account_id.as_str()) && text_eq(
                    calendar.calendar_id.as_str(),
                    event.calendar_id.as_str(),
                )
            };
        let at: Option<usize> = position(
            stored,
            test,
            Ghost(calendar_at(event@.account_id, event@.calendar_id)),
        );
        let calendar: &StoredCalendar = match at {
            Some(i) => &stored[i],
            None => return None,
        };
        if !(account.row.enabled && calendar.selected && filter_admits(
            filter,
            event.account_id.as_str(),
        ) && event_overlaps(event, bounds)) {
            return None;
        }
        let own: Json = parse_or_empty(event.reminders.as_str());
        let reminders: Json = if means_default(&own) {
            parse_or_empty(calendar.default_reminders.as_str())
        } else {
            own
        };
        Some(
            AgendaItem {
                id: event.item_id.clone(),
                is_task: false,
                account_id: event.account_id.clone(),
                account_label: account.row.label.clone(),
                calendar_id: event.calendar_id.clone(),
                calendar_label: calendar.label.clone(),
                color: calendar.color.clone(),
                title: event.title.clone(),
                start: event.start.clone(),
                end: event.end.clone(),
                all_day: event.all_day,
                due_date: None,
                location: event.location.clone(),
                url: event.url.clone(),
                reminders,
                ical_uid: event.ical_uid.clone(),
                occurrence_start: event.occurrence_start.clone(),
            },
        )
    }

    fn task_shown(&self, task: &StoredTask, bounds: &RangeBounds, filter: &str) -> (item: Option<
        AgendaItem,
    >)
        ensures
            match item {
                Some(item) => self@.shown_task(bounds@, filter@)(task@) == Some(item@),
                None => self@.shown_task(bounds@, filter@)(task@) is None,
            },
    {
        let account: &StoredAccount = match self.account_at(task.account_id.as_str()) {
            Some(account) => account,
            None => return None,
        };
        let stored: &Vec<StoredTaskList> = self.stored_task_lists();
        let test = |list: &StoredTaskList| -> (answer: bool)
            ensures
                answer == task_list_at(task@.account_id, task@.task_list_id)(list@)
            {
                text_eq(list.account_id.as_str(), task.account_id.as_str()) && text_eq(
                    list.task_list_id.as_str(),
                    task.task_list_id.as_str(),
                )
            };
        let at: Option<usize> = position(
            stored,
            test,
            Ghost(task_list_at(task@.account_id, task@.task_list_id)),
        );
        let list: &StoredTaskList = match at {
            Some(i) => &stored[i],
            None => return None,
        };
        let due_date: &String = match &task.due_date {
            Some(due_date) => due_date,
            None => return None,
        };
        if !(account.row.enabled && !text_eq(task.status.as_str(), "completed") && filter_admits(
            filter,
            task.account_id.as_str(),
        ) && !text_less(due_date.as_str(), bounds.start_date.as_str()) && text_less(
            due_date.as_str(),
            bounds.end_date.as_str(),
        )) {
            return None;
        }
        let none: Vec<Json> = Vec::new();
        assert(array_view(none@) =~= Seq::<JsonView>::empty());
        Some(
            AgendaItem {
                id: task.item_id.clone(),
                is_task: true,
                account_id: task.account_id.clone(),
                account_label: account.row.label.clone(),
                calendar_id: task.task_list_id.clone(),
                calendar_label: list.label.clone(),
                color: "#8ab4f8".to_owned(),
                title: task.title.clone(),
                start: due_date.clone(),
                end: due_date.clone(),
                all_day: true,
                due_date: Some(due_date.clone()),
                location: "".to_owned(),
                url: task.url.clone(),
                reminders: Json::Array(none),
                ical_uid: None,
                occurrence_start: None,
            },
        )
    }

    /// The agenda items of a range, as they are listed.
    pub fn agenda_items(&self, bounds: &RangeBounds, filter: &str) -> (items: Vec<AgendaItem>)
        ensures
            rows(items@) == self@.agenda(bounds@, filter@),
    {
        let events: &Vec<StoredEvent> = self.stored_events();
        let tasks: &Vec<StoredTask> = self.stored_tasks();
        let ghost of_event = self@.shown_event(bounds@, filter@);
        let ghost of_task = self@.shown_task(bounds@, filter@);
        let ghost event_rows = rows(events@);
        let ghost task_rows = rows(tasks@);
        let mut items: Vec<AgendaItem> = Vec::new();
        assert(event_rows.take(0) =~= Seq::<StoredEventView>::empty());
        assert(rows(items@) =~= made_of(event_rows.take(0), of_event));
        for i in 0..events.len()
            invariant
                event_rows == rows(events@),
                of_event == self@.shown_event(bounds@, filter@),
                rows(items@) == made_of(event_rows.take(i as int), of_event),
        {
            let ghost before = rows(items@);
            assert(event_rows.take(i + 1).drop_last() =~= event_rows.take(i as int));
            assert(event_rows.take(i + 1).last() == events@[i as int]@);
            if let Some(item) = self.event_shown(&events[i], bounds, filter) {
                items.push(item);
                assert(rows(items@) =~= before.push(item@));
            }
        }
        assert(event_rows.take(events@.len() as int) =~= event_rows);
        let ghost shown = made_of(event_rows, of_event);
        assert(task_rows.take(0) =~= Seq::<StoredTaskView>::empty());
        assert(rows(items@) =~= shown + made_of(task_rows.take(0), of_task));
        for i in 0..tasks.len()
            invariant
                task_rows == rows(tasks@),
                of_task == self@.shown_task(bounds@, filter@),
                rows(items@) == shown + made_of(task_rows.take(i as int), of_task),
        {
            let ghost before = rows(items@);
            let ghost inner = made_of(task_rows.take(i as int), of_task);
            assert(task_rows.take(i + 1).drop_last() =~= task_rows.take(i as int));
            assert(task_rows.take(i + 1).last() == tasks@[i as int]@);
            if let Some(item) = self.task_shown(&tasks[i], bounds, filter) {
                items.push(item);
                assert(rows(items@) =~= before.push(item@));
                assert((shown + inner).push(item@) =~= shown + inner.push(item@));
            }
        }
        assert(task_rows.take(tasks@.len() as int) =~= task_rows);
        let mut ranks: Vec<Vec<String>> = Vec::new();
        for i in 0..items.len()
            invariant
                ranks@.len() == i,
                forall|j: int|
                    0 <= j < i ==> texts((#[trigger] ranks@[j])@) == item_rank()(items@[j]@),
        {
            ranks.push(items[i].rank());
        }
        assert(keys_view(ranks@) =~= rows(items@).map_values(item_rank()));
        sorted(&items, &ranks)
    }

    /// The answer to an agenda request whose range was read.
    pub fn agenda_answer(
        &self,
        start: &str,
        end: &str,
        bounds: &RangeBounds,
        filter: &str,
        syncing: &Vec<String>,
        configured: bool,
        generated_at: &str,
    ) -> (answer: Result<Json>)
        ensures
            match answer {
                Ok(json) => self@.agenda_answer(
                    start@,
                    end@,
                    bounds@,
                    filter@,
                    texts(syncing@),
                    configured,
                    generated_at@,
                ) == Ok::<_, ErrorView>(json@),
                Err(error) => self@.agenda_answer(
                    start@,
                    end@,
                    bounds@,
                    filter@,
                    texts(syncing@),
                    configured,
                    generated_at@,
                ) == Err::<JsonView, _>(error@),
            },
    {
        if !text_eq(filter, "all") && self.account_at(filter).is_none() {
            return Err(CalendarError::new("account_not_found", "Google account was not found"));
        }
        let items: Vec<AgendaItem> = self.agenda_items(bounds, filter);
        let write = |item: &AgendaItem| -> (json: Json)
            ensures
                json@ == item_json()(item@)
            {
                item.to_json()
            };
        let listed: Vec<Json> = json_list(&items, write, Ghost(item_json()));
        Ok(
            Json::Object(
                JsonObject::new()
                    .with("start", Json::text(start))
                    .with("end", Json::text(end))
                    .with("items", Json::Array(listed))
                    .with("generatedAt", Json::text(generated_at))
                    .with("context", self.context(syncing, configured, filter)),
            ),
        )
    }

    /// The agenda of a range: the events and tasks of the accounts in scope, and what is known of
    /// those accounts. The local time zone decides where a boundary names a local time.
    pub fn agenda(
        &self,
        start: &str,
        end: &str,
        filter: &str,
        syncing: &Vec<String>,
        configured: bool,
    ) -> (answer: Result<Json>)
        ensures
            match answer {
                Ok(json) => self@.agenda_result(
                    start@,
                    end@,
                    filter@,
                    texts(syncing@),
                    configured,
                    Ok(json@),
                ),
                Err(error) => self@.agenda_result(
                    start@,
                    end@,
                    filter@,
                    texts(syncing@),
                    configured,
                    Err(error@),
                ),
            },
    {
        let bounds: RangeBounds = match range_bounds(start, end) {
            Ok(bounds) => bounds,
            Err(error) => {
                let ghost instant = Timestamp { seconds: 0, nanos: 0 };
                let ghost read = Err::<RangeView, ErrorView>(error@);
                assert(range_reading(start@, end@, read));
                assert(self@.agenda_read(
                    start@,
                    end@,
                    read,
                    filter@,
                    texts(syncing@),
                    configured,
                    micros_text(instant),
                ) == Err::<JsonView, _>(error@));
                return Err(error);
            },
        };
        let generated_at: String = iso_now();
        let ghost instant = choose|instant: Timestamp|
            instant.is_representable() && generated_at@ == #[trigger] micros_text(instant);
        let answer: Result<Json> = self.agenda_answer(
            start,
            end,
            &bounds,
            filter,
            syncing,
            configured,
            generated_at.as_str(),
        );
        let ghost read = Ok::<RangeView, ErrorView>(bounds@);
        assert(range_reading(start@, end@, read));
        assert(self@.agenda_read(
            start@,
            end@,
            read,
            filter@,
            texts(syncing@),
            configured,
            micros_text(instant),
        ) is Ok == answer is Ok);
        answer
    }

    /// The link of an agenda item, where it has one.
    pub fn item_url(&self, item_id: &str) -> (url: Option<String>)
        ensures
            optional_view(url) == self@.item_url(item_id@),
    {
        let events: &Vec<StoredEvent> = self.stored_events();
        let is_event = |event: &StoredEvent| -> (answer: bool)
            ensures
                answer == event_named(item_id@)(event@)
            {
                text_eq(event.item_id.as_str(), item_id)
            };
        if let Some(i) = position(events, is_event, Ghost(event_named(item_id@))) {
            if !events[i].url.as_str().is_empty() {
                return Some(events[i].url.clone());
            }
        }
        let tasks: &Vec<StoredTask> = self.stored_tasks();
        let is_task = |task: &StoredTask| -> (answer: bool)
            ensures
                answer == task_named(item_id@)(task@)
            {
                text_eq(task.item_id.as_str(), item_id)
            };
        if let Some(i) = position(tasks, is_task, Ghost(task_named(item_id@))) {
            if !tasks[i].url.as_str().is_empty() {
                return Some(tasks[i].url.clone());
            }
        }
        None
    }
}

} // verus!
