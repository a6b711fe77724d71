//! What the cache holds, and what each operation makes of it.
use vstd::prelude::*;

use crate::entries::{CalendarEntryView, TaskListEntryView};
use crate::error::{failure, ErrorView};
use crate::json::{compact_text, JsonView};
use crate::normalize::{event_row, field_or, item_id, task_row};
use crate::records::{
    AccountView, StoredAccountView, StoredCalendarView, StoredEventView, StoredTaskListView,
    StoredTaskView,
};
use crate::table::{all, any, first, revised, unique};

verus! {

/// The rows of the cache, table by table.
#[verifier::ext_equal]
pub struct Tables {
    pub accounts: Seq<StoredAccountView>,
    pub calendars: Seq<StoredCalendarView>,
    pub events: Seq<StoredEventView>,
    pub task_lists: Seq<StoredTaskListView>,
    pub tasks: Seq<StoredTaskView>,
}

/// The identity of an account.
pub open spec fn account_key() -> spec_fn(StoredAccountView) -> Seq<char> {
    |account: StoredAccountView| account.row.account_id
}

/// The Google identity of an account.
pub open spec fn subject_key() -> spec_fn(StoredAccountView) -> Seq<char> {
    |account: StoredAccountView| account.row.google_sub
}

/// The identity of a calendar.
pub open spec fn calendar_key() -> spec_fn(StoredCalendarView) -> (Seq<char>, Seq<char>) {
    |calendar: StoredCalendarView| (calendar.account_id, calendar.calendar_id)
}

/// The identity of an event in its calendar.
pub open spec fn event_key() -> spec_fn(StoredEventView) -> (Seq<char>, Seq<char>, Seq<char>) {
    |event: StoredEventView| (event.account_id, event.calendar_id, event.event_id)
}

/// The identity of an event as an agenda item.
pub open spec fn event_item_key() -> spec_fn(StoredEventView) -> Seq<char> {
    |event: StoredEventView| event.item_id
}

/// The identity of a task list.
pub open spec fn task_list_key() -> spec_fn(StoredTaskListView) -> (Seq<char>, Seq<char>) {
    |list: StoredTaskListView| (list.account_id, list.task_list_id)
}

/// The identity of a task in its list.
pub open spec fn task_key() -> spec_fn(StoredTaskView) -> (Seq<char>, Seq<char>, Seq<char>) {
    |task: StoredTaskView| (task.account_id, task.task_list_id, task.task_id)
}

/// The identity of a task as an agenda item.
pub open spec fn task_item_key() -> spec_fn(StoredTaskView) -> Seq<char> {
    |task: StoredTaskView| task.item_id
}

/// The account with an identity.
pub open spec fn named_account(id: Seq<char>) -> spec_fn(StoredAccountView) -> bool {
    |account: StoredAccountView| account.row.account_id == id
}

/// The account with a Google identity.
pub open spec fn with_subject(subject: Seq<char>) -> spec_fn(StoredAccountView) -> bool {
    |account: StoredAccountView| account.row.google_sub == subject
}

/// An account other than one, with a Google identity.
pub open spec fn rival_account(id: Seq<char>, subject: Seq<char>) -> spec_fn(
    StoredAccountView,
) -> bool {
    |account: StoredAccountView| account.row.account_id != id && account.row.google_sub == subject
}

/// A calendar with an identity.
pub open spec fn calendar_at(account_id: Seq<char>, calendar_id: Seq<char>) -> spec_fn(
    StoredCalendarView,
) -> bool {
    |calendar: StoredCalendarView|
        calendar.account_id == account_id && calendar.calendar_id == calendar_id
}

/// A task list with an identity.
pub open spec fn task_list_at(account_id: Seq<char>, task_list_id: Seq<char>) -> spec_fn(
    StoredTaskListView,
) -> bool {
    |list: StoredTaskListView| list.account_id == account_id && list.task_list_id == task_list_id
}

/// An event with an identity.
pub open spec fn event_at(
    account_id: Seq<char>,
    calendar_id: Seq<char>,
    event_id: Seq<char>,
) -> spec_fn(StoredEventView) -> bool {
    |event: StoredEventView|
        event.account_id == account_id && event.calendar_id == calendar_id && event.event_id
            == event_id
}

/// An event other than one that would show as the same agenda item.
pub open spec fn rival_event(row: StoredEventView) -> spec_fn(StoredEventView) -> bool {
    |event: StoredEventView|
        event.item_id == row.item_id && !(event.account_id == row.account_id && event.calendar_id
            == row.calendar_id && event.event_id == row.event_id)
}

/// A task with the same identity.
pub open spec fn same_task(row: StoredTaskView) -> spec_fn(StoredTaskView) -> bool {
    |task: StoredTaskView|
        task.account_id == row.account_id && task.task_list_id == row.task_list_id && task.task_id
            == row.task_id
}

/// A task that would show as the same agenda item.
pub open spec fn same_item(row: StoredTaskView) -> spec_fn(StoredTaskView) -> bool {
    |task: StoredTaskView| task.item_id == row.item_id
}

/// An account other than one.
pub open spec fn other_account(id: Seq<char>) -> spec_fn(StoredAccountView) -> bool {
    |account: StoredAccountView| account.row.account_id != id
}

/// A calendar of another account.
pub open spec fn foreign_calendar(id: Seq<char>) -> spec_fn(StoredCalendarView) -> bool {
    |calendar: StoredCalendarView| calendar.account_id != id
}

/// An event of another account.
pub open spec fn foreign_event(id: Seq<char>) -> spec_fn(StoredEventView) -> bool {
    |event: StoredEventView| event.account_id != id
}

/// A task list of another account.
pub open spec fn foreign_task_list(id: Seq<char>) -> spec_fn(StoredTaskListView) -> bool {
    |list: StoredTaskListView| list.account_id != id
}

/// A task of another account.
pub open spec fn foreign_task(id: Seq<char>) -> spec_fn(StoredTaskView) -> bool {
    |task: StoredTaskView| task.account_id != id
}

/// A calendar that a list of calendars of an account leaves in place.
pub open spec fn remaining_calendar(id: Seq<char>, incoming: Seq<Seq<char>>) -> spec_fn(
    StoredCalendarView,
) -> bool {
    |calendar: StoredCalendarView|
        calendar.account_id != id || incoming.contains(calendar.calendar_id)
}

/// An event that a list of calendars of an account leaves in place.
pub open spec fn remaining_event(id: Seq<char>, incoming: Seq<Seq<char>>) -> spec_fn(
    StoredEventView,
) -> bool {
    |event: StoredEventView| event.account_id != id || incoming.contains(event.calendar_id)
}

/// An event of another calendar.
pub open spec fn outside_calendar(account_id: Seq<char>, calendar_id: Seq<char>) -> spec_fn(
    StoredEventView,
) -> bool {
    |event: StoredEventView| !(event.account_id == account_id && event.calendar_id == calendar_id)
}

/// An event other than one.
pub open spec fn other_event(
    account_id: Seq<char>,
    calendar_id: Seq<char>,
    event_id: Seq<char>,
) -> spec_fn(StoredEventView) -> bool {
    |event: StoredEventView|
        !(event.account_id == account_id && event.calendar_id == calendar_id && event.event_id
            == event_id)
}

/// What a sign-in makes of an account.
pub open spec fn signing_in(
    subject: Seq<char>,
    email: Seq<char>,
    label: Seq<char>,
    now: Seq<char>,
) -> spec_fn(StoredAccountView) -> StoredAccountView {
    |account: StoredAccountView| signed_in(account, subject, email, label, now)
}

/// What a synchronization makes of an account.
pub open spec fn syncing(
    code: Option<Seq<char>>,
    message: Option<Seq<char>>,
    now: Seq<char>,
) -> spec_fn(StoredAccountView) -> StoredAccountView {
    |account: StoredAccountView| synced(account, code, message, now)
}

/// What a report makes of a calendar.
pub open spec fn reporting(entry: CalendarEntryView) -> spec_fn(
    StoredCalendarView,
) -> StoredCalendarView {
    |calendar: StoredCalendarView| reported(calendar, entry)
}

/// What writing an event makes of the one in its place.
pub open spec fn replacing(row: StoredEventView) -> spec_fn(StoredEventView) -> StoredEventView {
    |event: StoredEventView| row
}

/// What the synchronization of its events makes of a calendar.
pub open spec fn syncing_events(token: Seq<char>, replace: bool, now: Seq<char>) -> spec_fn(
    StoredCalendarView,
) -> StoredCalendarView {
    |calendar: StoredCalendarView| calendar_synced(calendar, token, replace, now)
}

/// What dropping its synchronization token makes of a calendar.
pub open spec fn forgetting() -> spec_fn(StoredCalendarView) -> StoredCalendarView {
    |calendar: StoredCalendarView| StoredCalendarView { sync_token: None, ..calendar }
}

/// An account whose error was kept without a code, when Google no longer accepted its sign-in.
pub open spec fn refused_before() -> spec_fn(StoredAccountView) -> bool {
    |account: StoredAccountView|
        account.row.error_code is None && account.row.error == Some("invalid_grant"@)
}

/// What naming the error of a refused sign-in makes of an account.
pub open spec fn naming_refusal() -> spec_fn(StoredAccountView) -> StoredAccountView {
    |account: StoredAccountView|
        StoredAccountView {
            row: AccountView {
                error_code: Some("credentials_expired"@),
                error: Some("Google access expired. Sign in again."@),
                ..account.row
            },
            ..account
        }
}

/// Says that a row names another one that is not there.
pub open spec fn reference_failure() -> ErrorView {
    failure("database_error"@, "Calendar database error: FOREIGN KEY constraint failed"@)
}

/// Says that a row with the same columns is already there.
pub open spec fn unique_failure(columns: Seq<char>) -> ErrorView {
    failure("database_error"@, "Calendar database error: UNIQUE constraint failed: "@ + columns)
}

/// An account after it signed in.
pub open spec fn signed_in(
    account: StoredAccountView,
    subject: Seq<char>,
    email: Seq<char>,
    label: Seq<char>,
    now: Seq<char>,
) -> StoredAccountView {
    StoredAccountView {
        row: AccountView {
            google_sub: subject,
            email,
            label,
            enabled: true,
            error_code: None,
            error: None,
            ..account.row
        },
        updated_at: now,
        ..account
    }
}

/// An account that signs in for the first time.
pub open spec fn new_account(
    id: Seq<char>,
    subject: Seq<char>,
    email: Seq<char>,
    label: Seq<char>,
    now: Seq<char>,
) -> StoredAccountView {
    StoredAccountView {
        row: AccountView {
            account_id: id,
            google_sub: subject,
            email,
            label,
            enabled: true,
            last_sync: None,
            error_code: None,
            error: None,
        },
        created_at: now,
        updated_at: now,
    }
}

/// An account after a synchronization: the time of the last one that succeeded is kept where this
/// one failed.
pub open spec fn synced(
    account: StoredAccountView,
    code: Option<Seq<char>>,
    message: Option<Seq<char>>,
    now: Seq<char>,
) -> StoredAccountView {
    StoredAccountView {
        row: AccountView {
            last_sync: if message is None {
                Some(now)
            } else {
                account.row.last_sync
            },
            error_code: code,
            error: message,
            ..account.row
        },
        updated_at: now,
        ..account
    }
}

/// A calendar after Google reported it again: where its synchronization stands is kept.
pub open spec fn reported(
    calendar: StoredCalendarView,
    entry: CalendarEntryView,
) -> StoredCalendarView {
    StoredCalendarView {
        label: entry.label,
        color: entry.color,
        selected: entry.selected,
        primary: entry.primary,
        default_reminders: compact_text(entry.default_reminders),
        ..calendar
    }
}

/// A calendar that Google reports for the first time.
pub open spec fn new_calendar(id: Seq<char>, entry: CalendarEntryView) -> StoredCalendarView {
    StoredCalendarView {
        account_id: id,
        calendar_id: entry.id,
        label: entry.label,
        color: entry.color,
        selected: entry.selected,
        primary: entry.primary,
        default_reminders: compact_text(entry.default_reminders),
        sync_token: None,
        full_sync_at: None,
    }
}

/// The calendars after Google reported one of an account.
pub open spec fn put_calendar(
    calendars: Seq<StoredCalendarView>,
    id: Seq<char>,
    entry: CalendarEntryView,
) -> Seq<StoredCalendarView> {
    if any(calendars, calendar_at(id, entry.id)) {
        revised(calendars, calendar_at(id, entry.id), reporting(entry))
    } else {
        calendars.push(new_calendar(id, entry))
    }
}

/// The calendars after Google reported some of an account, one by one.
pub open spec fn put_calendars(
    calendars: Seq<StoredCalendarView>,
    id: Seq<char>,
    entries: Seq<CalendarEntryView>,
) -> Seq<StoredCalendarView>
    decreases entries.len(),
{
    if entries.len() == 0 {
        calendars
    } else {
        put_calendar(put_calendars(calendars, id, entries.drop_last()), id, entries.last())
    }
}

/// The identities in a list of calendar entries.
pub open spec fn entry_ids(entries: Seq<CalendarEntryView>) -> Seq<Seq<char>> {
    entries.map_values(|entry: CalendarEntryView| entry.id)
}

/// An event whose identity comes from its account, its calendar and its name there.
pub open spec fn event_identified() -> spec_fn(StoredEventView) -> bool {
    |event: StoredEventView|
        event.item_id == item_id("event"@, seq![event.account_id, event.calendar_id, event.event_id])
}

/// A task whose identity comes from its account, its list and its name there.
pub open spec fn task_identified() -> spec_fn(StoredTaskView) -> bool {
    |task: StoredTaskView|
        task.item_id == item_id("task"@, seq![task.account_id, task.task_list_id, task.task_id])
}

/// The events after one was written: it takes the place of an event with the same identity, or
/// comes last.
pub open spec fn put_event(events: Seq<StoredEventView>, row: StoredEventView) -> Seq<
    StoredEventView,
> {
    if any(events, event_at(row.account_id, row.calendar_id, row.event_id)) {
        revised(events, event_at(row.account_id, row.calendar_id, row.event_id), replacing(row))
    } else {
        events.push(row)
    }
}

/// The events after one that Google reports for a calendar: one without identity is passed over,
/// a cancelled one is removed, one without start or end is passed over, any other is written.
pub open spec fn event_step(
    events: Seq<StoredEventView>,
    calendar_known: bool,
    account_id: Seq<char>,
    calendar_id: Seq<char>,
    event: JsonView,
) -> std::result::Result<Seq<StoredEventView>, ErrorView> {
    let event_id = field_or(event, "id"@, ""@);
    if event_id.len() == 0 {
        Ok(events)
    } else if event.field_text("status"@) == Some("cancelled"@) {
        Ok(events.filter(other_event(account_id, calendar_id, event_id)))
    } else {
        match event_row(account_id, calendar_id, event) {
            None => Ok(events),
            Some(row) => if any(events, rival_event(row)) {
                Err(unique_failure("events.item_id"@))
            } else if !calendar_known {
                Err(reference_failure())
            } else {
                Ok(put_event(events, row))
            },
        }
    }
}

/// The events after those that Google reports for a calendar, one by one.
pub open spec fn event_steps(
    events: Seq<StoredEventView>,
    calendar_known: bool,
    account_id: Seq<char>,
    calendar_id: Seq<char>,
    reported: Seq<JsonView>,
) -> std::result::Result<Seq<StoredEventView>, ErrorView>
    decreases reported.len(),
{
    if reported.len() == 0 {
        Ok(events)
    } else {
        match event_steps(events, calendar_known, account_id, calendar_id, reported.drop_last()) {
            Err(error) => Err(error),
            Ok(events) => event_step(
                events,
                calendar_known,
                account_id,
                calendar_id,
                reported.last(),
            ),
        }
    }
}

/// A calendar after its events were written: the next synchronization starts from the token.
pub open spec fn calendar_synced(
    calendar: StoredCalendarView,
    token: Seq<char>,
    replace: bool,
    now: Seq<char>,
) -> StoredCalendarView {
    StoredCalendarView {
        sync_token: Some(token),
        full_sync_at: if replace {
            Some(now)
        } else {
            calendar.full_sync_at
        },
        ..calendar
    }
}

/// The tasks after one that Google reports for a list: one without identity, deleted or hidden is
/// passed over, any other is added.
pub open spec fn task_step(
    tasks: Seq<StoredTaskView>,
    account_id: Seq<char>,
    task_list_id: Seq<char>,
    task: JsonView,
) -> std::result::Result<Seq<StoredTaskView>, ErrorView> {
    match task_row(account_id, task_list_id, task) {
        None => Ok(tasks),
        Some(row) => if any(tasks, same_task(row)) {
            Err(unique_failure("tasks.account_id, tasks.task_list_id, tasks.task_id"@))
        } else if any(tasks, same_item(row)) {
            Err(unique_failure("tasks.item_id"@))
        } else {
            Ok(tasks.push(row))
        },
    }
}

/// The tasks after those that Google reports for a list, one by one.
pub open spec fn task_steps(
    tasks: Seq<StoredTaskView>,
    account_id: Seq<char>,
    task_list_id: Seq<char>,
    reported: Seq<JsonView>,
) -> std::result::Result<Seq<StoredTaskView>, ErrorView>
    decreases reported.len(),
{
    if reported.len() == 0 {
        Ok(tasks)
    } else {
        match task_steps(tasks, account_id, task_list_id, reported.drop_last()) {
            Err(error) => Err(error),
            Ok(tasks) => task_step(tasks, account_id, task_list_id, reported.last()),
        }
    }
}

/// The tasks that Google reports, by task list.
pub type TasksByList = Seq<(Seq<char>, Seq<JsonView>)>;

/// Names the tasks of a list.
pub open spec fn list_named(id: Seq<char>) -> spec_fn((Seq<char>, Seq<JsonView>)) -> bool {
    |entry: (Seq<char>, Seq<JsonView>)| entry.0 == id
}

/// The tasks that Google reports for a list.
pub open spec fn tasks_of(tasks: TasksByList, id: Seq<char>) -> Seq<JsonView> {
    match first(tasks, list_named(id)) {
        Some(entry) => entry.1,
        None => Seq::empty(),
    }
}

/// Task lists and their tasks.
pub type ListsAndTasks = (Seq<StoredTaskListView>, Seq<StoredTaskView>);

/// A task list that Google reports.
pub open spec fn new_task_list(id: Seq<char>, entry: TaskListEntryView) -> StoredTaskListView {
    StoredTaskListView {
        account_id: id,
        task_list_id: entry.id,
        label: entry.label,
        updated: entry.updated,
    }
}

/// The task lists and tasks after a list that Google reports for an account.
pub open spec fn task_list_step(
    state: ListsAndTasks,
    account_known: bool,
    id: Seq<char>,
    entry: TaskListEntryView,
    tasks: TasksByList,
) -> std::result::Result<ListsAndTasks, ErrorView> {
    if any(state.0, task_list_at(id, entry.id)) {
        Err(unique_failure("task_lists.account_id, task_lists.task_list_id"@))
    } else if !account_known {
        Err(reference_failure())
    } else {
        match task_steps(state.1, id, entry.id, tasks_of(tasks, entry.id)) {
            Err(error) => Err(error),
            Ok(stored) => Ok((state.0.push(new_task_list(id, entry)), stored)),
        }
    }
}

/// The task lists and tasks after the lists that Google reports for an account, one by one.
pub open spec fn task_list_steps(
    state: ListsAndTasks,
    account_known: bool,
    id: Seq<char>,
    entries: Seq<TaskListEntryView>,
    tasks: TasksByList,
) -> std::result::Result<ListsAndTasks, ErrorView>
    decreases entries.len(),
{
    if entries.len() == 0 {
        Ok(state)
    } else {
        match task_list_steps(state, account_known, id, entries.drop_last(), tasks) {
            Err(error) => Err(error),
            Ok(state) => task_list_step(state, account_known, id, entries.last(), tasks),
        }
    }
}

impl Tables {
    /// A cache without rows.
    pub open spec fn empty() -> Tables {
        Tables {
            accounts: Seq::empty(),
            calendars: Seq::empty(),
            events: Seq::empty(),
            task_lists: Seq::empty(),
            tasks: Seq::empty(),
        }
    }

    /// Whether an account is there.
    pub open spec fn has_account(self, id: Seq<char>) -> bool {
        any(self.accounts, named_account(id))
    }

    /// Whether a calendar is there.
    pub open spec fn has_calendar(self, account_id: Seq<char>, calendar_id: Seq<char>) -> bool {
        any(self.calendars, calendar_at(account_id, calendar_id))
    }

    /// Whether a task list is there.
    pub open spec fn has_task_list(self, account_id: Seq<char>, task_list_id: Seq<char>) -> bool {
        any(self.task_lists, task_list_at(account_id, task_list_id))
    }

    /// Identities name one row each, a row names only rows that are there, and events and tasks have
    /// the identities that where they come from gives them.
    pub open spec fn wf(self) -> bool {
        &&& unique(self.accounts, account_key())
        &&& unique(self.accounts, subject_key())
        &&& unique(self.calendars, calendar_key())
        &&& unique(self.events, event_key())
        &&& unique(self.events, event_item_key())
        &&& unique(self.task_lists, task_list_key())
        &&& unique(self.tasks, task_key())
        &&& unique(self.tasks, task_item_key())
        &&& all(self.events, event_identified())
        &&& all(self.tasks, task_identified())
        &&& forall|i: int|
            0 <= i < self.calendars.len() ==> self.has_account(
                (#[trigger] self.calendars[i]).account_id,
            )
        &&& forall|i: int|
            0 <= i < self.events.len() ==> self.has_calendar(
                (#[trigger] self.events[i]).account_id,
                self.events[i].calendar_id,
            )
        &&& forall|i: int|
            0 <= i < self.task_lists.len() ==> self.has_account(
                (#[trigger] self.task_lists[i]).account_id,
            )
        &&& forall|i: int|
            0 <= i < self.tasks.len() ==> self.has_task_list(
                (#[trigger] self.tasks[i]).account_id,
                self.tasks[i].task_list_id,
            )
    }

    /// The cache after the errors that were kept without a code got theirs.
    pub open spec fn migrated(self) -> Tables {
        Tables { accounts: revised(self.accounts, refused_before(), naming_refusal()), ..self }
    }

    /// The cache after an account signed in; refused where another account has its Google
    /// identity.
    pub open spec fn upsert_account(
        self,
        id: Seq<char>,
        subject: Seq<char>,
        email: Seq<char>,
        label: Seq<char>,
        now: Seq<char>,
    ) -> std::result::Result<Tables, ErrorView> {
        if any(self.accounts, rival_account(id, subject)) {
            Err(unique_failure("accounts.google_sub"@))
        } else if self.has_account(id) {
            Ok(
                Tables {
                    accounts: revised(
                        self.accounts,
                        named_account(id),
                        signing_in(subject, email, label, now),
                    ),
                    ..self
                },
            )
        } else {
            Ok(
                Tables {
                    accounts: self.accounts.push(new_account(id, subject, email, label, now)),
                    ..self
                },
            )
        }
    }

    /// The cache after an account was removed, with all that belongs to it.
    pub open spec fn delete_account(self, id: Seq<char>) -> Tables {
        Tables {
            accounts: self.accounts.filter(other_account(id)),
            calendars: self.calendars.filter(foreign_calendar(id)),
            events: self.events.filter(foreign_event(id)),
            task_lists: self.task_lists.filter(foreign_task_list(id)),
            tasks: self.tasks.filter(foreign_task(id)),
        }
    }

    /// The cache after the outcome of a synchronization was noted.
    pub open spec fn set_sync_result(
        self,
        id: Seq<char>,
        code: Option<Seq<char>>,
        message: Option<Seq<char>>,
        now: Seq<char>,
    ) -> Tables {
        Tables {
            accounts: revised(self.accounts, named_account(id), syncing(code, message, now)),
            ..self
        }
    }

    /// The cache after Google reported all calendars of an account: those are written, and the
    /// others of the account go, with their events.
    pub open spec fn replace_calendars(
        self,
        id: Seq<char>,
        entries: Seq<CalendarEntryView>,
    ) -> std::result::Result<Tables, ErrorView> {
        if entries.len() > 0 && !self.has_account(id) {
            Err(reference_failure())
        } else {
            Ok(
                Tables {
                    calendars: put_calendars(self.calendars, id, entries).filter(
                        remaining_calendar(id, entry_ids(entries)),
                    ),
                    events: self.events.filter(remaining_event(id, entry_ids(entries))),
                    ..self
                },
            )
        }
    }

    /// The cache after Google reported events of a calendar: all of them (`replace`) or the
    /// changes.
    pub open spec fn apply_events(
        self,
        account_id: Seq<char>,
        calendar_id: Seq<char>,
        reported: Seq<JsonView>,
        token: Seq<char>,
        replace: bool,
        now: Seq<char>,
    ) -> std::result::Result<Tables, ErrorView> {
        let before = if replace {
            self.events.filter(outside_calendar(account_id, calendar_id))
        } else {
            self.events
        };
        match event_steps(
            before,
            self.has_calendar(account_id, calendar_id),
            account_id,
            calendar_id,
            reported,
        ) {
            Err(error) => Err(error),
            Ok(events) => Ok(
                Tables {
                    events,
                    calendars: revised(
                        self.calendars,
                        calendar_at(account_id, calendar_id),
                        syncing_events(token, replace, now),
                    ),
                    ..self
                },
            ),
        }
    }

    /// The cache after a calendar lost its events and its synchronization token.
    pub open spec fn clear_calendar_sync(
        self,
        account_id: Seq<char>,
        calendar_id: Seq<char>,
    ) -> Tables {
        Tables {
            events: self.events.filter(outside_calendar(account_id, calendar_id)),
            calendars: revised(self.calendars, calendar_at(account_id, calendar_id), forgetting()),
            ..self
        }
    }

    /// The cache after Google reported all task lists of an account, and their tasks.
    pub open spec fn replace_tasks(
        self,
        id: Seq<char>,
        entries: Seq<TaskListEntryView>,
        tasks: TasksByList,
    ) -> std::result::Result<Tables, ErrorView> {
        match task_list_steps(
            (self.task_lists.filter(foreign_task_list(id)), self.tasks.filter(foreign_task(id))),
            self.has_account(id),
            id,
            entries,
            tasks,
        ) {
            Err(error) => Err(error),
            Ok(state) => Ok(Tables { task_lists: state.0, tasks: state.1, ..self }),
        }
    }
}

} // verus!
