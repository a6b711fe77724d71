//! The rows of the cache.
use vstd::prelude::*;

use crate::json::{Json, JsonView};
use crate::text::optional_view;

verus! {

/// An account as it is read from the cache.
#[derive(Debug, PartialEq, Eq)]
pub struct AccountRow {
    pub account_id: String,
    pub google_sub: String,
    pub email: String,
    pub label: String,
    pub enabled: bool,
    pub last_sync: Option<String>,
    pub error_code: Option<String>,
    pub error: Option<String>,
}

/// What an account row holds.
pub struct AccountView {
    pub account_id: Seq<char>,
    pub google_sub: Seq<char>,
    pub email: Seq<char>,
    pub label: Seq<char>,
    pub enabled: bool,
    pub last_sync: Option<Seq<char>>,
    pub error_code: Option<Seq<char>>,
    pub error: Option<Seq<char>>,
}

impl View for AccountRow {
    type V = AccountView;

    open spec fn view(&self) -> AccountView {
        AccountView {
            account_id: self.account_id@,
            google_sub: self.google_sub@,
            email: self.email@,
            label: self.label@,
            enabled: self.enabled,
            last_sync: optional_view(self.last_sync),
            error_code: optional_view(self.error_code),
            error: optional_view(self.error),
        }
    }
}

impl Clone for AccountRow {
    fn clone(&self) -> (copy: AccountRow)
        ensures
            copy@ == self@,
    {
        AccountRow {
            account_id: self.account_id.clone(),
            google_sub: self.google_sub.clone(),
            email: self.email.clone(),
            label: self.label.clone(),
            enabled: self.enabled,
            last_sync: self.last_sync.clone(),
            error_code: self.error_code.clone(),
            error: self.error.clone(),
        }
    }
}

/// An account with the times at which it was created and last changed.
#[derive(Debug, PartialEq, Eq)]
pub struct StoredAccount {
    pub row: AccountRow,
    pub created_at: String,
    pub updated_at: String,
}

/// What a stored account holds.
pub struct StoredAccountView {
    pub row: AccountView,
    pub created_at: Seq<char>,
    pub updated_at: Seq<char>,
}

impl View for StoredAccount {
    type V = StoredAccountView;

    open spec fn view(&self) -> StoredAccountView {
        StoredAccountView {
            row: self.row@,
            created_at: self.created_at@,
            updated_at: self.updated_at@,
        }
    }
}

impl Clone for StoredAccount {
    fn clone(&self) -> (copy: StoredAccount)
        ensures
            copy@ == self@,
    {
        StoredAccount {
            row: self.row.clone(),
            created_at: self.created_at.clone(),
            updated_at: self.updated_at.clone(),
        }
    }
}

/// Where the synchronization of a calendar stands.
#[derive(Debug, PartialEq, Eq)]
pub struct CalendarRow {
    pub calendar_id: String,
    pub sync_token: Option<String>,
    pub full_sync_at: Option<String>,
}

/// What a calendar row holds.
pub struct CalendarRowView {
    pub calendar_id: Seq<char>,
    pub sync_token: Option<Seq<char>>,
    pub full_sync_at: Option<Seq<char>>,
}

impl View for CalendarRow {
    type V = CalendarRowView;

    open spec fn view(&self) -> CalendarRowView {
        CalendarRowView {
            calendar_id: self.calendar_id@,
            sync_token: optional_view(self.sync_token),
            full_sync_at: optional_view(self.full_sync_at),
        }
    }
}

impl Clone for CalendarRow {
    fn clone(&self) -> (copy: CalendarRow)
        ensures
            copy@ == self@,
    {
        CalendarRow {
            calendar_id: self.calendar_id.clone(),
            sync_token: self.sync_token.clone(),
            full_sync_at: self.full_sync_at.clone(),
        }
    }
}

/// A calendar of an account.
#[derive(Debug, PartialEq, Eq)]
pub struct StoredCalendar {
    pub account_id: String,
    pub calendar_id: String,
    pub label: String,
    pub color: String,
    pub selected: bool,
    pub primary: bool,
    pub default_reminders: String,
    pub sync_token: Option<String>,
    pub full_sync_at: Option<String>,
}

/// What a stored calendar holds.
pub struct StoredCalendarView {
    pub account_id: Seq<char>,
    pub calendar_id: Seq<char>,
    pub label: Seq<char>,
    pub color: Seq<char>,
    pub selected: bool,
    pub primary: bool,
    pub default_reminders: Seq<char>,
    pub sync_token: Option<Seq<char>>,
    pub full_sync_at: Option<Seq<char>>,
}

impl View for StoredCalendar {
    type V = StoredCalendarView;

    open spec fn view(&self) -> StoredCalendarView {
        StoredCalendarView {
            account_id: self.account_id@,
            calendar_id: self.calendar_id@,
            label: self.label@,
            color: self.color@,
            selected: self.selected,
            primary: self.primary,
            default_reminders: self.default_reminders@,
            sync_token: optional_view(self.sync_token),
            full_sync_at: optional_view(self.full_sync_at),
        }
    }
}

impl Clone for StoredCalendar {
    fn clone(&self) -> (copy: StoredCalendar)
        ensures
            copy@ == self@,
    {
        StoredCalendar {
            account_id: self.account_id.clone(),
            calendar_id: self.calendar_id.clone(),
            label: self.label.clone(),
            color: self.color.clone(),
            selected: self.selected,
            primary: self.primary,
            default_reminders: self.default_reminders.clone(),
            sync_token: self.sync_token.clone(),
            full_sync_at: self.full_sync_at.clone(),
        }
    }
}

/// An event of a calendar.
#[derive(Debug, PartialEq, Eq)]
pub struct StoredEvent {
    pub item_id: String,
    pub account_id: String,
    pub calendar_id: String,
    pub event_id: String,
    pub ical_uid: Option<String>,
    pub occurrence_start: Option<String>,
    pub title: String,
    pub start: String,
    pub end: String,
    pub all_day: bool,
    pub location: String,
    pub url: String,
    pub reminders: String,
    pub updated: Option<String>,
}

/// What a stored event holds.
pub struct StoredEventView {
    pub item_id: Seq<char>,
    pub account_id: Seq<char>,
    pub calendar_id: Seq<char>,
    pub event_id: Seq<char>,
    pub ical_uid: Option<Seq<char>>,
    pub occurrence_start: Option<Seq<char>>,
    pub title: Seq<char>,
    pub start: Seq<char>,
    pub end: Seq<char>,
    pub all_day: bool,
    pub location: Seq<char>,
    pub url: Seq<char>,
    pub reminders: Seq<char>,
    pub updated: Option<Seq<char>>,
}

impl View for StoredEvent {
    type V = StoredEventView;

    open spec fn view(&self) -> StoredEventView {
        StoredEventView {
            item_id: self.item_id@,
            account_id: self.account_id@,
            calendar_id: self.calendar_id@,
            event_id: self.event_id@,
            ical_uid: optional_view(self.ical_uid),
            occurrence_start: optional_view(self.occurrence_start),
            title: self.title@,
            start: self.start@,
            end: self.end@,
            all_day: self.all_day,
            location: self.location@,
            url: self.url@,
            reminders: self.reminders@,
            updated: optional_view(self.updated),
        }
    }
}

impl Clone for StoredEvent {
    fn clone(&self) -> (copy: StoredEvent)
        ensures
            copy@ == self@,
    {
        StoredEvent {
            item_id: self.item_id.clone(),
            account_id: self.account_id.clone(),
            calendar_id: self.calendar_id.clone(),
            event_id: self.event_id.clone(),
            ical_uid: self.ical_uid.clone(),
            occurrence_start: self.occurrence_start.clone(),
            title: self.title.clone(),
            start: self.start.clone(),
            end: self.end.clone(),
            all_day: self.all_day,
            location: self.location.clone(),
            url: self.url.clone(),
            reminders: self.reminders.clone(),
            updated: self.updated.clone(),
        }
    }
}

/// A task list of an account.
#[derive(Debug, PartialEq, Eq)]
pub struct StoredTaskList {
    pub account_id: String,
    pub task_list_id: String,
    pub label: String,
    pub updated: Option<String>,
}

/// What a stored task list holds.
pub struct StoredTaskListView {
    pub account_id: Seq<char>,
    pub task_list_id: Seq<char>,
    pub label: Seq<char>,
    pub updated: Option<Seq<char>>,
}

impl View for StoredTaskList {
    type V = StoredTaskListView;

    open spec fn view(&self) -> StoredTaskListView {
        StoredTaskListView {
            account_id: self.account_id@,
            task_list_id: self.task_list_id@,
            label: self.label@,
            updated: optional_view(self.updated),
        }
    }
}

impl Clone for StoredTaskList {
    fn clone(&self) -> (copy: StoredTaskList)
        ensures
            copy@ == self@,
    {
        StoredTaskList {
            account_id: self.account_id.clone(),
            task_list_id: self.task_list_id.clone(),
            label: self.label.clone(),
            updated: self.updated.clone(),
        }
    }
}

/// A task of a task list.
#[derive(Debug, PartialEq, Eq)]
pub struct StoredTask {
    pub item_id: String,
    pub account_id: String,
    pub task_list_id: String,
    pub task_id: String,
    pub title: String,
    pub due_date: Option<String>,
    pub status: String,
    pub url: String,
    pub notes: String,
    pub updated: Option<String>,
}

/// What a stored task holds.
pub struct StoredTaskView {
    pub item_id: Seq<char>,
    pub account_id: Seq<char>,
    pub task_list_id: Seq<char>,
    pub task_id: Seq<char>,
    pub title: Seq<char>,
    pub due_date: Option<Seq<char>>,
    pub status: Seq<char>,
    pub url: Seq<char>,
    pub notes: Seq<char>,
    pub updated: Option<Seq<char>>,
}

impl View for StoredTask {
    type V = StoredTaskView;

    open spec fn view(&self) -> StoredTaskView {
        StoredTaskView {
            item_id: self.item_id@,
            account_id: self.account_id@,
            task_list_id: self.task_list_id@,
            task_id: self.task_id@,
            title: self.title@,
            due_date: optional_view(self.due_date),
            status: self.status@,
            url: self.url@,
            notes: self.notes@,
            updated: optional_view(self.updated),
        }
    }
}

impl Clone for StoredTask {
    fn clone(&self) -> (copy: StoredTask)
        ensures
            copy@ == self@,
    {
        StoredTask {
            item_id: self.item_id.clone(),
            account_id: self.account_id.clone(),
            task_list_id: self.task_list_id.clone(),
            task_id: self.task_id.clone(),
            title: self.title.clone(),
            due_date: self.due_date.clone(),
            status: self.status.clone(),
            url: self.url.clone(),
            notes: self.notes.clone(),
            updated: self.updated.clone(),
        }
    }
}

} // verus!
