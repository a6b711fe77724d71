//! What Google reports of an account: who signed in, its calendars and its task lists.
use vstd::prelude::*;

use crate::json::{Json, JsonView};
use crate::text::optional_view;

verus! {

/// A sign-in that Google completed.
#[derive(Debug, Eq, PartialEq)]
pub struct AuthResult {
    pub refresh_token: String,
    pub access_token: String,
    pub subject: String,
    pub email: String,
}

/// What a sign-in holds.
pub struct AuthView {
    pub refresh_token: Seq<char>,
    pub access_token: Seq<char>,
    pub subject: Seq<char>,
    pub email: Seq<char>,
}

impl View for AuthResult {
    type V = AuthView;

    open spec fn view(&self) -> AuthView {
        AuthView {
            refresh_token: self.refresh_token@,
            access_token: self.access_token@,
            subject: self.subject@,
            email: self.email@,
        }
    }
}

impl Clone for AuthResult {
    fn clone(&self) -> (copy: AuthResult)
        ensures
            copy@ == self@,
    {
        AuthResult {
            refresh_token: self.refresh_token.clone(),
            access_token: self.access_token.clone(),
            subject: self.subject.clone(),
            email: self.email.clone(),
        }
    }
}

/// A calendar of an account.
#[derive(Debug, Eq, PartialEq)]
pub struct CalendarEntry {
    pub id: String,
    pub label: String,
    pub color: String,
    pub selected: bool,
    pub primary: bool,
    pub default_reminders: Json,
}

/// What a calendar entry holds.
pub struct CalendarEntryView {
    pub id: Seq<char>,
    pub label: Seq<char>,
    pub color: Seq<char>,
    pub selected: bool,
    pub primary: bool,
    pub default_reminders: JsonView,
}

impl View for CalendarEntry {
    type V = CalendarEntryView;

    open spec fn view(&self) -> CalendarEntryView {
        CalendarEntryView {
            id: self.id@,
            label: self.label@,
            color: self.color@,
            selected: self.selected,
            primary: self.primary,
            default_reminders: self.default_reminders@,
        }
    }
}

impl Clone for CalendarEntry {
    fn clone(&self) -> (copy: CalendarEntry)
        ensures
            copy@ == self@,
    {
        CalendarEntry {
            id: self.id.clone(),
            label: self.label.clone(),
            color: self.color.clone(),
            selected: self.selected,
            primary: self.primary,
            default_reminders: self.default_reminders.clone(),
        }
    }
}

/// The views of a list of calendar entries.
pub open spec fn calendar_entries(list: Seq<CalendarEntry>) -> Seq<CalendarEntryView> {
    list.map_values(|entry: CalendarEntry| entry@)
}

/// A task list of an account.
#[derive(Debug, Eq, PartialEq)]
pub struct TaskListEntry {
    pub id: String,
    pub label: String,
    pub updated: Option<String>,
}

/// What a task-list entry holds.
pub struct TaskListEntryView {
    pub id: Seq<char>,
    pub label: Seq<char>,
    pub updated: Option<Seq<char>>,
}

impl View for TaskListEntry {
    type V = TaskListEntryView;

    open spec fn view(&self) -> TaskListEntryView {
        TaskListEntryView {
            id: self.id@,
            label: self.label@,
            updated: optional_view(self.updated),
        }
    }
}

impl Clone for TaskListEntry {
    fn clone(&self) -> (copy: TaskListEntry)
        ensures
            copy@ == self@,
    {
        TaskListEntry {
            id: self.id.clone(),
            label: self.label.clone(),
            updated: self.updated.clone(),
        }
    }
}

/// The views of a list of task-list entries.
pub open spec fn task_list_entries(list: Seq<TaskListEntry>) -> Seq<TaskListEntryView> {
    list.map_values(|entry: TaskListEntry| entry@)
}

} // verus!
