//! The cache of accounts, calendars, events and tasks.
use vstd::prelude::*;

use crate::entries::{
    calendar_entries, task_list_entries, CalendarEntry, TaskListEntry, TaskListEntryView,
};
use crate::error::{CalendarError, ErrorView, Result};
use crate::integrity::{
    apply_events_keeps, clear_calendar_sync_keeps, delete_account_keeps, replace_calendars_keeps,
    replace_tasks_keeps, set_sync_result_keeps, upsert_account_keeps,
};
use crate::json::{array_view, Json, JsonView};
use crate::normalize::{normalize_event, normalize_task, string_field};
use crate::records::{
    AccountRow, StoredAccount, StoredCalendar, StoredEvent, StoredEventView, StoredTask,
    StoredTaskList, StoredTaskView,
};
use crate::table::{any, first, first_at, first_none, position, retain, revise, rows};
use crate::tables::{
    calendar_at, entry_ids, event_at, event_step, event_steps, foreign_calendar, foreign_event,
    foreign_task, foreign_task_list, forgetting, list_named, named_account, naming_refusal,
    new_calendar, new_task_list, other_account, other_event, outside_calendar, put_calendar,
    put_calendars, put_event, reference_failure, refused_before, remaining_calendar,
    remaining_event, replacing, reporting, rival_account, rival_event, same_item, same_task,
    signing_in, syncing, syncing_events, task_list_at, task_list_steps, task_steps, tasks_of,
    unique_failure, with_subject, ListsAndTasks, Tables, TasksByList,
};
use crate::text::{borrowed_view, owned, text_eq, texts};

verus! {

/// The permissions of the file that keeps the cache: its owner reads and writes it, nobody else.
pub const CACHE_FILE_MODE: u32 = 0o600;

/// The permissions of the directory of that file: its owner only.
pub const CACHE_DIRECTORY_MODE: u32 = 0o700;

broadcast use crate::json::group_json;

/// The cache, and where it is kept.
#[derive(Debug)]
pub struct Database {
    path: String,
    accounts: Vec<StoredAccount>,
    calendars: Vec<StoredCalendar>,
    events: Vec<StoredEvent>,
    task_lists: Vec<StoredTaskList>,
    tasks: Vec<StoredTask>,
}

impl View for Database {
    type V = Tables;

    closed spec fn view(&self) -> Tables {
        Tables {
            accounts: rows(self.accounts@),
            calendars: rows(self.calendars@),
            events: rows(self.events@),
            task_lists: rows(self.task_lists@),
            tasks: rows(self.tasks@),
        }
    }
}

/// The tasks that Google reports, by task list.
pub open spec fn tasks_by_list(list: Seq<(String, Vec<Json>)>) -> TasksByList {
    list.map_values(|entry: (String, Vec<Json>)| (entry.0@, array_view(entry.1@)))
}

fn missing_reference() -> (error: CalendarError)
    ensures
        error@ == reference_failure(),
{
    CalendarError::new("database_error", "Calendar database error: FOREIGN KEY constraint failed")
}

fn duplicate(columns: &str) -> (error: CalendarError)
    ensures
        error@ == unique_failure(columns@),
{
    CalendarError::new(
        "database_error",
        "Calendar database error: UNIQUE constraint failed: ".to_owned().concat(columns).as_str(),
    )
}

/// Whether a list of texts holds one.
pub fn holds(list: &Vec<String>, text: &str) -> (result: bool)
    ensures
        result == texts(list@).contains(text@),
{
    for i in 0..list.len()
        invariant
            forall|j: int| 0 <= j < i ==> (#[trigger] list@[j])@ != text@,
    {
        if text_eq(list[i].as_str(), text) {
            assert(texts(list@)[i as int] == text@);
            return true;
        }
    }
    proof {
        if texts(list@).contains(text@) {
            let j = choose|j: int| 0 <= j < texts(list@).len() && texts(list@)[j] == text@;
            assert(list@[j]@ == text@);
        }
    }
    false
}

/// Writes a calendar that Google reports.
fn store_calendar(calendars: &mut Vec<StoredCalendar>, account_id: &str, entry: &CalendarEntry)
    ensures
        rows(final(calendars)@) == put_calendar(rows(old(calendars)@), account_id@, entry@),
{
    let id: &str = entry.id.as_str();
    let test = |calendar: &StoredCalendar| -> (answer: bool)
        ensures
            answer == calendar_at(account_id@, entry@.id)(calendar@)
        {
            text_eq(calendar.account_id.as_str(), account_id) && text_eq(
                calendar.calendar_id.as_str(),
                id,
            )
        };
    if position(calendars, test, Ghost(calendar_at(account_id@, entry@.id))).is_none() {
        let ghost before = rows(calendars@);
        let calendar = StoredCalendar {
            account_id: account_id.to_owned(),
            calendar_id: entry.id.clone(),
            label: entry.label.clone(),
            color: entry.color.clone(),
            selected: entry.selected,
            primary: entry.primary,
            default_reminders: entry.default_reminders.to_line(),
            sync_token: None,
            full_sync_at: None,
        };
        calendars.push(calendar);
        assert(rows(calendars@) =~= before.push(new_calendar(account_id@, entry@)));
        return;
    }
    let change = |calendar: &StoredCalendar| -> (changed: StoredCalendar)
        ensures
            changed@ == reporting(entry@)(calendar@)
        {
            let mut copy: StoredCalendar = calendar.clone();
            copy.label = entry.label.clone();
            copy.color = entry.color.clone();
            copy.selected = entry.selected;
            copy.primary = entry.primary;
            copy.default_reminders = entry.default_reminders.to_line();
            copy
        };
    let again = |calendar: &StoredCalendar| -> (answer: bool)
        ensures
            answer == calendar_at(account_id@, entry@.id)(calendar@)
        {
            text_eq(calendar.account_id.as_str(), account_id) && text_eq(
                calendar.calendar_id.as_str(),
                id,
            )
        };
    revise(
        calendars,
        again,
        change,
        Ghost(calendar_at(account_id@, entry@.id)),
        Ghost(reporting(entry@)),
    );
}

/// Writes an event.
fn store_event(events: &mut Vec<StoredEvent>, row: StoredEvent)
    ensures
        rows(final(events)@) == put_event(rows(old(events)@), row@),
{
    let ghost before = rows(events@);
    let ghost property = event_at(row@.account_id, row@.calendar_id, row@.event_id);
    let test = |event: &StoredEvent| -> (answer: bool)
        ensures
            answer == event_at(row@.account_id, row@.calendar_id, row@.event_id)(event@)
        {
            text_eq(event.account_id.as_str(), row.account_id.as_str()) && text_eq(
                event.calendar_id.as_str(),
                row.calendar_id.as_str(),
            ) && text_eq(event.event_id.as_str(), row.event_id.as_str())
        };
    if position(events, test, Ghost(property)).is_none() {
        events.push(row);
        assert(rows(events@) =~= before.push(row@));
        return;
    }
    let again = |event: &StoredEvent| -> (answer: bool)
        ensures
            answer == event_at(row@.account_id, row@.calendar_id, row@.event_id)(event@)
        {
            text_eq(event.account_id.as_str(), row.account_id.as_str()) && text_eq(
                event.calendar_id.as_str(),
                row.calendar_id.as_str(),
            ) && text_eq(event.event_id.as_str(), row.event_id.as_str())
        };
    let change = |event: &StoredEvent| -> (changed: StoredEvent)
        ensures
            changed@ == replacing(row@)(event@)
        {
            row.clone()
        };
    revise(events, again, change, Ghost(property), Ghost(replacing(row@)));
}

/// Takes in one event that Google reports for a calendar.
fn take_event(
    events: &mut Vec<StoredEvent>,
    calendar_known: bool,
    account_id: &str,
    calendar_id: &str,
    event: &Json,
) -> (result: Result<()>)
    ensures
        match result {
            Ok(_) => event_step(
                rows(old(events)@),
                calendar_known,
                account_id@,
                calendar_id@,
                event@,
            ) == Ok::<_, ErrorView>(rows(final(events)@)),
            Err(error) => event_step(
                rows(old(events)@),
                calendar_known,
                account_id@,
                calendar_id@,
                event@,
            ) == Err::<Seq<StoredEventView>, _>(error@),
        },
{
    let event_id: String = string_field(event, "id", "");
    if event_id.as_str().is_empty() {
        return Ok(());
    }
    let cancelled: bool = match event.get_text("status") {
        Some(status) => text_eq(status, "cancelled"),
        None => false,
    };
    if cancelled {
        let id: &str = event_id.as_str();
        let test = |row: &StoredEvent| -> (answer: bool)
            ensures
                answer == other_event(account_id@, calendar_id@, event_id@)(row@)
            {
                !(text_eq(row.account_id.as_str(), account_id) && text_eq(
                    row.calendar_id.as_str(),
                    calendar_id,
                ) && text_eq(row.event_id.as_str(), id))
            };
        retain(events, test, Ghost(other_event(account_id@, calendar_id@, event_id@)));
        return Ok(());
    }
    match normalize_event(account_id, calendar_id, event) {
        None => Ok(()),
        Some(row) => {
            let test = |other: &StoredEvent| -> (answer: bool)
                ensures
                    answer == rival_event(row@)(other@)
                {
                    text_eq(other.item_id.as_str(), row.item_id.as_str()) && !(text_eq(
                        other.account_id.as_str(),
                        row.account_id.as_str(),
                    ) && text_eq(other.calendar_id.as_str(), row.calendar_id.as_str()) && text_eq(
                        other.event_id.as_str(),
                        row.event_id.as_str(),
                    ))
                };
            if position(events, test, Ghost(rival_event(row@))).is_some() {
                return Err(duplicate("events.item_id"));
            }
            if !calendar_known {
                return Err(missing_reference());
            }
            store_event(events, row);
            Ok(())
        },
    }
}

/// Takes in the tasks that Google reports for a list.
fn take_tasks(
    tasks: &mut Vec<StoredTask>,
    account_id: &str,
    task_list_id: &str,
    reported: &Vec<Json>,
) -> (result: Result<()>)
    ensures
        match result {
            Ok(_) => task_steps(
                rows(old(tasks)@),
                account_id@,
                task_list_id@,
                array_view(reported@),
            ) == Ok::<_, ErrorView>(rows(final(tasks)@)),
            Err(error) => task_steps(
                rows(old(tasks)@),
                account_id@,
                task_list_id@,
                array_view(reported@),
            ) == Err::<Seq<StoredTaskView>, _>(error@),
        },
{
    let ghost before = rows(tasks@);
    let ghost all = array_view(reported@);
    let mut i: usize = 0;
    assert(all.take(0) =~= Seq::<JsonView>::empty());
    while i < reported.len()
        invariant
            i <= reported@.len(),
            all == array_view(reported@),
            all.len() == reported@.len(),
            before == rows(old(tasks)@),
            task_steps(before, account_id@, task_list_id@, all.take(i as int)) == Ok::<_, ErrorView>(
                rows(tasks@),
            ),
        decreases reported@.len() - i,
    {
        assert(all.take(i + 1).drop_last() =~= all.take(i as int));
        assert(all.take(i + 1).last() == reported@[i as int]@);
        let ghost now = rows(tasks@);
        if let Some(row) = normalize_task(account_id, task_list_id, &reported[i]) {
            let same = |task: &StoredTask| -> (answer: bool)
                ensures
                    answer == same_task(row@)(task@)
                {
                    text_eq(task.account_id.as_str(), row.account_id.as_str()) && text_eq(
                        task.task_list_id.as_str(),
                        row.task_list_id.as_str(),
                    ) && text_eq(task.task_id.as_str(), row.task_id.as_str())
                };
            let shown = |task: &StoredTask| -> (answer: bool)
                ensures
                    answer == same_item(row@)(task@)
                {
                    text_eq(task.item_id.as_str(), row.item_id.as_str())
                };
            if position(tasks, same, Ghost(same_task(row@))).is_some() {
                let error = duplicate("tasks.account_id, tasks.task_list_id, tasks.task_id");
                proof {
                    assert(task_steps(before, account_id@, task_list_id@, all.take(i + 1)) == Err::<
                        Seq<StoredTaskView>,
                        _,
                    >(error@));
                    later_tasks_fail(before, account_id@, task_list_id@, all, i as int + 1);
                }
                return Err(error);
            }
            if position(tasks, shown, Ghost(same_item(row@))).is_some() {
                let error = duplicate("tasks.item_id");
                proof {
                    assert(task_steps(before, account_id@, task_list_id@, all.take(i + 1)) == Err::<
                        Seq<StoredTaskView>,
                        _,
                    >(error@));
                    later_tasks_fail(before, account_id@, task_list_id@, all, i as int + 1);
                }
                return Err(error);
            }
            tasks.push(row);
            assert(rows(tasks@) =~= now.push(row@));
        }
        i = i + 1;
    }
    assert(all.take(i as int) =~= all);
    Ok(())
}

/// Takes in the tasks that Google reports for one of the lists.
fn take_list(
    stored: &mut Vec<StoredTask>,
    account_id: &str,
    task_list_id: &str,
    tasks: &Vec<(String, Vec<Json>)>,
) -> (result: Result<()>)
    ensures
        match result {
            Ok(_) => task_steps(
                rows(old(stored)@),
                account_id@,
                task_list_id@,
                tasks_of(tasks_by_list(tasks@), task_list_id@),
            ) == Ok::<_, ErrorView>(rows(final(stored)@)),
            Err(error) => task_steps(
                rows(old(stored)@),
                account_id@,
                task_list_id@,
                tasks_of(tasks_by_list(tasks@), task_list_id@),
            ) == Err::<Seq<StoredTaskView>, _>(error@),
        },
{
    let ghost reported = tasks_by_list(tasks@);
    let ghost property = list_named(task_list_id@);
    for i in 0..tasks.len()
        invariant
            *stored == *old(stored),
            reported == tasks_by_list(tasks@),
            property == list_named(task_list_id@),
            forall|j: int| 0 <= j < i ==> !property(#[trigger] reported[j]),
    {
        if text_eq(tasks[i].0.as_str(), task_list_id) {
            proof {
                first_at(reported, property, i as int);
            }
            return take_tasks(stored, account_id, task_list_id, &tasks[i].1);
        }
    }
    proof {
        first_none(reported, property);
    }
    Ok(())
}

/// What Google reports after a refused task does not matter.
proof fn later_tasks_fail(
    tasks: Seq<StoredTaskView>,
    account_id: Seq<char>,
    task_list_id: Seq<char>,
    reported: Seq<JsonView>,
    upto: int,
)
    requires
        0 <= upto <= reported.len(),
        task_steps(tasks, account_id, task_list_id, reported.take(upto)) is Err,
    ensures
        task_steps(tasks, account_id, task_list_id, reported) == task_steps(
            tasks,
            account_id,
            task_list_id,
            reported.take(upto),
        ),
    decreases reported.len(),
{
    if upto == reported.len() {
        assert(reported.take(upto) =~= reported);
    } else {
        let front = reported.drop_last();
        assert(front.take(upto) =~= reported.take(upto));
        later_tasks_fail(tasks, account_id, task_list_id, front, upto);
    }
}

/// What Google reports after a refused event does not matter.
proof fn later_events_fail(
    events: Seq<StoredEventView>,
    calendar_known: bool,
    account_id: Seq<char>,
    calendar_id: Seq<char>,
    reported: Seq<JsonView>,
    upto: int,
)
    requires
        0 <= upto <= reported.len(),
        event_steps(events, calendar_known, account_id, calendar_id, reported.take(upto)) is Err,
    ensures
        event_steps(events, calendar_known, account_id, calendar_id, reported) == event_steps(
            events,
            calendar_known,
            account_id,
            calendar_id,
            reported.take(upto),
        ),
    decreases reported.len(),
{
    if upto == reported.len() {
        assert(reported.take(upto) =~= reported);
    } else {
        let front = reported.drop_last();
        assert(front.take(upto) =~= reported.take(upto));
        later_events_fail(events, calendar_known, account_id, calendar_id, front, upto);
    }
}

/// What Google reports after a refused task list does not matter.
proof fn later_lists_fail(
    state: ListsAndTasks,
    account_known: bool,
    id: Seq<char>,
    entries: Seq<TaskListEntryView>,
    tasks: TasksByList,
    upto: int,
)
    requires
        0 <= upto <= entries.len(),
        task_list_steps(state, account_known, id, entries.take(upto), tasks) is Err,
    ensures
        task_list_steps(state, account_known, id, entries, tasks) == task_list_steps(
            state,
            account_known,
            id,
            entries.take(upto),
            tasks,
        ),
    decreases entries.len(),
{
    if upto == entries.len() {
        assert(entries.take(upto) =~= entries);
    } else {
        let front = entries.drop_last();
        assert(front.take(upto) =~= entries.take(upto));
        later_lists_fail(state, account_known, id, front, tasks, upto);
    }
}

impl Database {
    /// Where the cache is kept.
    pub closed spec fn path_view(&self) -> Seq<char> {
        self.path@
    }

    /// An empty cache.
    pub fn new(path: &str) -> (database: Database)
        ensures
            database@ == Tables::empty(),
            database.path_view() == path@,
    {
        let database = Database {
            path: path.to_owned(),
            accounts: Vec::new(),
            calendars: Vec::new(),
            events: Vec::new(),
            task_lists: Vec::new(),
            tasks: Vec::new(),
        };
        assert(database@ =~= Tables::empty());
        database
    }

    /// A cache with rows that were kept. An account that was kept when errors had no codes yet, and
    /// that Google had refused, gets the code of that error.
    pub fn restore(
        path: &str,
        accounts: Vec<StoredAccount>,
        calendars: Vec<StoredCalendar>,
        events: Vec<StoredEvent>,
        task_lists: Vec<StoredTaskList>,
        tasks: Vec<StoredTask>,
    ) -> (database: Database)
        ensures
            database.path_view() == path@,
            database@ == (Tables {
                accounts: rows(accounts@),
                calendars: rows(calendars@),
                events: rows(events@),
                task_lists: rows(task_lists@),
                tasks: rows(tasks@),
            }).migrated(),
    {
        let mut accounts: Vec<StoredAccount> = accounts;
        let test = |account: &StoredAccount| -> (answer: bool)
            ensures
                answer == refused_before()(account@)
            {
                account.row.error_code.is_none() && match &account.row.error {
                    Some(error) => text_eq(error.as_str(), "invalid_grant"),
                    None => false,
                }
            };
        let change = |account: &StoredAccount| -> (changed: StoredAccount)
            ensures
                changed@ == naming_refusal()(account@)
            {
                let mut copy: StoredAccount = account.clone();
                copy.row.error_code = Some("credentials_expired".to_owned());
                copy.row.error = Some("Google access expired. Sign in again.".to_owned());
                copy
            };
        revise(&mut accounts, test, change, Ghost(refused_before()), Ghost(naming_refusal()));
        Database { path: path.to_owned(), accounts, calendars, events, task_lists, tasks }
    }

    /// Where the cache is kept.
    pub fn path(&self) -> (path: &String)
        ensures
            path@ == self.path_view(),
    {
        &self.path
    }

    /// All accounts.
    pub fn stored_accounts(&self) -> (list: &Vec<StoredAccount>)
        ensures
            rows(list@) == self@.accounts,
    {
        &self.accounts
    }

    /// All calendars.
    pub fn stored_calendars(&self) -> (list: &Vec<StoredCalendar>)
        ensures
            rows(list@) == self@.calendars,
    {
        &self.calendars
    }

    /// All events.
    pub fn stored_events(&self) -> (list: &Vec<StoredEvent>)
        ensures
            rows(list@) == self@.events,
    {
        &self.events
    }

    /// All task lists.
    pub fn stored_task_lists(&self) -> (list: &Vec<StoredTaskList>)
        ensures
            rows(list@) == self@.task_lists,
    {
        &self.task_lists
    }

    /// All tasks.
    pub fn stored_tasks(&self) -> (list: &Vec<StoredTask>)
        ensures
            rows(list@) == self@.tasks,
    {
        &self.tasks
    }

    fn account_position(&self, account_id: &str) -> (at: Option<usize>)
        ensures
            match at {
                Some(i) => i < self.accounts@.len() && first(
                    self@.accounts,
                    named_account(account_id@),
                ) == Some(self.accounts@[i as int]@) && self@.has_account(account_id@),
                None => first(self@.accounts, named_account(account_id@)) is None
                    && !self@.has_account(account_id@),
            },
    {
        let test = |account: &StoredAccount| -> (answer: bool)
            ensures
                answer == named_account(account_id@)(account@)
            {
                text_eq(account.row.account_id.as_str(), account_id)
            };
        position(&self.accounts, test, Ghost(named_account(account_id@)))
    }

    fn calendar_position(&self, account_id: &str, calendar_id: &str) -> (at: Option<usize>)
        ensures
            match at {
                Some(i) => i < self.calendars@.len() && first(
                    self@.calendars,
                    calendar_at(account_id@, calendar_id@),
                ) == Some(self.calendars@[i as int]@) && self@.has_calendar(
                    account_id@,
                    calendar_id@,
                ),
                None => first(self@.calendars, calendar_at(account_id@, calendar_id@)) is None
                    && !self@.has_calendar(account_id@, calendar_id@),
            },
    {
        let test = |calendar: &StoredCalendar| -> (answer: bool)
            ensures
                answer == calendar_at(account_id@, calendar_id@)(calendar@)
            {
                text_eq(calendar.account_id.as_str(), account_id) && text_eq(
                    calendar.calendar_id.as_str(),
                    calendar_id,
                )
            };
        position(&self.calendars, test, Ghost(calendar_at(account_id@, calendar_id@)))
    }

    /// The account with an identity.
    pub fn account(&self, account_id: &str) -> (account: Option<AccountRow>)
        ensures
            match account {
                Some(row) => first(self@.accounts, named_account(account_id@)) matches Some(found)
                    && row@ == found.row,
                None => !self@.has_account(account_id@),
            },
    {
        match self.account_position(account_id) {
            Some(i) => Some(self.accounts[i].row.clone()),
            None => None,
        }
    }

    /// The account with a Google identity.
    pub fn account_by_sub(&self, google_sub: &str) -> (account: Option<AccountRow>)
        ensures
            match account {
                Some(row) => first(self@.accounts, with_subject(google_sub@)) matches Some(found)
                    && row@ == found.row,
                None => !any(self@.accounts, with_subject(google_sub@)),
            },
    {
        let test = |account: &StoredAccount| -> (answer: bool)
            ensures
                answer == with_subject(google_sub@)(account@)
            {
                text_eq(account.row.google_sub.as_str(), google_sub)
            };
        let at: Option<usize> = position(&self.accounts, test, Ghost(with_subject(google_sub@)));
        match at {
            Some(i) => Some(self.accounts[i].row.clone()),
            None => None,
        }
    }

    /// Notes that an account signed in. Refused where another account has its Google identity.
    pub fn upsert_account(
        &mut self,
        account_id: &str,
        google_sub: &str,
        email: &str,
        label: &str,
        now: &str,
    ) -> (result: Result<()>)
        ensures
            old(self)@.wf() ==> final(self)@.wf(),
            final(self).path_view() == old(self).path_view(),
            match result {
                Ok(_) => old(self)@.upsert_account(account_id@, google_sub@, email@, label@, now@)
                    == Ok::<_, ErrorView>(final(self)@),
                Err(error) => old(self)@.upsert_account(
                    account_id@,
                    google_sub@,
                    email@,
                    label@,
                    now@,
                ) == Err::<Tables, _>(error@) && final(self)@ == old(self)@,
            },
    {
        proof {
            if old(self)@.wf() {
                upsert_account_keeps(old(self)@, account_id@, google_sub@, email@, label@, now@);
            }
        }
        let ghost before = self@;
        let test = |account: &StoredAccount| -> (answer: bool)
            ensures
                answer == rival_account(account_id@, google_sub@)(account@)
            {
                !text_eq(account.row.account_id.as_str(), account_id) && text_eq(
                    account.row.google_sub.as_str(),
                    google_sub,
                )
            };
        let rival: Option<usize> = position(
            &self.accounts,
            test,
            Ghost(rival_account(account_id@, google_sub@)),
        );
        if rival.is_some() {
            return Err(duplicate("accounts.google_sub"));
        }
        if self.account_position(account_id).is_none() {
            let account = StoredAccount {
                row: AccountRow {
                    account_id: account_id.to_owned(),
                    google_sub: google_sub.to_owned(),
                    email: email.to_owned(),
                    label: label.to_owned(),
                    enabled: true,
                    last_sync: None,
                    error_code: None,
                    error: None,
                },
                created_at: now.to_owned(),
                updated_at: now.to_owned(),
            };
            self.accounts.push(account);
            assert(self@.accounts =~= before.accounts.push(account@));
            assert(Ok::<_, ErrorView>(self@) =~= before.upsert_account(
                account_id@,
                google_sub@,
                email@,
                label@,
                now@,
            ));
            return Ok(());
        }
        let test = |account: &StoredAccount| -> (answer: bool)
            ensures
                answer == named_account(account_id@)(account@)
            {
                text_eq(account.row.account_id.as_str(), account_id)
            };
        let change = |account: &StoredAccount| -> (changed: StoredAccount)
            ensures
                changed@ == signing_in(google_sub@, email@, label@, now@)(account@)
            {
                let mut copy: StoredAccount = account.clone();
                copy.row.google_sub = google_sub.to_owned();
                copy.row.email = email.to_owned();
                copy.row.label = label.to_owned();
                copy.row.enabled = true;
                copy.row.error_code = None;
                copy.row.error = None;
                copy.updated_at = now.to_owned();
                copy
            };
        revise(
            &mut self.accounts,
            test,
            change,
            Ghost(named_account(account_id@)),
            Ghost(signing_in(google_sub@, email@, label@, now@)),
        );
        Ok(())
    }

    /// Removes an account with all that belongs to it, and says whether it was there.
    pub fn delete_account(&mut self, account_id: &str) -> (removed: bool)
        ensures
            old(self)@.wf() ==> final(self)@.wf(),
            final(self).path_view() == old(self).path_view(),
            final(self)@ == old(self)@.delete_account(account_id@),
            removed == old(self)@.has_account(account_id@),
    {
        proof {
            if old(self)@.wf() {
                delete_account_keeps(old(self)@, account_id@);
            }
        }
        let removed: bool = self.account_position(account_id).is_some();
        let test = |account: &StoredAccount| -> (answer: bool)
            ensures
                answer == other_account(account_id@)(account@)
            {
                !text_eq(account.row.account_id.as_str(), account_id)
            };
        retain(&mut self.accounts, test, Ghost(other_account(account_id@)));
        let test = |calendar: &StoredCalendar| -> (answer: bool)
            ensures
                answer == foreign_calendar(account_id@)(calendar@)
            {
                !text_eq(calendar.account_id.as_str(), account_id)
            };
        retain(&mut self.calendars, test, Ghost(foreign_calendar(account_id@)));
        let test = |event: &StoredEvent| -> (answer: bool)
            ensures
                answer == foreign_event(account_id@)(event@)
            {
                !text_eq(event.account_id.as_str(), account_id)
            };
        retain(&mut self.events, test, Ghost(foreign_event(account_id@)));
        let test = |list: &StoredTaskList| -> (answer: bool)
            ensures
                answer == foreign_task_list(account_id@)(list@)
            {
                !text_eq(list.account_id.as_str(), account_id)
            };
        retain(&mut self.task_lists, test, Ghost(foreign_task_list(account_id@)));
        let test = |task: &StoredTask| -> (answer: bool)
            ensures
                answer == foreign_task(account_id@)(task@)
            {
                !text_eq(task.account_id.as_str(), account_id)
            };
        retain(&mut self.tasks, test, Ghost(foreign_task(account_id@)));
        removed
    }

    /// Notes the outcome of a synchronization: no message means that it succeeded.
    pub fn set_sync_result(
        &mut self,
        account_id: &str,
        code: Option<&str>,
        message: Option<&str>,
        now: &str,
    )
        ensures
            old(self)@.wf() ==> final(self)@.wf(),
            final(self).path_view() == old(self).path_view(),
            final(self)@ == old(self)@.set_sync_result(
                account_id@,
                borrowed_view(code),
                borrowed_view(message),
                now@,
            ),
    {
        proof {
            if old(self)@.wf() {
                set_sync_result_keeps(
                    old(self)@,
                    account_id@,
                    borrowed_view(code),
                    borrowed_view(message),
                    now@,
                );
            }
        }
        let test = |account: &StoredAccount| -> (answer: bool)
            ensures
                answer == named_account(account_id@)(account@)
            {
                text_eq(account.row.account_id.as_str(), account_id)
            };
        let change = |account: &StoredAccount| -> (changed: StoredAccount)
            ensures
                changed@ == syncing(borrowed_view(code), borrowed_view(message), now@)(account@)
            {
                let mut copy: StoredAccount = account.clone();
                if message.is_none() {
                    copy.row.last_sync = Some(now.to_owned());
                }
                copy.row.error_code = owned(code);
                copy.row.error = owned(message);
                copy.updated_at = now.to_owned();
                copy
            };
        revise(
            &mut self.accounts,
            test,
            change,
            Ghost(named_account(account_id@)),
            Ghost(syncing(borrowed_view(code), borrowed_view(message), now@)),
        );
    }

    /// Writes all calendars of an account as Google reports them; the others of the account go,
    /// with their events.
    pub fn replace_calendars(
        &mut self,
        account_id: &str,
        calendars: &Vec<CalendarEntry>,
    ) -> (result: Result<()>)
        ensures
            old(self)@.wf() ==> final(self)@.wf(),
            final(self).path_view() == old(self).path_view(),
            match result {
                Ok(_) => old(self)@.replace_calendars(account_id@, calendar_entries(calendars@))
                    == Ok::<_, ErrorView>(final(self)@),
                Err(error) => old(self)@.replace_calendars(
                    account_id@,
                    calendar_entries(calendars@),
                ) == Err::<Tables, _>(error@) && final(self)@ == old(self)@,
            },
    {
        proof {
            if old(self)@.wf() {
                replace_calendars_keeps(old(self)@, account_id@, calendar_entries(calendars@));
            }
        }
        let ghost before = self@;
        let ghost entries = calendar_entries(calendars@);
        if calendars.len() > 0 && self.account_position(account_id).is_none() {
            return Err(missing_reference());
        }
        let mut incoming: Vec<String> = Vec::new();
        let mut i: usize = 0;
        assert(entries.take(0) =~= Seq::<crate::entries::CalendarEntryView>::empty());
        assert(texts(incoming@) =~= entry_ids(entries.take(0)));
        while i < calendars.len()
            invariant
                i <= calendars@.len(),
                entries == calendar_entries(calendars@),
                self.path_view() == old(self).path_view(),
                before == old(self)@,
                self@ == (Tables { calendars: rows(self.calendars@), ..before }),
                rows(self.calendars@) == put_calendars(
                    before.calendars,
                    account_id@,
                    entries.take(i as int),
                ),
                texts(incoming@) == entry_ids(entries.take(i as int)),
            decreases calendars@.len() - i,
        {
            assert(entries.take(i + 1).drop_last() =~= entries.take(i as int));
            assert(entries.take(i + 1).last() == calendars@[i as int]@);
            let ghost ids = texts(incoming@);
            store_calendar(&mut self.calendars, account_id, &calendars[i]);
            incoming.push(calendars[i].id.clone());
            assert(texts(incoming@) =~= ids.push(calendars@[i as int]@.id));
            assert(entry_ids(entries.take(i + 1)) =~= entry_ids(entries.take(i as int)).push(
                calendars@[i as int]@.id,
            ));
            i = i + 1;
        }
        assert(entries.take(i as int) =~= entries);
        let test = |calendar: &StoredCalendar| -> (answer: bool)
            ensures
                answer == remaining_calendar(account_id@, texts(incoming@))(calendar@)
            {
                !text_eq(calendar.account_id.as_str(), account_id) || holds(
                    &incoming,
                    calendar.calendar_id.as_str(),
                )
            };
        retain(
            &mut self.calendars,
            test,
            Ghost(remaining_calendar(account_id@, texts(incoming@))),
        );
        let keep = |event: &StoredEvent| -> (answer: bool)
            ensures
                answer == remaining_event(account_id@, texts(incoming@))(event@)
            {
                !text_eq(event.account_id.as_str(), account_id) || holds(
                    &incoming,
                    event.calendar_id.as_str(),
                )
            };
        retain(&mut self.events, keep, Ghost(remaining_event(account_id@, texts(incoming@))));
        Ok(())
    }

    fn copied_events(&self) -> (copy: Vec<StoredEvent>)
        ensures
            rows(copy@) == self@.events,
    {
        let mut copy: Vec<StoredEvent> = Vec::new();
        for i in 0..self.events.len()
            invariant
                copy@.len() == i,
                forall|j: int| 0 <= j < i ==> (#[trigger] copy@[j])@ == self.events@[j]@,
        {
            copy.push(self.events[i].clone());
        }
        assert(rows(copy@) =~= self@.events);
        copy
    }

    /// Takes in the events that Google reports for a calendar: all of them (`replace`) or the
    /// changes since the last time.
    pub fn apply_events(
        &mut self,
        account_id: &str,
        calendar_id: &str,
        events: &Vec<Json>,
        sync_token: &str,
        replace: bool,
        now: &str,
    ) -> (result: Result<()>)
        ensures
            old(self)@.wf() ==> final(self)@.wf(),
            final(self).path_view() == old(self).path_view(),
            match result {
                Ok(_) => old(self)@.apply_events(
                    account_id@,
                    calendar_id@,
                    array_view(events@),
                    sync_token@,
                    replace,
                    now@,
                ) == Ok::<_, ErrorView>(final(self)@),
                Err(error) => old(self)@.apply_events(
                    account_id@,
                    calendar_id@,
                    array_view(events@),
                    sync_token@,
                    replace,
                    now@,
                ) == Err::<Tables, _>(error@) && final(self)@ == old(self)@,
            },
    {
        proof {
            if old(self)@.wf() {
                apply_events_keeps(
                    old(self)@,
                    account_id@,
                    calendar_id@,
                    array_view(events@),
                    sync_token@,
                    replace,
                    now@,
                );
            }
        }
        let ghost all = array_view(events@);
        let known: bool = self.calendar_position(account_id, calendar_id).is_some();
        let mut stored: Vec<StoredEvent> = self.copied_events();
        if replace {
            let test = |event: &StoredEvent| -> (answer: bool)
                ensures
                    answer == outside_calendar(account_id@, calendar_id@)(event@)
                {
                    !(text_eq(event.account_id.as_str(), account_id) && text_eq(
                        event.calendar_id.as_str(),
                        calendar_id,
                    ))
                };
            retain(&mut stored, test, Ghost(outside_calendar(account_id@, calendar_id@)));
        }
        let ghost before = rows(stored@);
        let mut i: usize = 0;
        assert(all.take(0) =~= Seq::<JsonView>::empty());
        while i < events.len()
            invariant
                i <= events@.len(),
                all == array_view(events@),
                all.len() == events@.len(),
                *self == *old(self),
                known == self@.has_calendar(account_id@, calendar_id@),
                before == (if replace {
                    self@.events.filter(outside_calendar(account_id@, calendar_id@))
                } else {
                    self@.events
                }),
                event_steps(before, known, account_id@, calendar_id@, all.take(i as int)) == Ok::<
                    _,
                    ErrorView,
                >(rows(stored@)),
            decreases events@.len() - i,
        {
            assert(all.take(i + 1).drop_last() =~= all.take(i as int));
            assert(all.take(i + 1).last() == events@[i as int]@);
            if let Err(error) = take_event(&mut stored, known, account_id, calendar_id, &events[i]) {
                proof {
                    later_events_fail(before, known, account_id@, calendar_id@, all, i as int + 1);
                }
                return Err(error);
            }
            i = i + 1;
        }
        assert(all.take(i as int) =~= all);
        self.events = stored;
        let test = |calendar: &StoredCalendar| -> (answer: bool)
            ensures
                answer == calendar_at(account_id@, calendar_id@)(calendar@)
            {
                text_eq(calendar.account_id.as_str(), account_id) && text_eq(
                    calendar.calendar_id.as_str(),
                    calendar_id,
                )
            };
        let change = |calendar: &StoredCalendar| -> (changed: StoredCalendar)
            ensures
                changed@ == syncing_events(sync_token@, replace, now@)(calendar@)
            {
                let mut copy: StoredCalendar = calendar.clone();
                copy.sync_token = Some(sync_token.to_owned());
                if replace {
                    copy.full_sync_at = Some(now.to_owned());
                }
                copy
            };
        revise(
            &mut self.calendars,
            test,
            change,
            Ghost(calendar_at(account_id@, calendar_id@)),
            Ghost(syncing_events(sync_token@, replace, now@)),
        );
        Ok(())
    }

    /// Drops the events of a calendar and its synchronization token.
    pub fn clear_calendar_sync(&mut self, account_id: &str, calendar_id: &str)
        ensures
            old(self)@.wf() ==> final(self)@.wf(),
            final(self).path_view() == old(self).path_view(),
            final(self)@ == old(self)@.clear_calendar_sync(account_id@, calendar_id@),
    {
        proof {
            if old(self)@.wf() {
                clear_calendar_sync_keeps(old(self)@, account_id@, calendar_id@);
            }
        }
        let keep = |event: &StoredEvent| -> (answer: bool)
            ensures
                answer == outside_calendar(account_id@, calendar_id@)(event@)
            {
                !(text_eq(event.account_id.as_str(), account_id) && text_eq(
                    event.calendar_id.as_str(),
                    calendar_id,
                ))
            };
        retain(&mut self.events, keep, Ghost(outside_calendar(account_id@, calendar_id@)));
        let test = |calendar: &StoredCalendar| -> (answer: bool)
            ensures
                answer == calendar_at(account_id@, calendar_id@)(calendar@)
            {
                text_eq(calendar.account_id.as_str(), account_id) && text_eq(
                    calendar.calendar_id.as_str(),
                    calendar_id,
                )
            };
        let change = |calendar: &StoredCalendar| -> (changed: StoredCalendar)
            ensures
                changed@ == forgetting()(calendar@)
            {
                let mut copy: StoredCalendar = calendar.clone();
                copy.sync_token = None;
                copy
            };
        revise(
            &mut self.calendars,
            test,
            change,
            Ghost(calendar_at(account_id@, calendar_id@)),
            Ghost(forgetting()),
        );
    }

    fn copied_task_lists(&self) -> (copy: Vec<StoredTaskList>)
        ensures
            rows(copy@) == self@.task_lists,
    {
        let mut copy: Vec<StoredTaskList> = Vec::new();
        for i in 0..self.task_lists.len()
            invariant
                copy@.len() == i,
                forall|j: int| 0 <= j < i ==> (#[trigger] copy@[j])@ == self.task_lists@[j]@,
        {
            copy.push(self.task_lists[i].clone());
        }
        assert(rows(copy@) =~= self@.task_lists);
        copy
    }

    fn copied_tasks(&self) -> (copy: Vec<StoredTask>)
        ensures
            rows(copy@) == self@.tasks,
    {
        let mut copy: Vec<StoredTask> = Vec::new();
        for i in 0..self.tasks.len()
            invariant
                copy@.len() == i,
                forall|j: int| 0 <= j < i ==> (#[trigger] copy@[j])@ == self.tasks@[j]@,
        {
            copy.push(self.tasks[i].clone());
        }
        assert(rows(copy@) =~= self@.tasks);
        copy
    }

    /// Takes in all task lists that Google reports for an account, and their tasks.
    pub fn replace_tasks(
        &mut self,
        account_id: &str,
        task_lists: &Vec<TaskListEntry>,
        tasks: &Vec<(String, Vec<Json>)>,
    ) -> (result: Result<()>)
        ensures
            old(self)@.wf() ==> final(self)@.wf(),
            final(self).path_view() == old(self).path_view(),
            match result {
                Ok(_) => old(self)@.replace_tasks(
                    account_id@,
                    task_list_entries(task_lists@),
                    tasks_by_list(tasks@),
                ) == Ok::<_, ErrorView>(final(self)@),
                Err(error) => old(self)@.replace_tasks(
                    account_id@,
                    task_list_entries(task_lists@),
                    tasks_by_list(tasks@),
                ) == Err::<Tables, _>(error@) && final(self)@ == old(self)@,
            },
    {
        proof {
            if old(self)@.wf() {
                replace_tasks_keeps(
                    old(self)@,
                    account_id@,
                    task_list_entries(task_lists@),
                    tasks_by_list(tasks@),
                );
            }
        }
        let ghost entries = task_list_entries(task_lists@);
        let ghost reported = tasks_by_list(tasks@);
        let known: bool = self.account_position(account_id).is_some();
        let mut lists: Vec<StoredTaskList> = self.copied_task_lists();
        let mut stored: Vec<StoredTask> = self.copied_tasks();
        let other_list = |list: &StoredTaskList| -> (answer: bool)
            ensures
                answer == foreign_task_list(account_id@)(list@)
            {
                !text_eq(list.account_id.as_str(), account_id)
            };
        retain(&mut lists, other_list, Ghost(foreign_task_list(account_id@)));
        let other_task = |task: &StoredTask| -> (answer: bool)
            ensures
                answer == foreign_task(account_id@)(task@)
            {
                !text_eq(task.account_id.as_str(), account_id)
            };
        retain(&mut stored, other_task, Ghost(foreign_task(account_id@)));
        let ghost before = (rows(lists@), rows(stored@));
        let mut i: usize = 0;
        assert(entries.take(0) =~= Seq::<TaskListEntryView>::empty());
        while i < task_lists.len()
            invariant
                i <= task_lists@.len(),
                entries == task_list_entries(task_lists@),
                reported == tasks_by_list(tasks@),
                *self == *old(self),
                known == self@.has_account(account_id@),
                before == (
                    self@.task_lists.filter(foreign_task_list(account_id@)),
                    self@.tasks.filter(foreign_task(account_id@)),
                ),
                task_list_steps(before, known, account_id@, entries.take(i as int), reported) == Ok::<
                    _,
                    ErrorView,
                >((rows(lists@), rows(stored@))),
            decreases task_lists@.len() - i,
        {
            let ghost upto = entries.take(i + 1);
            let ghost now = rows(lists@);
            assert(upto.drop_last() =~= entries.take(i as int));
            assert(upto.last() == task_lists@[i as int]@);
            let entry: &TaskListEntry = &task_lists[i];
            let id: &str = entry.id.as_str();
            let same = |list: &StoredTaskList| -> (answer: bool)
                ensures
                    answer == task_list_at(account_id@, id@)(list@)
                {
                    text_eq(list.account_id.as_str(), account_id) && text_eq(
                        list.task_list_id.as_str(),
                        id,
                    )
                };
            if position(&lists, same, Ghost(task_list_at(account_id@, id@))).is_some() {
                let error = duplicate("task_lists.account_id, task_lists.task_list_id");
                proof {
                    assert(task_list_steps(before, known, account_id@, upto, reported) == Err::<
                        ListsAndTasks,
                        _,
                    >(error@));
                    later_lists_fail(before, known, account_id@, entries, reported, i as int + 1);
                }
                return Err(error);
            }
            if !known {
                let error = missing_reference();
                proof {
                    assert(task_list_steps(before, known, account_id@, upto, reported) == Err::<
                        ListsAndTasks,
                        _,
                    >(error@));
                    later_lists_fail(before, known, account_id@, entries, reported, i as int + 1);
                }
                return Err(error);
            }
            let added: Result<()> = take_list(&mut stored, account_id, id, tasks);
            if let Err(error) = added {
                proof {
                    assert(task_list_steps(before, known, account_id@, upto, reported) == Err::<
                        ListsAndTasks,
                        _,
                    >(error@));
                    later_lists_fail(before, known, account_id@, entries, reported, i as int + 1);
                }
                return Err(error);
            }
            let list = StoredTaskList {
                account_id: account_id.to_owned(),
                task_list_id: entry.id.clone(),
                label: entry.label.clone(),
                updated: entry.updated.clone(),
            };
            lists.push(list);
            assert(rows(lists@) =~= now.push(new_task_list(account_id@, entry@)));
            i = i + 1;
        }
        assert(entries.take(i as int) =~= entries);
        self.task_lists = lists;
        self.tasks = stored;
        Ok(())
    }
}

} // verus!
