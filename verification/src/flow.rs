//! What the service needs of its surroundings while it works on a request, and where it goes on
//! when it has it.
use vstd::prelude::*;

use crate::database::tasks_by_list;
use crate::entries::{TaskListEntry, TaskListEntryView};
use crate::error::{CalendarError, ErrorView, Result};
use crate::json::{array_view, Json, JsonView};
use crate::records::{AccountRow, AccountView, CalendarRow, CalendarRowView};
use crate::table::rows;
use crate::tables::TasksByList;
use crate::text::{optional_view, texts};
use crate::time::{current, micros_text, Now, Timestamp};

verus! {

/// What the service sees of the world at one moment: the time, whether a Google client is set up,
/// and an identity that no account has yet.
#[derive(Debug)]
pub struct Surroundings {
    pub now: Now,
    pub configured: bool,
    pub fresh_id: String,
}

/// What the surroundings are.
pub struct SurroundingsView {
    pub instant: Timestamp,
    pub now: Seq<char>,
    pub configured: bool,
    pub fresh_id: Seq<char>,
}

impl View for Surroundings {
    type V = SurroundingsView;

    open spec fn view(&self) -> SurroundingsView {
        SurroundingsView {
            instant: self.now.instant,
            now: self.now.text@,
            configured: self.configured,
            fresh_id: self.fresh_id@,
        }
    }
}

/// Whether a character is a hexadecimal digit in lower case.
pub open spec fn is_hex_digit(c: char) -> bool {
    '0' <= c <= '9' || 'a' <= c <= 'f'
}

/// Whether a text has the form of a UUID: 32 hexadecimal digits, with hyphens after the eighth, the
/// twelfth, the sixteenth and the twentieth.
pub open spec fn is_uuid(text: Seq<char>) -> bool {
    &&& text.len() == 36
    &&& forall|i: int|
        0 <= i < 36 ==> if i == 8 || i == 13 || i == 18 || i == 23 {
            #[trigger] text[i] == '-'
        } else {
            is_hex_digit(text[i])
        }
}

/// Calls `uuid::Uuid::new_v4` and writes the identity with hyphens. Which one it is, is left to
/// chance.
#[verifier::external_body]
pub(crate) fn random_id() -> (id: String)
    ensures
        is_uuid(id@),
{
    uuid::Uuid::new_v4().to_string()
}

impl Surroundings {
    /// Looks at the clock, and draws an identity.
    pub fn observe(configured: bool) -> (surroundings: Surroundings)
        ensures
            surroundings@.configured == configured,
            surroundings@.now == micros_text(surroundings@.instant),
            surroundings@.instant.is_representable(),
            is_uuid(surroundings@.fresh_id),
    {
        Surroundings { now: current(), configured, fresh_id: random_id() }
    }
}

/// An identity that was drawn is not empty, and not the word that stands for all accounts.
pub proof fn drawn_identity_names_one(id: Seq<char>)
    requires
        is_uuid(id),
    ensures
        id.len() > 0,
        id != "all"@,
{
    reveal_strlit("all");
}

/// What clients are told without having asked.
#[derive(Debug)]
pub struct Notice {
    pub event: String,
    pub data: Json,
}

/// What a notice holds.
pub struct NoticeView {
    pub event: Seq<char>,
    pub data: JsonView,
}

impl View for Notice {
    type V = NoticeView;

    open spec fn view(&self) -> NoticeView {
        NoticeView { event: self.event@, data: self.data@ }
    }
}

/// Where a refresh leads to.
#[derive(Debug)]
pub enum After {
    /// Its result is the answer.
    Reply,
    /// It belongs to adding an account.
    Add { account_id: String },
}

/// Where a refresh leads to.
pub enum AfterView {
    Reply,
    Add { account_id: Seq<char> },
}

impl View for After {
    type V = AfterView;

    open spec fn view(&self) -> AfterView {
        match self {
            After::Reply => AfterView::Reply,
            After::Add { account_id } => AfterView::Add { account_id: account_id@ },
        }
    }
}

/// A refresh under way: the account that is being synchronized, those that wait, and the results
/// of those that are done.
#[derive(Debug)]
pub struct Refresh {
    pub account_id: String,
    pub waiting: Vec<String>,
    pub results: Vec<Json>,
    pub after: After,
}

/// What a refresh holds.
pub struct RefreshView {
    pub account_id: Seq<char>,
    pub waiting: Seq<Seq<char>>,
    pub results: Seq<JsonView>,
    pub after: AfterView,
}

impl View for Refresh {
    type V = RefreshView;

    open spec fn view(&self) -> RefreshView {
        RefreshView {
            account_id: self.account_id@,
            waiting: texts(self.waiting@),
            results: array_view(self.results@),
            after: self.after@,
        }
    }
}

/// Why the user signs in.
#[derive(Debug)]
pub enum Authorizing {
    Add { label: Option<String> },
    Reconnect { account: AccountRow },
}

/// Why the user signs in.
pub enum AuthorizingView {
    Add { label: Option<Seq<char>> },
    Reconnect { account: AccountView },
}

impl View for Authorizing {
    type V = AuthorizingView;

    open spec fn view(&self) -> AuthorizingView {
        match self {
            Authorizing::Add { label } => AuthorizingView::Add { label: optional_view(*label) },
            Authorizing::Reconnect { account } => AuthorizingView::Reconnect { account: account@ },
        }
    }
}

/// The account whose refresh token is being kept. An account that is added may be known already.
#[derive(Debug)]
pub struct Storing {
    pub account_id: String,
    pub subject: String,
    pub email: String,
    pub label: String,
    pub known: bool,
    pub reconnect: bool,
}

/// What is known of the account whose refresh token is being kept.
pub struct StoringView {
    pub account_id: Seq<char>,
    pub subject: Seq<char>,
    pub email: Seq<char>,
    pub label: Seq<char>,
    pub known: bool,
    pub reconnect: bool,
}

impl View for Storing {
    type V = StoringView;

    open spec fn view(&self) -> StoringView {
        StoringView {
            account_id: self.account_id@,
            subject: self.subject@,
            email: self.email@,
            label: self.label@,
            known: self.known,
            reconnect: self.reconnect,
        }
    }
}

/// Why a refresh token is read.
#[derive(Debug)]
pub enum LookingUp {
    Remove { account_id: String },
    Sync { refresh: Refresh },
}

/// Why a refresh token is read.
pub enum LookingUpView {
    Remove { account_id: Seq<char> },
    Sync { refresh: RefreshView },
}

impl View for LookingUp {
    type V = LookingUpView;

    open spec fn view(&self) -> LookingUpView {
        match self {
            LookingUp::Remove { account_id } => LookingUpView::Remove { account_id: account_id@ },
            LookingUp::Sync { refresh } => LookingUpView::Sync { refresh: refresh@ },
        }
    }
}

/// Why a refresh token is dropped.
#[derive(Debug)]
pub enum Clearing {
    /// The account could not be written down.
    Undo { error: CalendarError },
    /// The account is removed.
    Remove { account_id: String, revoked: bool },
}

/// Why a refresh token is dropped.
pub enum ClearingView {
    Undo { error: ErrorView },
    Remove { account_id: Seq<char>, revoked: bool },
}

impl View for Clearing {
    type V = ClearingView;

    open spec fn view(&self) -> ClearingView {
        match self {
            Clearing::Undo { error } => ClearingView::Undo { error: error@ },
            Clearing::Remove { account_id, revoked } => ClearingView::Remove {
                account_id: account_id@,
                revoked: *revoked,
            },
        }
    }
}

/// Why a refresh token is given back.
#[derive(Debug)]
pub enum Revoking {
    /// It belongs to another account than the one that was to sign in.
    Stray { email: String },
    /// The account is removed.
    Remove { account_id: String },
}

/// Why a refresh token is given back.
pub enum RevokingView {
    Stray { email: Seq<char> },
    Remove { account_id: Seq<char> },
}

impl View for Revoking {
    type V = RevokingView;

    open spec fn view(&self) -> RevokingView {
        match self {
            Revoking::Stray { email } => RevokingView::Stray { email: email@ },
            Revoking::Remove { account_id } => RevokingView::Remove { account_id: account_id@ },
        }
    }
}

/// A refresh with the access token of the account that is being synchronized.
#[derive(Debug)]
pub struct Reading {
    pub refresh: Refresh,
    pub access_token: String,
}

/// What is known of a refresh with an access token.
pub struct ReadingView {
    pub refresh: RefreshView,
    pub access_token: Seq<char>,
}

impl View for Reading {
    type V = ReadingView;

    open spec fn view(&self) -> ReadingView {
        ReadingView { refresh: self.refresh@, access_token: self.access_token@ }
    }
}

/// Calendars whose events are being read: the first of them now.
#[derive(Debug)]
pub struct ReadingEvents {
    pub reading: Reading,
    pub calendars: Vec<CalendarRow>,
    pub changes_only: bool,
    pub replace: bool,
}

/// What is known of calendars whose events are being read.
pub struct ReadingEventsView {
    pub reading: ReadingView,
    pub calendars: Seq<CalendarRowView>,
    pub changes_only: bool,
    pub replace: bool,
}

impl View for ReadingEvents {
    type V = ReadingEventsView;

    open spec fn view(&self) -> ReadingEventsView {
        ReadingEventsView {
            reading: self.reading@,
            calendars: rows(self.calendars@),
            changes_only: self.changes_only,
            replace: self.replace,
        }
    }
}

/// Task lists whose tasks are being read: that of the position now.
#[derive(Debug)]
pub struct ReadingTasks {
    pub reading: Reading,
    pub lists: Vec<TaskListEntry>,
    pub position: usize,
    pub tasks: Vec<(String, Vec<Json>)>,
}

/// What is known of task lists whose tasks are being read.
pub struct ReadingTasksView {
    pub reading: ReadingView,
    pub lists: Seq<TaskListEntryView>,
    pub position: int,
    pub tasks: TasksByList,
}

impl View for ReadingTasks {
    type V = ReadingTasksView;

    open spec fn view(&self) -> ReadingTasksView {
        ReadingTasksView {
            reading: self.reading@,
            lists: rows(self.lists@),
            position: self.position as int,
            tasks: tasks_by_list(self.tasks@),
        }
    }
}

/// What comes next in a request: its answer, or something that the service needs first.
#[derive(Debug)]
#[allow(inconsistent_fields)]
pub enum Next {
    Finished { result: Result<Json> },
    Authorize { run: Authorizing },
    Store { account_id: String, refresh_token: String, run: Storing },
    Lookup { account_id: String, run: LookingUp },
    Clear { account_id: String, run: Clearing },
    Revoke { refresh_token: String, run: Revoking },
    RefreshToken { refresh_token: String, run: Refresh },
    ListCalendars { run: Reading },
    ListEvents { calendar_id: String, sync_token: Option<String>, run: ReadingEvents },
    ListTaskLists { run: Reading },
    ListTasks { task_list_id: String, run: ReadingTasks },
    OpenBrowser { url: String, item_id: String },
}

/// What comes next in a request.
#[allow(inconsistent_fields)]
pub enum NextView {
    Finished { result: std::result::Result<JsonView, ErrorView> },
    Authorize { run: AuthorizingView },
    Store { account_id: Seq<char>, refresh_token: Seq<char>, run: StoringView },
    Lookup { account_id: Seq<char>, run: LookingUpView },
    Clear { account_id: Seq<char>, run: ClearingView },
    Revoke { refresh_token: Seq<char>, run: RevokingView },
    RefreshToken { refresh_token: Seq<char>, run: RefreshView },
    ListCalendars { run: ReadingView },
    ListEvents {
        calendar_id: Seq<char>,
        sync_token: Option<Seq<char>>,
        run: ReadingEventsView,
    },
    ListTaskLists { run: ReadingView },
    ListTasks { task_list_id: Seq<char>, run: ReadingTasksView },
    OpenBrowser { url: Seq<char>, item_id: Seq<char> },
}

/// A result that is JSON.
pub open spec fn json_result(result: Result<Json>) -> std::result::Result<JsonView, ErrorView> {
    match result {
        Ok(json) => Ok(json@),
        Err(error) => Err(error@),
    }
}

impl View for Next {
    type V = NextView;

    open spec fn view(&self) -> NextView {
        match self {
            Next::Finished { result } => NextView::Finished { result: json_result(*result) },
            Next::Authorize { run } => NextView::Authorize { run: run@ },
            Next::Store { account_id, refresh_token, run } => NextView::Store {
                account_id: account_id@,
                refresh_token: refresh_token@,
                run: run@,
            },
            Next::Lookup { account_id, run } => NextView::Lookup {
                account_id: account_id@,
                run: run@,
            },
            Next::Clear { account_id, run } => NextView::Clear {
                account_id: account_id@,
                run: run@,
            },
            Next::Revoke { refresh_token, run } => NextView::Revoke {
                refresh_token: refresh_token@,
                run: run@,
            },
            Next::RefreshToken { refresh_token, run } => NextView::RefreshToken {
                refresh_token: refresh_token@,
                run: run@,
            },
            Next::ListCalendars { run } => NextView::ListCalendars { run: run@ },
            Next::ListEvents { calendar_id, sync_token, run } => NextView::ListEvents {
                calendar_id: calendar_id@,
                sync_token: optional_view(*sync_token),
                run: run@,
            },
            Next::ListTaskLists { run } => NextView::ListTaskLists { run: run@ },
            Next::ListTasks { task_list_id, run } => NextView::ListTasks {
                task_list_id: task_list_id@,
                run: run@,
            },
            Next::OpenBrowser { url, item_id } => NextView::OpenBrowser {
                url: url@,
                item_id: item_id@,
            },
        }
    }
}

/// One step of a request: what clients are told, in this order, and what comes next.
#[derive(Debug)]
pub struct Turn {
    pub notices: Vec<Notice>,
    pub next: Next,
}

/// What a step holds.
#[verifier::ext_equal]
pub struct TurnView {
    pub notices: Seq<NoticeView>,
    pub next: NextView,
}

impl View for Turn {
    type V = TurnView;

    open spec fn view(&self) -> TurnView {
        TurnView { notices: rows(self.notices@), next: self.next@ }
    }
}

} // verus!
