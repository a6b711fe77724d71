//! The service: requests of clients, step by step.
use vstd::prelude::*;

use crate::browser::BrowserOpenResult;
use crate::database::{holds, tasks_by_list, Database};
use crate::entries::{
    calendar_entries, task_list_entries, AuthResult, AuthView, CalendarEntry, CalendarEntryView,
    TaskListEntry, TaskListEntryView,
};
use crate::error::{safe_message, CalendarError, ErrorView, Result};
use crate::flow::{
    After, AfterView, Authorizing, Clearing, LookingUp, Next, Notice, NoticeView, Reading,
    ReadingEvents, ReadingTasks, Refresh, Revoking, Storing, Surroundings, Turn,
};
use crate::json::{array_view, Json, JsonObject, JsonView};
use crate::link::https_link;
use crate::oauth::{cancelled_error, OAuthAttempt, OAuthPhase};
use crate::records::{AccountRow, CalendarRow};
use crate::state::progress;
use crate::table::{position, retain, rows};
use crate::text::{optional_view, take_chars, text_eq, texts, trim};
use crate::time::{older, parse_rfc3339, Timestamp};
use crate::transitions::{
    account_named, agenda_notice, already_syncing, chosen_label, id_of, is_enabled, other_text,
    refreshed, requested_account, sync_result, usable_token, ServiceView,
};

verus! {

broadcast use crate::json::group_json;

/// The service of the calendar: the cache, and what is under way.
#[derive(Debug)]
pub struct CalendarService {
    database: Database,
    syncing: Vec<String>,
    refreshing: bool,
    attempt: Option<OAuthAttempt>,
}

impl View for CalendarService {
    type V = ServiceView;

    closed spec fn view(&self) -> ServiceView {
        ServiceView {
            tables: self.database@,
            syncing: texts(self.syncing@),
            refreshing: self.refreshing,
            phase: match self.attempt {
                Some(attempt) => Some(attempt@),
                None => None,
            },
        }
    }
}

/// The result of something that gives nothing back.
pub open spec fn unit_result(result: Result<()>) -> std::result::Result<(), ErrorView> {
    match result {
        Ok(_) => Ok(()),
        Err(error) => Err(error@),
    }
}

/// A result that is a text.
pub open spec fn text_result(result: Result<String>) -> std::result::Result<Seq<char>, ErrorView> {
    match result {
        Ok(text) => Ok(text@),
        Err(error) => Err(error@),
    }
}

/// The result of a sign-in.
pub open spec fn auth_result(result: Result<AuthResult>) -> std::result::Result<
    AuthView,
    ErrorView,
> {
    match result {
        Ok(auth) => Ok(auth@),
        Err(error) => Err(error@),
    }
}

/// A result that is a list of calendars.
pub open spec fn calendars_result(result: Result<Vec<CalendarEntry>>) -> std::result::Result<
    Seq<CalendarEntryView>,
    ErrorView,
> {
    match result {
        Ok(entries) => Ok(calendar_entries(entries@)),
        Err(error) => Err(error@),
    }
}

/// A result that is a list of task lists.
pub open spec fn task_lists_result(result: Result<Vec<TaskListEntry>>) -> std::result::Result<
    Seq<TaskListEntryView>,
    ErrorView,
> {
    match result {
        Ok(entries) => Ok(task_list_entries(entries@)),
        Err(error) => Err(error@),
    }
}

/// A result that is a list of events with the token from which to go on.
pub open spec fn events_result(result: Result<(Vec<Json>, String)>) -> std::result::Result<
    (Seq<JsonView>, Seq<char>),
    ErrorView,
> {
    match result {
        Ok((events, token)) => Ok((array_view(events@), token@)),
        Err(error) => Err(error@),
    }
}

/// A result that is a list of tasks.
pub open spec fn tasks_result(result: Result<Vec<Json>>) -> std::result::Result<
    Seq<JsonView>,
    ErrorView,
> {
    match result {
        Ok(tasks) => Ok(array_view(tasks@)),
        Err(error) => Err(error@),
    }
}

fn no_notices() -> (notices: Vec<Notice>)
    ensures
        rows(notices@) == Seq::<NoticeView>::empty(),
{
    let notices: Vec<Notice> = Vec::new();
    assert(rows(notices@) =~= Seq::<NoticeView>::empty());
    notices
}

fn add_notice(notices: Vec<Notice>, notice: Notice) -> (result: Vec<Notice>)
    ensures
        rows(result@) == rows(notices@).push(notice@),
{
    let ghost before = rows(notices@);
    let mut result: Vec<Notice> = notices;
    result.push(notice);
    assert(rows(result@) =~= before.push(notice@));
    result
}

fn tell_agenda() -> (notice: Notice)
    ensures
        notice@ == agenda_notice(),
{
    Notice {
        event: "agenda_changed".to_owned(),
        data: Json::Object(JsonObject::new().with("start", Json::Null).with("end", Json::Null)),
    }
}

fn label_in(parameters: &Json) -> (label: Option<String>)
    ensures
        optional_view(label) == chosen_label(parameters@),
{
    match parameters.get_text("label") {
        Some(label) => {
            let trimmed: String = trim(label.as_str());
            if trimmed.as_str().is_empty() {
                None
            } else {
                Some(take_chars(trimmed.as_str(), 100))
            }
        },
        None => None,
    }
}

fn not_an_account() -> (error: CalendarError)
    ensures
        error@ == crate::transitions::account_not_text(),
{
    CalendarError::new("invalid_params", "accountId must be a string")
}

fn account_in(parameters: &Json) -> (requested: Result<Option<String>>)
    ensures
        match requested {
            Ok(requested) => requested_account(parameters@) == Ok::<_, ErrorView>(
                optional_view(requested),
            ),
            Err(error) => requested_account(parameters@) == Err::<Option<Seq<char>>, _>(error@),
        },
{
    match parameters.get("accountId") {
        None => Ok(None),
        Some(value) => match value.as_str() {
            Some(id) if !id.as_str().is_empty() => Ok(Some(id.clone())),
            _ => Err(not_an_account()),
        },
    }
}

fn token_for(calendar: &CalendarRow, now: &Timestamp) -> (token: Option<String>)
    ensures
        optional_view(token) == usable_token(calendar@, *now),
{
    if let Some(text) = &calendar.full_sync_at {
        if let Some(time) = parse_rfc3339(text.as_str()) {
            if older(&time, now, 30) {
                return None;
            }
        }
    }
    calendar.sync_token.clone()
}

fn sync_value(id: &str, error: Option<&str>) -> (json: Json)
    ensures
        json@ == sync_result(id@, crate::text::borrowed_view(error)),
{
    let message: Json = match error {
        Some(message) => Json::text(message),
        None => Json::Null,
    };
    Json::Object(
        JsonObject::new()
            .with("id", Json::text(id))
            .with("ok", Json::Bool(error.is_none()))
            .with("error", message),
    )
}

fn busy_value() -> (json: Json)
    ensures
        json@ == already_syncing(),
{
    let none: Vec<Json> = Vec::new();
    assert(array_view(none@) =~= Seq::<JsonView>::empty());
    Json::Object(
        JsonObject::new()
            .with("started", Json::Bool(false))
            .with("reason", Json::text("already_syncing"))
            .with("accounts", Json::Array(none)),
    )
}

fn account_missing() -> (error: CalendarError)
    ensures
        error@ == crate::transitions::no_account(),
{
    CalendarError::new("account_not_found", "Google account was not found")
}

fn finished(notices: Vec<Notice>, result: Result<Json>) -> (turn: Turn)
    ensures
        turn@.notices == rows(notices@),
        turn.next == (Next::Finished { result }),
{
    Turn { notices, next: Next::Finished { result } }
}

impl CalendarService {
    /// Where the cache is kept.
    pub closed spec fn path_view(&self) -> Seq<char> {
        self.database.path_view()
    }

    /// The service, with nothing under way.
    pub fn new(database: Database) -> (service: CalendarService)
        ensures
            service@ == (ServiceView {
                tables: database@,
                syncing: Seq::empty(),
                refreshing: false,
                phase: None,
            }),
            service.path_view() == database.path_view(),
    {
        let service = CalendarService {
            database,
            syncing: Vec::new(),
            refreshing: false,
            attempt: None,
        };
        assert(service@.syncing =~= Seq::<Seq<char>>::empty());
        service
    }

    /// The cache.
    pub fn database(&self) -> (database: &Database)
        ensures
            database@ == self@.tables,
            database.path_view() == self.path_view(),
    {
        &self.database
    }

    /// Puts another cache in the place of the one that is there, as where that could not be written
    /// down. What is under way goes on.
    pub fn put_back(&mut self, database: Database)
        ensures
            final(self)@ == (ServiceView { tables: database@, ..old(self)@ }),
            final(self).path_view() == database.path_view(),
    {
        self.database = database;
    }

    /// How far a sign-in has come.
    pub fn phase(&self) -> (phase: Option<OAuthPhase>)
        ensures
            phase == self@.phase,
    {
        match &self.attempt {
            Some(attempt) => Some(attempt.phase()),
            None => None,
        }
    }

    /// Notes that Google answered a sign-in, and says whether it may go on.
    pub fn begin_finishing(&mut self) -> (allowed: bool)
        ensures
            final(self).path_view() == old(self).path_view(),
            match old(self)@.phase {
                Some(phase) => allowed == crate::oauth::can_finish(phase) && final(self)@ == (
                ServiceView { phase: Some(crate::oauth::after_finish(phase)), ..old(self)@ }),
                None => !allowed && final(self)@ == old(self)@,
            },
    {
        match self.attempt.take() {
            Some(attempt) => {
                let mut attempt: OAuthAttempt = attempt;
                let allowed: bool = attempt.begin_finishing();
                self.attempt = Some(attempt);
                allowed
            },
            None => false,
        }
    }

    /// The state that clients see: the accounts, what they are doing, and how far a sign-in has
    /// come.
    pub fn state(&self, configured: bool) -> (state: Json)
        ensures
            state@ == self@.state(configured),
    {
        let phase: Option<OAuthPhase> = self.phase();
        let in_progress: bool = phase.is_some();
        let (waiting, cancelled, finishing): (bool, bool, bool) = match phase {
            Some(OAuthPhase::Waiting) => (true, false, false),
            Some(OAuthPhase::Cancelled) => (false, true, false),
            Some(OAuthPhase::Finishing) => (false, false, true),
            None => (false, false, false),
        };
        Json::Object(
            self.database.state(&self.syncing, configured)
                .with("oauthInProgress", Json::Bool(in_progress))
                .with("oauthCancelable", Json::Bool(waiting))
                .with("oauthCancelling", Json::Bool(cancelled))
                .with("oauthFinishing", Json::Bool(finishing)),
        )
    }

    fn tell_state(&self, configured: bool) -> (notice: Notice)
        ensures
            notice@ == self@.state_notice(configured),
    {
        Notice { event: "state_changed".to_owned(), data: self.state(configured) }
    }

    fn account_value(&self, id: &str) -> (account: Option<Json>)
        ensures
            match account {
                Some(account) => self@.account(id@) == Some(account@),
                None => self@.account(id@) is None,
            },
    {
        let accounts: Vec<AccountRow> = self.database.configured_accounts();
        let test = |account: &AccountRow| -> (answer: bool)
            ensures
                answer == account_named(id@)(account@)
            {
                text_eq(account.account_id.as_str(), id)
            };
        match position(&accounts, test, Ghost(account_named(id@))) {
            Some(i) => Some(self.database.account_value(&accounts[i], &self.syncing)),
            None => None,
        }
    }

    fn release(
        &mut self,
        notices: Vec<Notice>,
        result: Result<Json>,
        world: &Surroundings,
    ) -> (turn: Turn)
        ensures
            final(self).path_view() == old(self).path_view(),
            (final(self)@, turn@) == old(self)@.released(
                rows(notices@),
                crate::flow::json_result(result),
                world@,
            ),
    {
        self.attempt = None;
        finished(add_notice(notices, self.tell_state(world.configured)), result)
    }

    fn begin_sign_in(&mut self, run: Authorizing, world: &Surroundings) -> (turn: Turn)
        ensures
            final(self).path_view() == old(self).path_view(),
            (final(self)@, turn@) == old(self)@.begin_sign_in(run@, world@),
    {
        if self.attempt.is_some() {
            return finished(
                no_notices(),
                Err(
                    CalendarError::new("oauth_in_progress", "Google sign-in is already in progress"),
                ),
            );
        }
        self.attempt = Some(OAuthAttempt::new());
        let turn = Turn {
            notices: add_notice(no_notices(), self.tell_state(world.configured)),
            next: Next::Authorize { run },
        };
        assert(turn@.notices =~= seq![self@.state_notice(world@.configured)]);
        turn
    }

    /// An account is to be added.
    pub fn add_account(&mut self, parameters: &Json, world: &Surroundings) -> (turn: Turn)
        ensures
            final(self).path_view() == old(self).path_view(),
            (final(self)@, turn@) == old(self)@.add_account(parameters@, world@),
    {
        self.begin_sign_in(Authorizing::Add { label: label_in(parameters) }, world)
    }

    /// An account is to sign in again.
    pub fn reconnect_account(&mut self, parameters: &Json, world: &Surroundings) -> (turn: Turn)
        ensures
            final(self).path_view() == old(self).path_view(),
            (final(self)@, turn@) == old(self)@.reconnect_account(parameters@, world@),
    {
        let id: &String = match parameters.get_word("accountId") {
            Some(id) => id,
            None => return finished(
                no_notices(),
                Err(CalendarError::new("invalid_params", "accountId is required")),
            ),
        };
        match self.database.account(id.as_str()) {
            None => {
                proof {
                    crate::table::first_none(
                        self@.tables.accounts,
                        crate::tables::named_account(id@),
                    );
                }
                finished(no_notices(), Err(account_missing()))
            },
            Some(account) => self.begin_sign_in(Authorizing::Reconnect { account }, world),
        }
    }

    /// The user signed in, or not.
    pub fn authorized(
        &mut self,
        run: Authorizing,
        result: Result<AuthResult>,
        world: &Surroundings,
    ) -> (turn: Turn)
        ensures
            final(self).path_view() == old(self).path_view(),
            (final(self)@, turn@) == old(self)@.authorized(run@, auth_result(result), world@),
    {
        let auth: AuthResult = match result {
            Ok(auth) => auth,
            Err(error) => return self.release(no_notices(), Err(error), world),
        };
        match run {
            Authorizing::Add { label } => {
                if !self.begin_finishing() {
                    return self.release(no_notices(), Err(cancelled_error()), world);
                }
                let known: Option<AccountRow> = self.database.account_by_sub(
                    auth.subject.as_str(),
                );
                proof {
                    crate::table::first_none(
                        self@.tables.accounts,
                        crate::tables::with_subject(auth@.subject),
                    );
                }
                let is_known: bool = known.is_some();
                let account_id: String = match known {
                    Some(account) => account.account_id,
                    None => world.fresh_id.clone(),
                };
                let label: String = match label {
                    Some(label) => label,
                    None => auth.email.clone(),
                };
                Turn {
                    notices: no_notices(),
                    next: Next::Store {
                        account_id: account_id.clone(),
                        refresh_token: auth.refresh_token,
                        run: Storing {
                            account_id,
                            subject: auth.subject,
                            email: auth.email,
                            label,
                            known: is_known,
                            reconnect: false,
                        },
                    },
                }
            },
            Authorizing::Reconnect { account } => {
                if !text_eq(auth.subject.as_str(), account.google_sub.as_str()) {
                    return Turn {
                        notices: no_notices(),
                        next: Next::Revoke {
                            refresh_token: auth.refresh_token,
                            run: Revoking::Stray { email: account.email },
                        },
                    };
                }
                Turn {
                    notices: no_notices(),
                    next: Next::Store {
                        account_id: account.account_id.clone(),
                        refresh_token: auth.refresh_token,
                        run: Storing {
                            account_id: account.account_id,
                            subject: auth.subject,
                            email: auth.email,
                            label: account.label,
                            known: true,
                            reconnect: true,
                        },
                    },
                }
            },
        }
    }

    /// A refresh token was kept, or not.
    pub fn stored(&mut self, run: Storing, result: Result<()>, world: &Surroundings) -> (turn: Turn)
        ensures
            final(self).path_view() == old(self).path_view(),
            old(self)@.tables.wf() ==> final(self)@.tables.wf(),
            (final(self)@, turn@) == old(self)@.stored(run@, unit_result(result), world@),
    {
        if let Err(error) = result {
            return self.release(no_notices(), Err(error), world);
        }
        let written: Result<()> = self.database.upsert_account(
            run.account_id.as_str(),
            run.subject.as_str(),
            run.email.as_str(),
            run.label.as_str(),
            world.now.text.as_str(),
        );
        if let Err(error) = written {
            if run.known {
                return self.release(no_notices(), Err(error), world);
            }
            return Turn {
                notices: no_notices(),
                next: Next::Clear { account_id: run.account_id, run: Clearing::Undo { error } },
            };
        }
        let notices: Vec<Notice> = add_notice(no_notices(), self.tell_state(world.configured));
        assert(rows(notices@) =~= seq![self@.state_notice(world@.configured)]);
        if run.reconnect {
            let answer: Result<Json> = match self.account_value(run.account_id.as_str()) {
                Some(account) => Ok(
                    Json::Object(
                        JsonObject::new()
                            .with("account", account)
                            .with("reconnected", Json::Bool(true)),
                    ),
                ),
                None => Err(
                    CalendarError::new("internal_error", "Reconnected account disappeared"),
                ),
            };
            return self.release(notices, answer, world);
        }
        if run.account_id.as_str().is_empty() {
            return self.release(notices, Err(not_an_account()), world);
        }
        let id: String = run.account_id.clone();
        self.begin_refresh(Some(id), After::Add { account_id: run.account_id }, notices, world)
    }

    /// The user gives a sign-in up.
    pub fn cancel_add_account(&mut self, world: &Surroundings) -> (turn: Turn)
        ensures
            final(self).path_view() == old(self).path_view(),
            (final(self)@, turn@) == old(self)@.cancel_add_account(world@),
    {
        let phase: OAuthPhase = match self.phase() {
            None => return finished(
                no_notices(),
                Ok(
                    Json::Object(
                        JsonObject::new()
                            .with("cancelled", Json::Bool(false))
                            .with("reason", Json::text("not_in_progress")),
                    ),
                ),
            ),
            Some(phase) => phase,
        };
        if let Some(attempt) = self.attempt.take() {
            let mut attempt: OAuthAttempt = attempt;
            attempt.cancel();
            self.attempt = Some(attempt);
        }
        match phase {
            OAuthPhase::Waiting => {
                let notices: Vec<Notice> = add_notice(
                    no_notices(),
                    self.tell_state(world.configured),
                );
                assert(rows(notices@) =~= seq![self@.state_notice(world@.configured)]);
                finished(
                    notices,
                    Ok(Json::Object(JsonObject::new().with("cancelled", Json::Bool(true)))),
                )
            },
            OAuthPhase::Cancelled => finished(
                no_notices(),
                Ok(
                    Json::Object(
                        JsonObject::new()
                            .with("cancelled", Json::Bool(true))
                            .with("reason", Json::text("already_cancelled")),
                    ),
                ),
            ),
            OAuthPhase::Finishing => {
                let notices: Vec<Notice> = add_notice(
                    no_notices(),
                    self.tell_state(world.configured),
                );
                assert(rows(notices@) =~= seq![self@.state_notice(world@.configured)]);
                finished(
                    notices,
                    Ok(
                        Json::Object(
                            JsonObject::new()
                                .with("cancelled", Json::Bool(false))
                                .with("reason", Json::text("finishing")),
                        ),
                    ),
                )
            },
        }
    }

    /// An account is to be removed.
    pub fn remove_account(&mut self, parameters: &Json) -> (turn: Turn)
        ensures
            final(self).path_view() == old(self).path_view(),
            (final(self)@, turn@) == old(self)@.remove_account(parameters@),
    {
        let id: &String = match parameters.get_word("accountId") {
            Some(id) => id,
            None => return finished(
                no_notices(),
                Err(CalendarError::new("invalid_params", "accountId is required")),
            ),
        };
        if self.database.account(id.as_str()).is_none() {
            return finished(no_notices(), Err(account_missing()));
        }
        proof {
            crate::table::first_none(self@.tables.accounts, crate::tables::named_account(id@));
        }
        Turn {
            notices: no_notices(),
            next: Next::Lookup {
                account_id: id.clone(),
                run: LookingUp::Remove { account_id: id.clone() },
            },
        }
    }

    /// A refresh token was read, or not.
    pub fn looked_up(
        &mut self,
        run: LookingUp,
        result: Result<String>,
        world: &Surroundings,
    ) -> (turn: Turn)
        ensures
            final(self).path_view() == old(self).path_view(),
            old(self)@.tables.wf() ==> final(self)@.tables.wf(),
            (final(self)@, turn@) == old(self)@.looked_up(run@, text_result(result), world@),
    {
        match run {
            LookingUp::Remove { account_id } => match result {
                Ok(refresh_token) => Turn {
                    notices: no_notices(),
                    next: Next::Revoke { refresh_token, run: Revoking::Remove { account_id } },
                },
                Err(_) => Turn {
                    notices: no_notices(),
                    next: Next::Clear {
                        account_id: account_id.clone(),
                        run: Clearing::Remove { account_id, revoked: false },
                    },
                },
            },
            LookingUp::Sync { refresh } => match result {
                Ok(refresh_token) => Turn {
                    notices: no_notices(),
                    next: Next::RefreshToken { refresh_token, run: refresh },
                },
                Err(error) => self.account_done(refresh, Err(error), world),
            },
        }
    }

    /// A refresh token was given back, or not.
    pub fn revoked(&mut self, run: Revoking, given_back: bool, world: &Surroundings) -> (turn: Turn)
        ensures
            final(self).path_view() == old(self).path_view(),
            (final(self)@, turn@) == old(self)@.revoked(run@, given_back, world@),
    {
        match run {
            Revoking::Stray { email } => {
                let message: String = "Wrong Google account selected. Sign in as ".to_owned().concat(
                    email.as_str(),
                ).concat(".");
                self.release(
                    no_notices(),
                    Err(CalendarError::new("oauth_account_mismatch", message.as_str())),
                    world,
                )
            },
            Revoking::Remove { account_id } => Turn {
                notices: no_notices(),
                next: Next::Clear {
                    account_id: account_id.clone(),
                    run: Clearing::Remove { account_id, revoked: given_back },
                },
            },
        }
    }

    /// A refresh token was dropped, or not.
    pub fn cleared(
        &mut self,
        run: Clearing,
        result: Result<()>,
        world: &Surroundings,
    ) -> (turn: Turn)
        ensures
            final(self).path_view() == old(self).path_view(),
            old(self)@.tables.wf() ==> final(self)@.tables.wf(),
            (final(self)@, turn@) == old(self)@.cleared(run@, unit_result(result), world@),
    {
        match run {
            Clearing::Undo { error } => self.release(no_notices(), Err(error), world),
            Clearing::Remove { account_id, revoked } => {
                if let Err(error) = result {
                    return finished(no_notices(), Err(error));
                }
                let removed: bool = self.database.delete_account(account_id.as_str());
                let notices: Vec<Notice> = add_notice(
                    add_notice(no_notices(), self.tell_state(world.configured)),
                    tell_agenda(),
                );
                assert(rows(notices@) =~= seq![
                    self@.state_notice(world@.configured),
                    agenda_notice(),
                ]);
                finished(
                    notices,
                    Ok(
                        Json::Object(
                            JsonObject::new()
                                .with("accountId", Json::Text(account_id))
                                .with("removed", Json::Bool(removed))
                                .with("revoked", Json::Bool(revoked)),
                        ),
                    ),
                )
            },
        }
    }

    /// Accounts are to be synchronized: all of them, or one.
    pub fn refresh(&mut self, parameters: &Json, world: &Surroundings) -> (turn: Turn)
        ensures
            final(self).path_view() == old(self).path_view(),
            (final(self)@, turn@) == old(self)@.refresh(parameters@, world@),
    {
        match account_in(parameters) {
            Err(error) => finished(no_notices(), Err(error)),
            Ok(requested) => self.begin_refresh(requested, After::Reply, no_notices(), world),
        }
    }

    /// It is time to synchronize again: all accounts, where there are any.
    pub fn poll(&mut self, world: &Surroundings) -> (turn: Option<Turn>)
        ensures
            final(self).path_view() == old(self).path_view(),
            match turn {
                Some(turn) => old(self)@.tables.accounts.len() > 0 && (final(self)@, turn@) == old(
                    self,
                )@.begin_refresh(None, AfterView::Reply, Seq::empty(), world@),
                None => old(self)@.tables.accounts.len() == 0 && final(self)@ == old(self)@,
            },
    {
        let count: usize = self.database.stored_accounts().len();
        if count == 0 {
            None
        } else {
            Some(self.begin_refresh(None, After::Reply, no_notices(), world))
        }
    }

    fn begin_refresh(
        &mut self,
        requested: Option<String>,
        after: After,
        notices: Vec<Notice>,
        world: &Surroundings,
    ) -> (turn: Turn)
        ensures
            final(self).path_view() == old(self).path_view(),
            final(self)@.tables == old(self)@.tables,
            (final(self)@, turn@) == old(self)@.begin_refresh(
                optional_view(requested),
                after@,
                rows(notices@),
                world@,
            ),
    {
        if self.refreshing {
            return self.after_refresh(after, notices, Ok(busy_value()), world);
        }
        let mut accounts: Vec<AccountRow> = self.database.configured_accounts();
        if let Some(id) = &requested {
            let test = |account: &AccountRow| -> (answer: bool)
                ensures
                    answer == account_named(id@)(account@)
                {
                    text_eq(account.account_id.as_str(), id.as_str())
                };
            retain(&mut accounts, test, Ghost(account_named(id@)));
            assert(rows(accounts@).len() == accounts@.len());
            if accounts.len() == 0 {
                return self.after_refresh(after, notices, Err(account_missing()), world);
            }
        }
        let enabled = |account: &AccountRow| -> (answer: bool)
            ensures
                answer == is_enabled()(account@)
            {
                account.enabled
            };
        retain(&mut accounts, enabled, Ghost(is_enabled()));
        let mut waiting: Vec<String> = Vec::new();
        for i in 0..accounts.len()
            invariant
                waiting@.len() == i,
                forall|j: int|
                    0 <= j < i ==> (#[trigger] waiting@[j])@ == id_of()(accounts@[j]@),
        {
            waiting.push(accounts[i].account_id.clone());
        }
        assert(texts(waiting@) =~= rows(accounts@).map_values(id_of()));
        self.refreshing = true;
        let results: Vec<Json> = Vec::new();
        assert(array_view(results@) =~= Seq::<JsonView>::empty());
        self.next_account(waiting, results, after, notices, world)
    }

    fn after_refresh(
        &mut self,
        after: After,
        notices: Vec<Notice>,
        result: Result<Json>,
        world: &Surroundings,
    ) -> (turn: Turn)
        ensures
            final(self).path_view() == old(self).path_view(),
            final(self)@.tables == old(self)@.tables,
            (final(self)@, turn@) == old(self)@.after_refresh(
                after@,
                rows(notices@),
                crate::flow::json_result(result),
                world@,
            ),
    {
        match after {
            After::Reply => finished(notices, result),
            After::Add { account_id } => match result {
                Err(error) => self.release(notices, Err(error), world),
                Ok(sync) => {
                    let answer: Result<Json> = match self.account_value(account_id.as_str()) {
                        Some(account) => Ok(
                            Json::Object(
                                JsonObject::new().with("account", account).with("sync", sync),
                            ),
                        ),
                        None => Err(
                            CalendarError::new("internal_error", "Connected account disappeared"),
                        ),
                    };
                    self.release(notices, answer, world)
                },
            },
        }
    }

    fn next_account(
        &mut self,
        waiting: Vec<String>,
        results: Vec<Json>,
        after: After,
        notices: Vec<Notice>,
        world: &Surroundings,
    ) -> (turn: Turn)
        ensures
            final(self).path_view() == old(self).path_view(),
            final(self)@.tables == old(self)@.tables,
            (final(self)@, turn@) == old(self)@.next_account(
                texts(waiting@),
                array_view(results@),
                after@,
                rows(notices@),
                world@,
            ),
    {
        if waiting.len() == 0 {
            self.refreshing = false;
            let notices: Vec<Notice> = if results.len() > 0 {
                add_notice(notices, tell_agenda())
            } else {
                notices
            };
            let answer = Json::Object(
                JsonObject::new()
                    .with("started", Json::Bool(true))
                    .with("accounts", Json::Array(results)),
            );
            assert(answer@ == refreshed(array_view(results@)));
            return self.after_refresh(after, notices, Ok(answer), world);
        }
        let ghost queue = texts(waiting@);
        let mut waiting: Vec<String> = waiting;
        let id: String = waiting.remove(0);
        assert(texts(waiting@) =~= queue.drop_first());
        assert(id@ == queue[0]);
        if !holds(&self.syncing, id.as_str()) {
            let ghost before = texts(self.syncing@);
            self.syncing.push(id.clone());
            assert(texts(self.syncing@) =~= before.push(id@));
        }
        let notices: Vec<Notice> = add_notice(notices, self.tell_state(world.configured));
        Turn {
            notices,
            next: Next::Lookup {
                account_id: id.clone(),
                run: LookingUp::Sync {
                    refresh: Refresh { account_id: id, waiting, results, after },
                },
            },
        }
    }

    fn account_done(
        &mut self,
        refresh: Refresh,
        result: Result<()>,
        world: &Surroundings,
    ) -> (turn: Turn)
        ensures
            final(self).path_view() == old(self).path_view(),
            old(self)@.tables.wf() ==> final(self)@.tables.wf(),
            (final(self)@, turn@) == old(self)@.account_done(refresh@, unit_result(result), world@),
    {
        let id: String = refresh.account_id;
        let (code, message): (Option<String>, Option<String>) = match result {
            Ok(_) => (None, None),
            Err(error) => {
                let message: String = safe_message(error.message.as_str(), "Operation failed");
                (Some(error.code), Some(message))
            },
        };
        let shown_code: Option<&str> = match &code {
            Some(code) => Some(code.as_str()),
            None => None,
        };
        let shown_message: Option<&str> = match &message {
            Some(message) => Some(message.as_str()),
            None => None,
        };
        self.database.set_sync_result(
            id.as_str(),
            shown_code,
            shown_message,
            world.now.text.as_str(),
        );
        let test = |other: &String| -> (answer: bool)
            ensures
                answer == other_text(id@)(other@)
            {
                !text_eq(other.as_str(), id.as_str())
            };
        retain(&mut self.syncing, test, Ghost(other_text(id@)));
        let mut results: Vec<Json> = refresh.results;
        let ghost before = array_view(results@);
        let entry: Json = sync_value(id.as_str(), shown_message);
        results.push(entry);
        assert(array_view(results@) =~= before.push(entry@));
        let notices: Vec<Notice> = add_notice(no_notices(), self.tell_state(world.configured));
        assert(rows(notices@) =~= seq![self@.state_notice(world@.configured)]);
        self.next_account(refresh.waiting, results, refresh.after, notices, world)
    }

    /// An access token came in, or not.
    pub fn token_refreshed(
        &mut self,
        run: Refresh,
        result: Result<String>,
        world: &Surroundings,
    ) -> (turn: Turn)
        ensures
            final(self).path_view() == old(self).path_view(),
            old(self)@.tables.wf() ==> final(self)@.tables.wf(),
            (final(self)@, turn@) == old(self)@.token_refreshed(run@, text_result(result), world@),
    {
        match result {
            Err(error) => self.account_done(run, Err(error), world),
            Ok(access_token) => Turn {
                notices: no_notices(),
                next: Next::ListCalendars { run: Reading { refresh: run, access_token } },
            },
        }
    }

    /// The calendars of an account came in, or not.
    pub fn calendars_listed(
        &mut self,
        run: Reading,
        result: Result<Vec<CalendarEntry>>,
        world: &Surroundings,
    ) -> (turn: Turn)
        ensures
            final(self).path_view() == old(self).path_view(),
            old(self)@.tables.wf() ==> final(self)@.tables.wf(),
            (final(self)@, turn@) == old(self)@.calendars_listed(
                run@,
                calendars_result(result),
                world@,
            ),
    {
        let entries: Vec<CalendarEntry> = match result {
            Ok(entries) => entries,
            Err(error) => return self.account_done(run.refresh, Err(error), world),
        };
        if let Err(error) = self.database.replace_calendars(
            run.refresh.account_id.as_str(),
            &entries,
        ) {
            return self.account_done(run.refresh, Err(error), world);
        }
        let calendars: Vec<CalendarRow> = self.database.calendars(run.refresh.account_id.as_str());
        self.read_events(run, calendars, world)
    }

    fn read_events(
        &self,
        reading: Reading,
        calendars: Vec<CalendarRow>,
        world: &Surroundings,
    ) -> (turn: Turn)
        ensures
            (self@, turn@) == self@.read_events(reading@, rows(calendars@), world@),
    {
        if calendars.len() == 0 {
            return Turn { notices: no_notices(), next: Next::ListTaskLists { run: reading } };
        }
        let token: Option<String> = token_for(&calendars[0], &world.now.instant);
        let changes_only: bool = token.is_some();
        Turn {
            notices: no_notices(),
            next: Next::ListEvents {
                calendar_id: calendars[0].calendar_id.clone(),
                sync_token: token,
                run: ReadingEvents { reading, calendars, changes_only, replace: !changes_only },
            },
        }
    }

    /// The events of a calendar came in, or not.
    pub fn events_listed(
        &mut self,
        run: ReadingEvents,
        result: Result<(Vec<Json>, String)>,
        world: &Surroundings,
    ) -> (turn: Turn)
        ensures
            final(self).path_view() == old(self).path_view(),
            old(self)@.tables.wf() ==> final(self)@.tables.wf(),
            (final(self)@, turn@) == old(self)@.events_listed(run@, events_result(result), world@),
    {
        if run.calendars.len() == 0 {
            return self.read_events(run.reading, run.calendars, world);
        }
        match result {
            Err(error) => {
                let forgotten: bool = match error.http_status {
                    Some(status) => status == 410,
                    None => false,
                };
                if forgotten && run.changes_only {
                    return Turn {
                        notices: no_notices(),
                        next: Next::ListEvents {
                            calendar_id: run.calendars[0].calendar_id.clone(),
                            sync_token: None,
                            run: ReadingEvents {
                                reading: run.reading,
                                calendars: run.calendars,
                                changes_only: false,
                                replace: true,
                            },
                        },
                    };
                }
                self.account_done(run.reading.refresh, Err(error), world)
            },
            Ok((events, token)) => {
                let ghost all = rows(run.calendars@);
                let mut calendars: Vec<CalendarRow> = run.calendars;
                let calendar: CalendarRow = calendars.remove(0);
                assert(rows(calendars@) =~= all.drop_first());
                assert(calendar@ == all[0]);
                if let Err(error) = self.database.apply_events(
                    run.reading.refresh.account_id.as_str(),
                    calendar.calendar_id.as_str(),
                    &events,
                    token.as_str(),
                    run.replace,
                    world.now.text.as_str(),
                ) {
                    return self.account_done(run.reading.refresh, Err(error), world);
                }
                self.read_events(run.reading, calendars, world)
            },
        }
    }

    /// The task lists of an account came in, or not.
    pub fn task_lists_listed(
        &mut self,
        run: Reading,
        result: Result<Vec<TaskListEntry>>,
        world: &Surroundings,
    ) -> (turn: Turn)
        ensures
            final(self).path_view() == old(self).path_view(),
            old(self)@.tables.wf() ==> final(self)@.tables.wf(),
            (final(self)@, turn@) == old(self)@.task_lists_listed(
                run@,
                task_lists_result(result),
                world@,
            ),
    {
        match result {
            Err(error) => self.account_done(run.refresh, Err(error), world),
            Ok(lists) => {
                let tasks: Vec<(String, Vec<Json>)> = Vec::new();
                assert(tasks_by_list(tasks@) =~= Seq::<(Seq<char>, Seq<JsonView>)>::empty());
                assert(rows(lists@) =~= task_list_entries(lists@));
                self.read_tasks(run, lists, 0, tasks, world)
            },
        }
    }

    fn read_tasks(
        &mut self,
        reading: Reading,
        lists: Vec<TaskListEntry>,
        at: usize,
        tasks: Vec<(String, Vec<Json>)>,
        world: &Surroundings,
    ) -> (turn: Turn)
        ensures
            final(self).path_view() == old(self).path_view(),
            old(self)@.tables.wf() ==> final(self)@.tables.wf(),
            (final(self)@, turn@) == old(self)@.read_tasks(
                reading@,
                rows(lists@),
                at as int,
                tasks_by_list(tasks@),
                world@,
            ),
    {
        if at < lists.len() {
            return Turn {
                notices: no_notices(),
                next: Next::ListTasks {
                    task_list_id: lists[at].id.clone(),
                    run: ReadingTasks { reading, lists, position: at, tasks },
                },
            };
        }
        assert(rows(lists@) =~= task_list_entries(lists@));
        match self.database.replace_tasks(reading.refresh.account_id.as_str(), &lists, &tasks) {
            Err(error) => self.account_done(reading.refresh, Err(error), world),
            Ok(_) => self.account_done(reading.refresh, Ok(()), world),
        }
    }

    /// The tasks of a list came in, or not.
    pub fn tasks_listed(
        &mut self,
        run: ReadingTasks,
        result: Result<Vec<Json>>,
        world: &Surroundings,
    ) -> (turn: Turn)
        ensures
            final(self).path_view() == old(self).path_view(),
            old(self)@.tables.wf() ==> final(self)@.tables.wf(),
            (final(self)@, turn@) == old(self)@.tasks_listed(run@, tasks_result(result), world@),
    {
        let tasks: Vec<Json> = match result {
            Ok(tasks) => tasks,
            Err(error) => return self.account_done(run.reading.refresh, Err(error), world),
        };
        if run.position < run.lists.len() {
            let ghost before = tasks_by_list(run.tasks@);
            let ghost entry = (run.lists@[run.position as int]@.id, array_view(tasks@));
            let id: String = run.lists[run.position].id.clone();
            let mut collected: Vec<(String, Vec<Json>)> = run.tasks;
            collected.insert(0, (id, tasks));
            assert(tasks_by_list(collected@) =~= seq![entry] + before);
            self.read_tasks(run.reading, run.lists, run.position + 1, collected, world)
        } else {
            self.read_tasks(run.reading, run.lists, run.position, run.tasks, world)
        }
    }

    /// An agenda item is to be opened in the browser.
    pub fn open_item(&self, parameters: &Json) -> (turn: Turn)
        ensures
            (self@, turn@) == self@.open_item(parameters@),
    {
        let item_id: &String = match parameters.get_word("itemId") {
            Some(item_id) => item_id,
            None => return finished(
                no_notices(),
                Err(CalendarError::new("invalid_params", "itemId is required")),
            ),
        };
        match self.database.item_url(item_id.as_str()) {
            None => finished(
                no_notices(),
                Err(CalendarError::new("item_not_found", "Agenda item has no link")),
            ),
            Some(url) => if https_link(url.as_str()) {
                Turn {
                    notices: no_notices(),
                    next: Next::OpenBrowser { url, item_id: item_id.clone() },
                }
            } else {
                finished(
                    no_notices(),
                    Err(CalendarError::new("unsafe_url", "Agenda item link is not HTTPS")),
                )
            },
        }
    }

    /// An agenda item was opened, or not.
    pub fn browser_opened(&self, item_id: String, result: BrowserOpenResult) -> (turn: Turn)
        ensures
            (self@, turn@) == self@.browser_opened(item_id@, result),
    {
        let answer: Result<Json> = match result {
            BrowserOpenResult::Opened => Ok(
                Json::Object(
                    JsonObject::new()
                        .with("itemId", Json::Text(item_id))
                        .with("opened", Json::Bool(true)),
                ),
            ),
            BrowserOpenResult::BraveHandoffFailed => Err(
                CalendarError::new(
                    "browser_handoff_failed",
                    "Could not open agenda item; fully exit and reopen Brave, then try again",
                ),
            ),
            BrowserOpenResult::Failed => Err(
                CalendarError::new("browser_open_failed", "Could not open agenda item"),
            ),
        };
        finished(no_notices(), answer)
    }

    /// The agenda that a request asks for.
    pub fn agenda(&self, parameters: &Json, configured: bool) -> (answer: Result<Json>)
        ensures
            self@.agenda_result(parameters@, configured, crate::flow::json_result(answer)),
    {
        let (start, end): (&String, &String) = match (
            parameters.get_text("start"),
            parameters.get_text("end"),
        ) {
            (Some(start), Some(end)) => (start, end),
            _ => return Err(CalendarError::new("invalid_params", "start and end must be strings")),
        };
        let filter: &str = match parameters.get("account") {
            None => "all",
            Some(value) => match value.as_str() {
                Some(account) => account.as_str(),
                None => return Err(
                    CalendarError::new("invalid_params", "account must be all or an account id"),
                ),
            },
        };
        self.database.agenda(start.as_str(), end.as_str(), filter, &self.syncing, configured)
    }

    /// Begins a request.
    pub fn dispatch(
        &mut self,
        method: &str,
        parameters: &Json,
        world: &Surroundings,
    ) -> (turn: Turn)
        ensures
            final(self).path_view() == old(self).path_view(),
            old(self)@.dispatched(method@, parameters@, world@, (final(self)@, turn@)),
    {
        if text_eq(method, "get_state") || text_eq(method, "status") {
            finished(no_notices(), Ok(self.state(world.configured)))
        } else if text_eq(method, "get_agenda") || text_eq(method, "list_agenda") {
            let answer: Result<Json> = self.agenda(parameters, world.configured);
            let ghost result = crate::flow::json_result(answer);
            let turn: Turn = finished(no_notices(), answer);
            assert((self@, turn@) == self@.answered(Seq::empty(), result));
            turn
        } else if text_eq(method, "refresh") {
            self.refresh(parameters, world)
        } else if text_eq(method, "add_account") || text_eq(method, "add") {
            self.add_account(parameters, world)
        } else if text_eq(method, "reconnect_account") || text_eq(method, "reconnect") {
            self.reconnect_account(parameters, world)
        } else if text_eq(method, "cancel_add_account") || text_eq(method, "cancel") {
            self.cancel_add_account(world)
        } else if text_eq(method, "remove_account") || text_eq(method, "remove") {
            self.remove_account(parameters)
        } else if text_eq(method, "open_item") {
            self.open_item(parameters)
        } else {
            finished(
                no_notices(),
                Err(
                    CalendarError::new(
                        "method_not_found",
                        "Unknown method: ".to_owned().concat(method).as_str(),
                    ),
                ),
            )
        }
    }
}

} // verus!
