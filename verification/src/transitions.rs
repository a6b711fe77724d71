//! What the service makes of a request, and of each thing that it needed for one.
use vstd::prelude::*;

use crate::browser::BrowserOpenResult;
use crate::entries::{AuthView, CalendarEntryView, TaskListEntryView};
use crate::error::{failure, shown_message, ErrorView};
use crate::flow::{
    AfterView, AuthorizingView, ClearingView, LookingUpView, NextView, NoticeView,
    ReadingEventsView, ReadingTasksView, ReadingView, RefreshView, RevokingView, StoringView,
    SurroundingsView, TurnView,
};
use crate::json::JsonView;
use crate::link::is_https;
use crate::oauth::{after_cancel, after_finish, can_finish, sign_in_cancelled, OAuthPhase};
use crate::records::{AccountView, CalendarRowView};
use crate::state::progress;
use crate::table::first;
use crate::tables::{named_account, with_subject, Tables, TasksByList};
use crate::text::{first_chars, trimmed};
use crate::time::{is_older, rfc3339, Timestamp};

verus! {

/// The state of the service: the cache, the accounts that are being synchronized, whether a refresh
/// is under way, and how far a sign-in has come.
#[verifier::ext_equal]
pub struct ServiceView {
    pub tables: Tables,
    pub syncing: Seq<Seq<char>>,
    pub refreshing: bool,
    pub phase: Option<OAuthPhase>,
}

/// The service after a step, and what the step holds.
pub type Step = (ServiceView, TurnView);

/// What becomes of a request.
pub type Answer = std::result::Result<JsonView, ErrorView>;

/// The fields that tell of a sign-in.
pub open spec fn sign_in_fields(
    fields: Map<Seq<char>, JsonView>,
    phase: Option<OAuthPhase>,
) -> Map<Seq<char>, JsonView> {
    fields
        .insert("oauthInProgress"@, JsonView::Bool(phase is Some))
        .insert("oauthCancelable"@, JsonView::Bool(phase == Some(OAuthPhase::Waiting)))
        .insert("oauthCancelling"@, JsonView::Bool(phase == Some(OAuthPhase::Cancelled)))
        .insert("oauthFinishing"@, JsonView::Bool(phase == Some(OAuthPhase::Finishing)))
}

/// Tells clients that agendas may have changed.
pub open spec fn agenda_notice() -> NoticeView {
    NoticeView {
        event: "agenda_changed"@,
        data: JsonView::Object(
            Map::empty().insert("start"@, JsonView::Null).insert("end"@, JsonView::Null),
        ),
    }
}

/// A text other than one.
pub open spec fn other_text(text: Seq<char>) -> spec_fn(Seq<char>) -> bool {
    |candidate: Seq<char>| candidate != text
}

/// An account that is named.
pub open spec fn account_named(id: Seq<char>) -> spec_fn(AccountView) -> bool {
    |account: AccountView| account.account_id == id
}

/// An account that is enabled.
pub open spec fn is_enabled() -> spec_fn(AccountView) -> bool {
    |account: AccountView| account.enabled
}

/// The identity of an account.
pub open spec fn id_of() -> spec_fn(AccountView) -> Seq<char> {
    |account: AccountView| account.account_id
}

/// Says that a request lacks an account.
pub open spec fn account_required() -> ErrorView {
    failure("invalid_params"@, "accountId is required"@)
}

/// Says that no account has the identity.
pub open spec fn no_account() -> ErrorView {
    failure("account_not_found"@, "Google account was not found"@)
}

/// Says that another sign-in is under way.
pub open spec fn sign_in_busy() -> ErrorView {
    failure("oauth_in_progress"@, "Google sign-in is already in progress"@)
}

/// Says that another account signed in than the one that was to.
pub open spec fn wrong_account(email: Seq<char>) -> ErrorView {
    failure(
        "oauth_account_mismatch"@,
        "Wrong Google account selected. Sign in as "@ + email + "."@,
    )
}

/// How an account was synchronized.
pub open spec fn sync_result(id: Seq<char>, error: Option<Seq<char>>) -> JsonView {
    JsonView::Object(
        Map::empty()
            .insert("id"@, JsonView::Text(id))
            .insert("ok"@, JsonView::Bool(error is None))
            .insert("error"@, crate::json::text_or_null(error)),
    )
}

/// The answer to a refresh that took place.
pub open spec fn refreshed(results: Seq<JsonView>) -> JsonView {
    JsonView::Object(
        Map::empty()
            .insert("started"@, JsonView::Bool(true))
            .insert("accounts"@, JsonView::Array(results)),
    )
}

/// The answer to a refresh while another is under way.
pub open spec fn already_syncing() -> JsonView {
    JsonView::Object(
        Map::empty()
            .insert("started"@, JsonView::Bool(false))
            .insert("reason"@, JsonView::Text("already_syncing"@))
            .insert("accounts"@, JsonView::Array(Seq::empty())),
    )
}

/// The label that a request asks for: without white space around it, and not too long.
pub open spec fn chosen_label(parameters: JsonView) -> Option<Seq<char>> {
    match parameters.field_text("label"@) {
        Some(label) => if trimmed(label).len() > 0 {
            Some(first_chars(trimmed(label), 100))
        } else {
            None
        },
        None => None,
    }
}

/// Says that a refresh asks for no account that there can be.
pub open spec fn account_not_text() -> ErrorView {
    failure("invalid_params"@, "accountId must be a string"@)
}

/// The account that a refresh asks for, where it asks for one.
pub open spec fn requested_account(parameters: JsonView) -> std::result::Result<
    Option<Seq<char>>,
    ErrorView,
> {
    match parameters.field("accountId"@) {
        None => Ok(None),
        Some(value) => match value.text() {
            Some(id) if id.len() > 0 => Ok(Some(id)),
            _ => Err(account_not_text()),
        },
    }
}

/// The range and the accounts that an agenda request asks for.
pub open spec fn agenda_parameters(parameters: JsonView) -> std::result::Result<
    (Seq<char>, Seq<char>, Seq<char>),
    ErrorView,
> {
    match (parameters.field_text("start"@), parameters.field_text("end"@)) {
        (Some(start), Some(end)) => match parameters.field("account"@) {
            None => Ok((start, end, "all"@)),
            Some(value) => match value.text() {
                Some(account) => Ok((start, end, account)),
                None => Err(failure("invalid_params"@, "account must be all or an account id"@)),
            },
        },
        _ => Err(failure("invalid_params"@, "start and end must be strings"@)),
    }
}

/// The token from which the events of a calendar go on: none where all of them are due again, after
/// thirty days.
pub open spec fn usable_token(calendar: CalendarRowView, now: Timestamp) -> Option<Seq<char>> {
    match calendar.full_sync_at {
        Some(text) => match rfc3339(text) {
            Some(time) => if is_older(time, now, 30) {
                None
            } else {
                calendar.sync_token
            },
            None => calendar.sync_token,
        },
        None => calendar.sync_token,
    }
}

impl ServiceView {
    /// The state that clients see.
    pub open spec fn state(self, configured: bool) -> JsonView {
        JsonView::Object(
            sign_in_fields(self.tables.state_fields(self.syncing, configured), self.phase),
        )
    }

    /// Tells clients the state.
    pub open spec fn state_notice(self, configured: bool) -> NoticeView {
        NoticeView { event: "state_changed"@, data: self.state(configured) }
    }

    /// An account as clients see it.
    pub open spec fn account(self, id: Seq<char>) -> Option<JsonView> {
        match first(self.tables.configured_accounts(), account_named(id)) {
            Some(account) => Some(self.tables.account_json(self.syncing)(account)),
            None => None,
        }
    }

    /// The request has its answer.
    pub open spec fn answered(self, notices: Seq<NoticeView>, result: Answer) -> Step {
        (self, TurnView { notices, next: NextView::Finished { result } })
    }

    /// The request needs something.
    pub open spec fn needs(self, notices: Seq<NoticeView>, next: NextView) -> Step {
        (self, TurnView { notices, next })
    }

    /// The request has its answer, and its sign-in is over.
    pub open spec fn released(
        self,
        notices: Seq<NoticeView>,
        result: Answer,
        world: SurroundingsView,
    ) -> Step {
        let after = ServiceView { phase: None, ..self };
        after.answered(notices.push(after.state_notice(world.configured)), result)
    }

    /// A sign-in begins, unless one is under way.
    pub open spec fn begin_sign_in(self, run: AuthorizingView, world: SurroundingsView) -> Step {
        if self.phase is Some {
            self.answered(Seq::empty(), Err(sign_in_busy()))
        } else {
            let after = ServiceView { phase: Some(OAuthPhase::Waiting), ..self };
            after.needs(
                seq![after.state_notice(world.configured)],
                NextView::Authorize { run },
            )
        }
    }

    /// An account is to be added.
    pub open spec fn add_account(self, parameters: JsonView, world: SurroundingsView) -> Step {
        self.begin_sign_in(AuthorizingView::Add { label: chosen_label(parameters) }, world)
    }

    /// An account is to sign in again.
    pub open spec fn reconnect_account(
        self,
        parameters: JsonView,
        world: SurroundingsView,
    ) -> Step {
        match parameters.field_word("accountId"@) {
            None => self.answered(Seq::empty(), Err(account_required())),
            Some(id) => match first(self.tables.accounts, named_account(id)) {
                None => self.answered(Seq::empty(), Err(no_account())),
                Some(account) => self.begin_sign_in(
                    AuthorizingView::Reconnect { account: account.row },
                    world,
                ),
            },
        }
    }

    /// The user signed in, or not.
    pub open spec fn authorized(
        self,
        run: AuthorizingView,
        result: std::result::Result<AuthView, ErrorView>,
        world: SurroundingsView,
    ) -> Step {
        match result {
            Err(error) => self.released(Seq::empty(), Err(error), world),
            Ok(auth) => match run {
                AuthorizingView::Add { label } => if self.phase is None || !can_finish(
                    self.phase->0,
                ) {
                    self.released(Seq::empty(), Err(sign_in_cancelled()), world)
                } else {
                    let after = ServiceView { phase: Some(after_finish(self.phase->0)), ..self };
                    let known = first(self.tables.accounts, with_subject(auth.subject));
                    let id = match known {
                        Some(account) => account.row.account_id,
                        None => world.fresh_id,
                    };
                    after.needs(
                        Seq::empty(),
                        NextView::Store {
                            account_id: id,
                            refresh_token: auth.refresh_token,
                            run: StoringView {
                                account_id: id,
                                subject: auth.subject,
                                email: auth.email,
                                label: match label {
                                    Some(label) => label,
                                    None => auth.email,
                                },
                                known: known is Some,
                                reconnect: false,
                            },
                        },
                    )
                },
                AuthorizingView::Reconnect { account } => if auth.subject != account.google_sub {
                    self.needs(
                        Seq::empty(),
                        NextView::Revoke {
                            refresh_token: auth.refresh_token,
                            run: RevokingView::Stray { email: account.email },
                        },
                    )
                } else {
                    self.needs(
                        Seq::empty(),
                        NextView::Store {
                            account_id: account.account_id,
                            refresh_token: auth.refresh_token,
                            run: StoringView {
                                account_id: account.account_id,
                                subject: auth.subject,
                                email: auth.email,
                                label: account.label,
                                known: true,
                                reconnect: true,
                            },
                        },
                    )
                },
            },
        }
    }

    /// A refresh token was kept, or not.
    pub open spec fn stored(
        self,
        run: StoringView,
        result: std::result::Result<(), ErrorView>,
        world: SurroundingsView,
    ) -> Step {
        match result {
            Err(error) => self.released(Seq::empty(), Err(error), world),
            Ok(_) => match self.tables.upsert_account(
                run.account_id,
                run.subject,
                run.email,
                run.label,
                world.now,
            ) {
                Err(error) => if run.known {
                    self.released(Seq::empty(), Err(error), world)
                } else {
                    self.needs(
                        Seq::empty(),
                        NextView::Clear {
                            account_id: run.account_id,
                            run: ClearingView::Undo { error },
                        },
                    )
                },
                Ok(tables) => {
                    let after = ServiceView { tables, ..self };
                    let notices = seq![after.state_notice(world.configured)];
                    if run.reconnect {
                        after.released(
                            notices,
                            match after.account(run.account_id) {
                                Some(account) => Ok(
                                    JsonView::Object(
                                        Map::empty()
                                            .insert("account"@, account)
                                            .insert("reconnected"@, JsonView::Bool(true)),
                                    ),
                                ),
                                None => Err(
                                    failure("internal_error"@, "Reconnected account disappeared"@),
                                ),
                            },
                            world,
                        )
                    } else if run.account_id.len() == 0 {
                        after.released(notices, Err(account_not_text()), world)
                    } else {
                        after.begin_refresh(
                            Some(run.account_id),
                            AfterView::Add { account_id: run.account_id },
                            notices,
                            world,
                        )
                    }
                },
            },
        }
    }

    /// The user gives a sign-in up.
    pub open spec fn cancel_add_account(self, world: SurroundingsView) -> Step {
        match self.phase {
            None => self.answered(
                Seq::empty(),
                Ok(
                    JsonView::Object(
                        Map::empty()
                            .insert("cancelled"@, JsonView::Bool(false))
                            .insert("reason"@, JsonView::Text("not_in_progress"@)),
                    ),
                ),
            ),
            Some(phase) => {
                let after = ServiceView { phase: Some(after_cancel(phase)), ..self };
                match phase {
                    OAuthPhase::Waiting => after.answered(
                        seq![after.state_notice(world.configured)],
                        Ok(
                            JsonView::Object(
                                Map::empty().insert("cancelled"@, JsonView::Bool(true)),
                            ),
                        ),
                    ),
                    OAuthPhase::Cancelled => after.answered(
                        Seq::empty(),
                        Ok(
                            JsonView::Object(
                                Map::empty()
                                    .insert("cancelled"@, JsonView::Bool(true))
                                    .insert("reason"@, JsonView::Text("already_cancelled"@)),
                            ),
                        ),
                    ),
                    OAuthPhase::Finishing => after.answered(
                        seq![after.state_notice(world.configured)],
                        Ok(
                            JsonView::Object(
                                Map::empty()
                                    .insert("cancelled"@, JsonView::Bool(false))
                                    .insert("reason"@, JsonView::Text("finishing"@)),
                            ),
                        ),
                    ),
                }
            },
        }
    }

    /// An account is to be removed.
    pub open spec fn remove_account(self, parameters: JsonView) -> Step {
        match parameters.field_word("accountId"@) {
            None => self.answered(Seq::empty(), Err(account_required())),
            Some(id) => if self.tables.has_account(id) {
                self.needs(
                    Seq::empty(),
                    NextView::Lookup {
                        account_id: id,
                        run: LookingUpView::Remove { account_id: id },
                    },
                )
            } else {
                self.answered(Seq::empty(), Err(no_account()))
            },
        }
    }

    /// A refresh token was read, or not.
    pub open spec fn looked_up(
        self,
        run: LookingUpView,
        result: std::result::Result<Seq<char>, ErrorView>,
        world: SurroundingsView,
    ) -> Step {
        match run {
            LookingUpView::Remove { account_id } => match result {
                Ok(refresh_token) => self.needs(
                    Seq::empty(),
                    NextView::Revoke { refresh_token, run: RevokingView::Remove { account_id } },
                ),
                Err(_) => self.needs(
                    Seq::empty(),
                    NextView::Clear {
                        account_id,
                        run: ClearingView::Remove { account_id, revoked: false },
                    },
                ),
            },
            LookingUpView::Sync { refresh } => match result {
                Ok(refresh_token) => self.needs(
                    Seq::empty(),
                    NextView::RefreshToken { refresh_token, run: refresh },
                ),
                Err(error) => self.account_done(refresh, Err(error), world),
            },
        }
    }

    /// A refresh token was given back, or not.
    pub open spec fn revoked(
        self,
        run: RevokingView,
        given_back: bool,
        world: SurroundingsView,
    ) -> Step {
        match run {
            RevokingView::Stray { email } => self.released(
                Seq::empty(),
                Err(wrong_account(email)),
                world,
            ),
            RevokingView::Remove { account_id } => self.needs(
                Seq::empty(),
                NextView::Clear {
                    account_id,
                    run: ClearingView::Remove { account_id, revoked: given_back },
                },
            ),
        }
    }

    /// A refresh token was dropped, or not.
    pub open spec fn cleared(
        self,
        run: ClearingView,
        result: std::result::Result<(), ErrorView>,
        world: SurroundingsView,
    ) -> Step {
        match run {
            ClearingView::Undo { error } => self.released(Seq::empty(), Err(error), world),
            ClearingView::Remove { account_id, revoked } => match result {
                Err(error) => self.answered(Seq::empty(), Err(error)),
                Ok(_) => {
                    let after = ServiceView {
                        tables: self.tables.delete_account(account_id),
                        ..self
                    };
                    after.answered(
                        seq![after.state_notice(world.configured), agenda_notice()],
                        Ok(
                            JsonView::Object(
                                Map::empty()
                                    .insert("accountId"@, JsonView::Text(account_id))
                                    .insert(
                                        "removed"@,
                                        JsonView::Bool(self.tables.has_account(account_id)),
                                    )
                                    .insert("revoked"@, JsonView::Bool(revoked)),
                            ),
                        ),
                    )
                },
            },
        }
    }

    /// Accounts are to be synchronized.
    pub open spec fn refresh(self, parameters: JsonView, world: SurroundingsView) -> Step {
        match requested_account(parameters) {
            Err(error) => self.answered(Seq::empty(), Err(error)),
            Ok(requested) => self.begin_refresh(requested, AfterView::Reply, Seq::empty(), world),
        }
    }

    /// A refresh begins, unless one is under way.
    pub open spec fn begin_refresh(
        self,
        requested: Option<Seq<char>>,
        after: AfterView,
        notices: Seq<NoticeView>,
        world: SurroundingsView,
    ) -> Step {
        let accounts = self.tables.configured_accounts();
        let chosen = match requested {
            Some(id) => accounts.filter(account_named(id)),
            None => accounts,
        };
        if self.refreshing {
            self.after_refresh(after, notices, Ok(already_syncing()), world)
        } else if requested is Some && chosen.len() == 0 {
            self.after_refresh(after, notices, Err(no_account()), world)
        } else {
            (ServiceView { refreshing: true, ..self }).next_account(
                chosen.filter(is_enabled()).map_values(id_of()),
                Seq::empty(),
                after,
                notices,
                world,
            )
        }
    }

    /// What a refresh leads to.
    pub open spec fn after_refresh(
        self,
        after: AfterView,
        notices: Seq<NoticeView>,
        result: Answer,
        world: SurroundingsView,
    ) -> Step {
        match after {
            AfterView::Reply => self.answered(notices, result),
            AfterView::Add { account_id } => match result {
                Err(error) => self.released(notices, Err(error), world),
                Ok(sync) => self.released(
                    notices,
                    match self.account(account_id) {
                        Some(account) => Ok(
                            JsonView::Object(
                                Map::empty().insert("account"@, account).insert("sync"@, sync),
                            ),
                        ),
                        None => Err(failure("internal_error"@, "Connected account disappeared"@)),
                    },
                    world,
                ),
            },
        }
    }

    /// The next account is synchronized, or the refresh ends.
    pub open spec fn next_account(
        self,
        waiting: Seq<Seq<char>>,
        results: Seq<JsonView>,
        after: AfterView,
        notices: Seq<NoticeView>,
        world: SurroundingsView,
    ) -> Step {
        if waiting.len() == 0 {
            let done = ServiceView { refreshing: false, ..self };
            done.after_refresh(
                after,
                if results.len() > 0 {
                    notices.push(agenda_notice())
                } else {
                    notices
                },
                Ok(refreshed(results)),
                world,
            )
        } else {
            let id = waiting[0];
            let busy = ServiceView {
                syncing: if self.syncing.contains(id) {
                    self.syncing
                } else {
                    self.syncing.push(id)
                },
                ..self
            };
            busy.needs(
                notices.push(busy.state_notice(world.configured)),
                NextView::Lookup {
                    account_id: id,
                    run: LookingUpView::Sync {
                        refresh: RefreshView {
                            account_id: id,
                            waiting: waiting.drop_first(),
                            results,
                            after,
                        },
                    },
                },
            )
        }
    }

    /// An account was synchronized, or could not be: the outcome is noted, and the next one comes.
    pub open spec fn account_done(
        self,
        refresh: RefreshView,
        result: std::result::Result<(), ErrorView>,
        world: SurroundingsView,
    ) -> Step {
        let id = refresh.account_id;
        let message = match result {
            Ok(_) => None,
            Err(error) => Some(shown_message(error.message, "Operation failed"@)),
        };
        let code = match result {
            Ok(_) => None,
            Err(error) => Some(error.code),
        };
        let after = ServiceView {
            tables: self.tables.set_sync_result(id, code, message, world.now),
            syncing: self.syncing.filter(other_text(id)),
            ..self
        };
        after.next_account(
            refresh.waiting,
            refresh.results.push(sync_result(id, message)),
            refresh.after,
            seq![after.state_notice(world.configured)],
            world,
        )
    }

    /// An access token came in, or not.
    pub open spec fn token_refreshed(
        self,
        run: RefreshView,
        result: std::result::Result<Seq<char>, ErrorView>,
        world: SurroundingsView,
    ) -> Step {
        match result {
            Err(error) => self.account_done(run, Err(error), world),
            Ok(access_token) => self.needs(
                Seq::empty(),
                NextView::ListCalendars { run: ReadingView { refresh: run, access_token } },
            ),
        }
    }

    /// The calendars of an account came in, or not.
    pub open spec fn calendars_listed(
        self,
        run: ReadingView,
        result: std::result::Result<Seq<CalendarEntryView>, ErrorView>,
        world: SurroundingsView,
    ) -> Step {
        match result {
            Err(error) => self.account_done(run.refresh, Err(error), world),
            Ok(entries) => match self.tables.replace_calendars(run.refresh.account_id, entries) {
                Err(error) => self.account_done(run.refresh, Err(error), world),
                Ok(tables) => (ServiceView { tables, ..self }).read_events(
                    run,
                    tables.calendars_of(run.refresh.account_id).map_values(progress()),
                    world,
                ),
            },
        }
    }

    /// The events of the next calendar are asked for, or the task lists.
    pub open spec fn read_events(
        self,
        reading: ReadingView,
        calendars: Seq<CalendarRowView>,
        world: SurroundingsView,
    ) -> Step {
        if calendars.len() == 0 {
            self.needs(Seq::empty(), NextView::ListTaskLists { run: reading })
        } else {
            let token = usable_token(calendars[0], world.instant);
            self.needs(
                Seq::empty(),
                NextView::ListEvents {
                    calendar_id: calendars[0].calendar_id,
                    sync_token: token,
                    run: ReadingEventsView {
                        reading,
                        calendars,
                        changes_only: token is Some,
                        replace: token is None,
                    },
                },
            )
        }
    }

    /// The events of a calendar came in, or not. Where Google has forgotten the token, all events
    /// are asked for.
    pub open spec fn events_listed(
        self,
        run: ReadingEventsView,
        result: std::result::Result<(Seq<JsonView>, Seq<char>), ErrorView>,
        world: SurroundingsView,
    ) -> Step {
        let refresh = run.reading.refresh;
        if run.calendars.len() == 0 {
            self.read_events(run.reading, run.calendars, world)
        } else {
            match result {
                Err(error) => if error.http_status == Some(410u16) && run.changes_only {
                    self.needs(
                        Seq::empty(),
                        NextView::ListEvents {
                            calendar_id: run.calendars[0].calendar_id,
                            sync_token: None,
                            run: ReadingEventsView { changes_only: false, replace: true, ..run },
                        },
                    )
                } else {
                    self.account_done(refresh, Err(error), world)
                },
                Ok((events, token)) => match self.tables.apply_events(
                    refresh.account_id,
                    run.calendars[0].calendar_id,
                    events,
                    token,
                    run.replace,
                    world.now,
                ) {
                    Err(error) => self.account_done(refresh, Err(error), world),
                    Ok(tables) => (ServiceView { tables, ..self }).read_events(
                        run.reading,
                        run.calendars.drop_first(),
                        world,
                    ),
                },
            }
        }
    }

    /// The task lists of an account came in, or not.
    pub open spec fn task_lists_listed(
        self,
        run: ReadingView,
        result: std::result::Result<Seq<TaskListEntryView>, ErrorView>,
        world: SurroundingsView,
    ) -> Step {
        match result {
            Err(error) => self.account_done(run.refresh, Err(error), world),
            Ok(lists) => self.read_tasks(run, lists, 0, Seq::empty(), world),
        }
    }

    /// The tasks of the next list are asked for, or all of them are written down.
    pub open spec fn read_tasks(
        self,
        reading: ReadingView,
        lists: Seq<TaskListEntryView>,
        position: int,
        tasks: TasksByList,
        world: SurroundingsView,
    ) -> Step {
        let refresh = reading.refresh;
        if position < lists.len() {
            self.needs(
                Seq::empty(),
                NextView::ListTasks {
                    task_list_id: lists[position].id,
                    run: ReadingTasksView { reading, lists, position, tasks },
                },
            )
        } else {
            match self.tables.replace_tasks(refresh.account_id, lists, tasks) {
                Err(error) => self.account_done(refresh, Err(error), world),
                Ok(tables) => (ServiceView { tables, ..self }).account_done(
                    refresh,
                    Ok(()),
                    world,
                ),
            }
        }
    }

    /// The tasks of a list came in, or not.
    pub open spec fn tasks_listed(
        self,
        run: ReadingTasksView,
        result: std::result::Result<Seq<JsonView>, ErrorView>,
        world: SurroundingsView,
    ) -> Step {
        match result {
            Err(error) => self.account_done(run.reading.refresh, Err(error), world),
            Ok(tasks) => if run.position < run.lists.len() {
                self.read_tasks(
                    run.reading,
                    run.lists,
                    run.position + 1,
                    seq![(run.lists[run.position].id, tasks)] + run.tasks,
                    world,
                )
            } else {
                self.read_tasks(run.reading, run.lists, run.position, run.tasks, world)
            },
        }
    }

    /// An agenda item is to be opened in the browser.
    pub open spec fn open_item(self, parameters: JsonView) -> Step {
        match parameters.field_word("itemId"@) {
            None => self.answered(
                Seq::empty(),
                Err(failure("invalid_params"@, "itemId is required"@)),
            ),
            Some(item_id) => match self.tables.item_url(item_id) {
                None => self.answered(
                    Seq::empty(),
                    Err(failure("item_not_found"@, "Agenda item has no link"@)),
                ),
                Some(url) => if is_https(url) {
                    self.needs(Seq::empty(), NextView::OpenBrowser { url, item_id })
                } else {
                    self.answered(
                        Seq::empty(),
                        Err(failure("unsafe_url"@, "Agenda item link is not HTTPS"@)),
                    )
                },
            },
        }
    }

    /// An agenda item was opened, or not.
    pub open spec fn browser_opened(self, item_id: Seq<char>, result: BrowserOpenResult) -> Step {
        self.answered(
            Seq::empty(),
            match result {
                BrowserOpenResult::Opened => Ok(
                    JsonView::Object(
                        Map::empty()
                            .insert("itemId"@, JsonView::Text(item_id))
                            .insert("opened"@, JsonView::Bool(true)),
                    ),
                ),
                BrowserOpenResult::BraveHandoffFailed => Err(
                    failure(
                        "browser_handoff_failed"@,
                        "Could not open agenda item; fully exit and reopen Brave, then try again"@,
                    ),
                ),
                BrowserOpenResult::Failed => Err(
                    failure("browser_open_failed"@, "Could not open agenda item"@),
                ),
            },
        )
    }

    /// Whether an agenda request can have had a result.
    pub open spec fn agenda_result(
        self,
        parameters: JsonView,
        configured: bool,
        result: Answer,
    ) -> bool {
        match agenda_parameters(parameters) {
            Err(error) => result == Err::<JsonView, ErrorView>(error),
            Ok((start, end, filter)) => self.tables.agenda_result(
                start,
                end,
                filter,
                self.syncing,
                configured,
                result,
            ),
        }
    }

    /// Whether a request can have begun with a step. All but the agenda, which depends on the local
    /// time zone and the clock, can begin with one step only.
    pub open spec fn dispatched(
        self,
        method: Seq<char>,
        parameters: JsonView,
        world: SurroundingsView,
        step: Step,
    ) -> bool {
        if method == "get_state"@ || method == "status"@ {
            step == self.answered(Seq::empty(), Ok(self.state(world.configured)))
        } else if method == "get_agenda"@ || method == "list_agenda"@ {
            exists|result: Answer|
                self.agenda_result(parameters, world.configured, result) && step
                    == #[trigger] self.answered(Seq::empty(), result)
        } else if method == "refresh"@ {
            step == self.refresh(parameters, world)
        } else if method == "add_account"@ || method == "add"@ {
            step == self.add_account(parameters, world)
        } else if method == "reconnect_account"@ || method == "reconnect"@ {
            step == self.reconnect_account(parameters, world)
        } else if method == "cancel_add_account"@ || method == "cancel"@ {
            step == self.cancel_add_account(world)
        } else if method == "remove_account"@ || method == "remove"@ {
            step == self.remove_account(parameters)
        } else if method == "open_item"@ {
            step == self.open_item(parameters)
        } else {
            step == self.answered(
                Seq::empty(),
                Err(failure("method_not_found"@, "Unknown method: "@ + method)),
            )
        }
    }
}

} // verus!
