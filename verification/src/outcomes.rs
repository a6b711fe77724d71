//! What requests come to, step by step.
use vstd::prelude::*;

use crate::browser::BrowserOpenResult;
use crate::entries::{AuthView, CalendarEntryView, TaskListEntryView};
use crate::error::{shown_message, ErrorView};
use crate::flow::{
    AfterView, AuthorizingView, ClearingView, LookingUpView, NextView, NoticeView,
    ReadingEventsView, ReadingTasksView, ReadingView, RefreshView, RevokingView, StoringView,
    SurroundingsView,
};
use crate::json::JsonView;
use crate::link::is_https;
use crate::oauth::OAuthPhase;
use crate::order::sorted_same_items;
use crate::records::{AccountView, CalendarRowView};
use crate::state::{account_of, account_rank};
use crate::table::{any, filter_rows, first, first_none, unique};
use crate::tables::{account_key, named_account, subject_key, with_subject, Tables, TasksByList};
use crate::transitions::{
    account_named, id_of, is_enabled, refreshed, sync_result, ServiceView, Step,
};

verus! {

/// The accounts that a step goes on to synchronize: the one whose credentials it asks for, and those
/// that wait.
pub open spec fn accounts_ahead(next: NextView) -> Seq<Seq<char>> {
    match next {
        NextView::Lookup { account_id, run: LookingUpView::Sync { refresh } } => seq![
            refresh.account_id,
        ] + refresh.waiting,
        _ => Seq::empty(),
    }
}

/// Whether an account is one that a request asks for: any, or the one that it names.
pub open spec fn is_asked_for(requested: Option<Seq<char>>, id: Seq<char>) -> bool {
    requested matches Some(name) ==> id == name
}

/// A refresh that begins goes on to synchronize exactly the enabled accounts that it is asked for:
/// every one of them, whatever became of its last synchronization, and no disabled one. It begins
/// with the credentials of the first. One that names an account that is not there is refused, and
/// changes nothing.
pub proof fn refresh_covers_enabled_accounts(
    service: ServiceView,
    requested: Option<Seq<char>>,
    notices: Seq<NoticeView>,
    world: SurroundingsView,
    id: Seq<char>,
)
    requires
        !service.refreshing,
    ensures
        ({
            let step = service.begin_refresh(requested, AfterView::Reply, notices, world);
            let ahead = accounts_ahead(step.1.next);
            let known = exists|i: int|
                0 <= i < service.tables.accounts.len() && is_asked_for(
                    requested,
                    (#[trigger] service.tables.accounts[i]).row.account_id,
                );
            &&& requested is Some && !known ==> step.0 == service && (
            step.1.next matches NextView::Finished { result: Err(error) } && error.code
                == "account_not_found"@)
            &&& requested is None || known ==> {
                &&& step.0.tables == service.tables
                &&& ahead.contains(id) <==> exists|i: int|
                    0 <= i < service.tables.accounts.len() && (
                    #[trigger] service.tables.accounts[i]).row.account_id == id
                        && service.tables.accounts[i].row.enabled && is_asked_for(requested, id)
                &&& if ahead.len() > 0 {
                    step.0.refreshing && (step.1.next matches NextView::Lookup { account_id, run }
                        && account_id == ahead[0])
                } else {
                    !step.0.refreshing && step.1.next == (NextView::Finished {
                        result: Ok(refreshed(Seq::empty())),
                    })
                }
            }
        }),
{
    let tables = service.tables;
    let rows = tables.accounts.map_values(account_of());
    let accounts = tables.configured_accounts();
    sorted_same_items(rows, rows.map_values(account_rank()));
    let chosen = match requested {
        Some(name) => accounts.filter(account_named(name)),
        None => accounts,
    };
    if let Some(name) = requested {
        filter_rows(accounts, account_named(name));
    }
    filter_rows(chosen, is_enabled());
    let enabled = chosen.filter(is_enabled());
    let ids = enabled.map_values(id_of());
    let step = service.begin_refresh(requested, AfterView::Reply, notices, world);
    let ahead = accounts_ahead(step.1.next);
    let known = exists|i: int|
        0 <= i < tables.accounts.len() && is_asked_for(
            requested,
            (#[trigger] tables.accounts[i]).row.account_id,
        );
    if let Some(name) = requested {
        if known {
            let i = choose|i: int|
                0 <= i < tables.accounts.len() && is_asked_for(
                    requested,
                    (#[trigger] tables.accounts[i]).row.account_id,
                );
            assert(rows[i] == tables.accounts[i].row);
            assert(rows.contains(rows[i]));
            assert(accounts.contains(rows[i]));
            assert(chosen.contains(rows[i]));
        } else if chosen.len() > 0 {
            assert(chosen.contains(chosen[0]));
            assert(accounts.contains(chosen[0]));
            assert(rows.contains(chosen[0]));
            let i = choose|i: int| 0 <= i < rows.len() && rows[i] == chosen[0];
            assert(is_asked_for(requested, tables.accounts[i].row.account_id));
        }
    }
    if requested is None || known {
        if ids.len() > 0 {
            assert(ahead =~= ids);
        } else {
            assert(ids =~= Seq::<Seq<char>>::empty());
        }
        assert(ahead =~= ids);
        if ids.contains(id) {
            let a = choose|a: int| 0 <= a < ids.len() && ids[a] == id;
            assert(enabled.contains(enabled[a]));
            assert(chosen.contains(enabled[a]));
            assert(accounts.contains(enabled[a]));
            assert(rows.contains(enabled[a]));
            let i = choose|i: int| 0 <= i < rows.len() && rows[i] == enabled[a];
            assert(tables.accounts[i].row.account_id == id);
        }
        if exists|i: int|
            0 <= i < tables.accounts.len() && (#[trigger] tables.accounts[i]).row.account_id == id
                && tables.accounts[i].row.enabled && is_asked_for(requested, id) {
            let i = choose|i: int|
                0 <= i < tables.accounts.len() && (#[trigger] tables.accounts[i]).row.account_id
                    == id && tables.accounts[i].row.enabled && is_asked_for(requested, id);
            assert(rows[i] == tables.accounts[i].row);
            assert(rows.contains(rows[i]));
            assert(accounts.contains(rows[i]));
            assert(chosen.contains(rows[i]));
            assert(enabled.contains(rows[i]));
            let a = choose|a: int| 0 <= a < enabled.len() && enabled[a] == rows[i];
            assert(ids[a] == id);
        }
    }
}

/// The synchronization of an account goes from its refresh token to an access token, and from there
/// to its calendars, with that token and for the same refresh; nothing changes on the way.
pub proof fn tokens_lead_to_calendars(
    service: ServiceView,
    refresh: RefreshView,
    refresh_token: Seq<char>,
    access_token: Seq<char>,
    world: SurroundingsView,
)
    ensures
        service.looked_up(LookingUpView::Sync { refresh }, Ok(refresh_token), world)
            == service.needs(
            Seq::empty(),
            NextView::RefreshToken { refresh_token, run: refresh },
        ),
        service.token_refreshed(refresh, Ok(access_token), world) == service.needs(
            Seq::empty(),
            NextView::ListCalendars { run: ReadingView { refresh, access_token } },
        ),
{
}

/// Whether a step goes on with the accounts of a refresh that wait, after one of them came to a
/// result, or ends the refresh with the results of all of them.
pub open spec fn goes_on_after(
    step: Step,
    refresh: RefreshView,
    ok: bool,
    error: Option<Seq<char>>,
) -> bool {
    exists|result: JsonView|
        {
            &&& result.field("id"@) == Some(JsonView::Text(refresh.account_id))
            &&& result.field("ok"@) == Some(JsonView::Bool(ok))
            &&& result.field("error"@) == Some(
                match error {
                    Some(message) => JsonView::Text(message),
                    None => JsonView::Null,
                },
            )
            &&& if refresh.waiting.len() > 0 {
                step.1.next matches NextView::Lookup { account_id, run: LookingUpView::Sync {
                    refresh: later,
                } } && account_id == refresh.waiting[0] && later.account_id == account_id
                    && later.waiting == refresh.waiting.drop_first() && later.results
                    == #[trigger] refresh.results.push(result) && later.after == refresh.after
                    && step.0.refreshing
            } else {
                &&& !step.0.refreshing
                &&& refresh.after is Reply ==> step.1.next == (NextView::Finished {
                    result: Ok(refreshed(refresh.results.push(result))),
                })
            }
        }
}

/// Whether the outcome of a synchronization is noted on its account, and on no other, and the rest of
/// the cache is as it was: an error with its code, or the time of a success.
pub open spec fn is_noted(
    before: Tables,
    after: Tables,
    id: Seq<char>,
    error: Option<Seq<char>>,
    code: Option<Seq<char>>,
    now: Seq<char>,
) -> bool {
    &&& after.calendars == before.calendars
    &&& after.events == before.events
    &&& after.task_lists == before.task_lists
    &&& after.tasks == before.tasks
    &&& after.accounts.len() == before.accounts.len()
    &&& forall|i: int|
        0 <= i < before.accounts.len() ==> {
            let old_row = before.accounts[i].row;
            let row = (#[trigger] after.accounts[i]).row;
            if old_row.account_id == id {
                &&& row.error == error
                &&& row.error_code == code
                &&& row.last_sync == if error is None {
                    Some(now)
                } else {
                    old_row.last_sync
                }
                &&& row.account_id == id
                &&& row.google_sub == old_row.google_sub
                &&& row.email == old_row.email
                &&& row.label == old_row.label
                &&& row.enabled == old_row.enabled
            } else {
                after.accounts[i] == before.accounts[i]
            }
        }
}

/// The message under which an error is shown.
pub open spec fn message_of(error: ErrorView) -> Seq<char> {
    shown_message(error.message, "Operation failed"@)
}

proof fn result_fields(id: Seq<char>, error: Option<Seq<char>>)
    ensures
        sync_result(id, error).field("id"@) == Some(JsonView::Text(id)),
        sync_result(id, error).field("ok"@) == Some(JsonView::Bool(error is None)),
        sync_result(id, error).field("error"@) == Some(
            match error {
                Some(message) => JsonView::Text(message),
                None => JsonView::Null,
            },
        ),
{
    reveal_strlit("id");
    reveal_strlit("ok");
    reveal_strlit("error");
    assert("id"@.len() == 2 && "ok"@.len() == 2 && "error"@.len() == 5);
    assert("id"@[0] == 'i' && "ok"@[0] == 'o');
}

proof fn done_is_noted(
    service: ServiceView,
    refresh: RefreshView,
    result: std::result::Result<(), ErrorView>,
    world: SurroundingsView,
)
    ensures
        ({
            let step = service.account_done(refresh, result, world);
            let message = match result {
                Ok(_) => None,
                Err(error) => Some(message_of(error)),
            };
            let code = match result {
                Ok(_) => None,
                Err(error) => Some(error.code),
            };
            &&& is_noted(
                service.tables,
                step.0.tables,
                refresh.account_id,
                message,
                code,
                world.now,
            )
            &&& service.refreshing ==> goes_on_after(step, refresh, result is Ok, message)
        }),
{
    let message = match result {
        Ok(_) => None,
        Err(error) => Some(message_of(error)),
    };
    let made = sync_result(refresh.account_id, message);
    result_fields(refresh.account_id, message);
    assert(refresh.results.push(made) == refresh.results.push(made));
}

/// Whatever fails while an account is synchronized, the failure is noted on that account with its
/// code and reported, what the cache held of calendars, events and tasks stays, and the refresh goes
/// on with the next account. Only where Google has forgotten a synchronization token, the calendar
/// is read again instead.
pub proof fn failures_are_noted_and_reported(
    service: ServiceView,
    refresh: RefreshView,
    access_token: Seq<char>,
    error: ErrorView,
    calendars: Seq<CalendarRowView>,
    changes_only: bool,
    replace: bool,
    lists: Seq<TaskListEntryView>,
    position: int,
    collected: TasksByList,
    world: SurroundingsView,
)
    requires
        service.refreshing,
        calendars.len() > 0,
    ensures
        ({
            let reading = ReadingView { refresh, access_token };
            let lookup = service.looked_up(LookingUpView::Sync { refresh }, Err(error), world);
            let token = service.token_refreshed(refresh, Err(error), world);
            let listed = service.calendars_listed(reading, Err(error), world);
            let events = service.events_listed(
                ReadingEventsView { reading, calendars, changes_only, replace },
                Err(error),
                world,
            );
            let known = service.task_lists_listed(reading, Err(error), world);
            let tasks = service.tasks_listed(
                ReadingTasksView { reading, lists, position, tasks: collected },
                Err(error),
                world,
            );
            let message = Some(message_of(error));
            let code = Some(error.code);
            let id = refresh.account_id;
            &&& is_noted(service.tables, lookup.0.tables, id, message, code, world.now)
            &&& goes_on_after(lookup, refresh, false, message)
            &&& is_noted(service.tables, token.0.tables, id, message, code, world.now)
            &&& goes_on_after(token, refresh, false, message)
            &&& is_noted(service.tables, listed.0.tables, id, message, code, world.now)
            &&& goes_on_after(listed, refresh, false, message)
            &&& is_noted(service.tables, known.0.tables, id, message, code, world.now)
            &&& goes_on_after(known, refresh, false, message)
            &&& is_noted(service.tables, tasks.0.tables, id, message, code, world.now)
            &&& goes_on_after(tasks, refresh, false, message)
            &&& !(changes_only && error.http_status == Some(410u16)) ==> is_noted(
                service.tables,
                events.0.tables,
                id,
                message,
                code,
                world.now,
            ) && goes_on_after(events, refresh, false, message)
        }),
{
    done_is_noted(service, refresh, Err(error), world);
}

/// When all tasks of an account came in and could be written, its synchronization is noted as a
/// success at this time and reported as one, and the refresh goes on with the next account. Where
/// they could not be written, that is a failure like any other.
pub proof fn success_is_noted_and_reported(
    service: ServiceView,
    reading: ReadingView,
    lists: Seq<TaskListEntryView>,
    tasks: TasksByList,
    world: SurroundingsView,
)
    requires
        service.refreshing,
    ensures
        ({
            let step = service.read_tasks(reading, lists, lists.len() as int, tasks, world);
            let id = reading.refresh.account_id;
            match service.tables.replace_tasks(id, lists, tasks) {
                Ok(written) => is_noted(written, step.0.tables, id, None, None, world.now)
                    && goes_on_after(step, reading.refresh, true, None),
                Err(error) => is_noted(
                    service.tables,
                    step.0.tables,
                    id,
                    Some(message_of(error)),
                    Some(error.code),
                    world.now,
                ) && goes_on_after(step, reading.refresh, false, Some(message_of(error))),
            }
        }),
{
    match service.tables.replace_tasks(reading.refresh.account_id, lists, tasks) {
        Ok(written) => done_is_noted(
            ServiceView { tables: written, ..service },
            reading.refresh,
            Ok(()),
            world,
        ),
        Err(error) => done_is_noted(service, reading.refresh, Err(error), world),
    }
}

/// No account is taken for synchronized before its tasks are in the cache: no earlier step changes
/// the time of its last success.
pub proof fn success_needs_the_tasks(
    service: ServiceView,
    refresh: RefreshView,
    access_token: Seq<char>,
    token: std::result::Result<Seq<char>, ErrorView>,
    calendars: std::result::Result<Seq<CalendarEntryView>, ErrorView>,
    rows: Seq<CalendarRowView>,
    changes_only: bool,
    replace: bool,
    events: std::result::Result<(Seq<JsonView>, Seq<char>), ErrorView>,
    world: SurroundingsView,
    i: int,
)
    requires
        0 <= i < service.tables.accounts.len(),
    ensures
        ({
            let reading = ReadingView { refresh, access_token };
            let before = service.tables.accounts[i].row.last_sync;
            &&& service.looked_up(
                LookingUpView::Sync { refresh },
                token,
                world,
            ).0.tables.accounts[i].row.last_sync == before
            &&& service.token_refreshed(refresh, token, world).0.tables.accounts[i].row.last_sync
                == before
            &&& service.calendars_listed(
                reading,
                calendars,
                world,
            ).0.tables.accounts[i].row.last_sync == before
            &&& service.events_listed(
                ReadingEventsView { reading, calendars: rows, changes_only, replace },
                events,
                world,
            ).0.tables.accounts[i].row.last_sync == before
        }),
{
}

/// A sign-in that Google completed keeps its refresh token under the account that has this Google
/// identity, or under a new one where none has it, and goes on to write that account down with the
/// label that was asked for, or its email. One that was given up before keeps nothing.
pub proof fn sign_in_keeps_its_token(
    service: ServiceView,
    label: Option<Seq<char>>,
    auth: AuthView,
    world: SurroundingsView,
)
    requires
        service.tables.wf(),
    ensures
        ({
            let step = service.authorized(AuthorizingView::Add { label }, Ok(auth), world);
            &&& step.0.tables == service.tables
            &&& service.phase is None || service.phase == Some(OAuthPhase::Cancelled) ==> (
            step.1.next matches NextView::Finished { result: Err(error) } && error.code
                == "oauth_cancelled"@)
            &&& service.phase == Some(OAuthPhase::Waiting) || service.phase == Some(
                OAuthPhase::Finishing,
            ) ==> (step.1.next matches NextView::Store { account_id, refresh_token, run } && {
                &&& step.0.phase == Some(OAuthPhase::Finishing)
                &&& refresh_token == auth.refresh_token
                &&& run.account_id == account_id
                &&& run.subject == auth.subject
                &&& run.email == auth.email
                &&& !run.reconnect
                &&& label matches Some(chosen) ==> run.label == chosen
                &&& label is None ==> run.label == auth.email
                &&& forall|i: int|
                    0 <= i < service.tables.accounts.len() && (
                    #[trigger] service.tables.accounts[i]).row.google_sub == auth.subject
                        ==> account_id == service.tables.accounts[i].row.account_id && run.known
                &&& (forall|i: int|
                    0 <= i < service.tables.accounts.len() ==> (
                    #[trigger] service.tables.accounts[i]).row.google_sub != auth.subject)
                    ==> account_id == world.fresh_id && !run.known
            })
        }),
{
    let accounts = service.tables.accounts;
    first_none(accounts, with_subject(auth.subject));
    assert forall|i: int|
        0 <= i < accounts.len() && (#[trigger] accounts[i]).row.google_sub == auth.subject implies
        first(accounts, with_subject(auth.subject)) == Some(accounts[i]) by {
        assert(with_subject(auth.subject)(accounts[i]));
        let found = first(accounts, with_subject(auth.subject))->0;
        let k = choose|k: int| 0 <= k < accounts.len() && accounts[k] == found;
        if k < i {
            assert(subject_key()(accounts[k]) != subject_key()(accounts[i]));
        } else if i < k {
            assert(subject_key()(accounts[i]) != subject_key()(accounts[k]));
        }
    }
    if any(accounts, with_subject(auth.subject)) {
        let i = choose|i: int|
            0 <= i < accounts.len() && with_subject(auth.subject)(#[trigger] accounts[i]);
        assert(accounts[i].row.google_sub == auth.subject);
    }
}

/// An account whose token was kept is written down as it signed in, and its first synchronization
/// begins, of it alone; where a refresh is under way already, there is none. An account that could
/// not be written down is told so, and where it was new, its token is dropped again.
pub proof fn added_account_is_synchronized(
    service: ServiceView,
    run: StoringView,
    world: SurroundingsView,
)
    requires
        !run.reconnect,
        run.account_id.len() > 0,
        service.tables.wf(),
    ensures
        ({
            let step = service.stored(run, Ok(()), world);
            match service.tables.upsert_account(
                run.account_id,
                run.subject,
                run.email,
                run.label,
                world.now,
            ) {
                Ok(tables) => {
                    &&& step.0.tables == tables
                    &&& !service.refreshing ==> step.0.refreshing && accounts_ahead(step.1.next)
                        == seq![run.account_id]
                    &&& service.refreshing ==> step.1.next is Finished
                },
                Err(error) => {
                    &&& step.0.tables == service.tables
                    &&& run.known ==> step.1.next == (NextView::Finished { result: Err(error) })
                    &&& !run.known ==> step.1.next == (NextView::Clear {
                        account_id: run.account_id,
                        run: ClearingView::Undo { error },
                    })
                },
            }
        }),
{
    if let Ok(tables) = service.tables.upsert_account(
        run.account_id,
        run.subject,
        run.email,
        run.label,
        world.now,
    ) {
        let id = run.account_id;
        crate::integrity::upsert_account_keeps(
            service.tables,
            id,
            run.subject,
            run.email,
            run.label,
            world.now,
        );
        crate::kept::signed_in_account_is_kept(
            service.tables,
            id,
            run.subject,
            run.email,
            run.label,
            world.now,
        );
        let at = choose|i: int|
            0 <= i < tables.accounts.len() && (#[trigger] tables.accounts[i]).row.account_id == id;
        assert(tables.accounts[at].row.enabled);
        let rows = tables.accounts.map_values(account_of());
        let accounts = tables.configured_accounts();
        let by_id = |row: AccountView| row.account_id;
        assert(unique(rows, by_id)) by {
            assert forall|i: int, j: int| 0 <= i < j < rows.len() implies by_id(
                #[trigger] rows[i],
            ) != by_id(#[trigger] rows[j]) by {
                assert(account_key()(tables.accounts[i]) != account_key()(tables.accounts[j]));
            }
        }
        sorted_same_items(rows, rows.map_values(account_rank()));
        crate::order::sorted_unique(rows, rows.map_values(account_rank()), by_id);
        assert(rows[at] == tables.accounts[at].row);
        assert(rows.contains(rows[at]));
        assert(accounts.contains(rows[at]));
        let chosen = accounts.filter(account_named(id));
        only_one_named(accounts, id, rows[at]);
        assert(chosen =~= seq![rows[at]]);
        assert(chosen.filter(is_enabled()) =~= chosen) by {
            reveal(Seq::filter);
            assert(chosen.drop_last() =~= Seq::<AccountView>::empty());
            assert(chosen.drop_last().filter(is_enabled()) =~= Seq::<AccountView>::empty());
        }
        let ids = chosen.filter(is_enabled()).map_values(id_of());
        assert(ids =~= seq![id]);
        let step = service.stored(run, Ok(()), world);
        if !service.refreshing {
            assert(accounts_ahead(step.1.next) =~= seq![id]);
        }
    }
}

proof fn only_one_named(accounts: Seq<AccountView>, id: Seq<char>, row: AccountView)
    requires
        unique(accounts, |account: AccountView| account.account_id),
        accounts.contains(row),
        row.account_id == id,
    ensures
        accounts.filter(account_named(id)) == seq![row],
    decreases accounts.len(),
{
    reveal(Seq::filter);
    let by_id = |account: AccountView| account.account_id;
    let front = accounts.drop_last();
    let at = choose|i: int| 0 <= i < accounts.len() && accounts[i] == row;
    if at == accounts.len() - 1 {
        filter_rows(front, account_named(id));
        let kept = front.filter(account_named(id));
        if kept.len() > 0 {
            assert(kept.contains(kept[0]));
            assert(front.contains(kept[0]));
            let k = choose|k: int| 0 <= k < front.len() && front[k] == kept[0];
            assert(accounts[k] == front[k]);
            assert(by_id(accounts[k]) != by_id(accounts[at]));
        }
        assert(kept =~= Seq::<AccountView>::empty());
        assert(accounts.filter(account_named(id)) =~= seq![row]);
    } else {
        assert(front[at] == row);
        assert forall|i: int, j: int| 0 <= i < j < front.len() implies by_id(#[trigger] front[i])
            != by_id(#[trigger] front[j]) by {
            assert(front[i] == accounts[i] && front[j] == accounts[j]);
            assert(by_id(accounts[i]) != by_id(accounts[j]));
        }
        only_one_named(front, id, row);
        assert(by_id(accounts[at]) != by_id(accounts[accounts.len() - 1]));
    }
}

/// An account that signs in again as itself gets its new token under its own identity and keeps its
/// label; when the token is kept it is written down, and the answer tells it as clients see it.
pub proof fn reconnected_account_keeps_its_place(
    service: ServiceView,
    account: AccountView,
    auth: AuthView,
    run: StoringView,
    world: SurroundingsView,
)
    requires
        auth.subject == account.google_sub,
        run.reconnect,
    ensures
        ({
            let step = service.authorized(AuthorizingView::Reconnect { account }, Ok(auth), world);
            &&& step.0 == service
            &&& step.1.next matches NextView::Store { account_id, refresh_token, run: storing } && {
                &&& account_id == account.account_id
                &&& refresh_token == auth.refresh_token
                &&& storing.account_id == account.account_id
                &&& storing.subject == account.google_sub
                &&& storing.email == auth.email
                &&& storing.label == account.label
                &&& storing.known
                &&& storing.reconnect
            }
        }),
        ({
            let step = service.stored(run, Ok(()), world);
            match service.tables.upsert_account(
                run.account_id,
                run.subject,
                run.email,
                run.label,
                world.now,
            ) {
                Ok(tables) => {
                    &&& step.0.tables == tables
                    &&& step.0.refreshing == service.refreshing
                    &&& step.0.syncing == service.syncing
                    &&& step.0.account(run.account_id) matches Some(shown) ==> (
                    step.1.next matches NextView::Finished { result: Ok(answer) } && answer.field(
                        "account"@,
                    ) == Some(shown) && answer.field("reconnected"@) == Some(JsonView::Bool(true)))
                },
                Err(error) => step.0.tables == service.tables && (run.known ==> step.1.next == (
                NextView::Finished { result: Err(error) })),
            }
        }),
{
    reveal_strlit("account");
    reveal_strlit("reconnected");
    assert("account"@.len() == 7 && "reconnected"@.len() == 11);
}

/// An account is removed in steps: its token is read and given back where there is one, then dropped,
/// and only then its rows go. The answer says whether the token was given back.
pub proof fn removal_takes_its_steps(
    service: ServiceView,
    parameters: JsonView,
    id: Seq<char>,
    token: Seq<char>,
    error: ErrorView,
    given_back: bool,
    world: SurroundingsView,
)
    requires
        parameters.field("accountId"@) == Some(JsonView::Text(id)),
        id.len() > 0,
    ensures
        ({
            let known = exists|i: int|
                0 <= i < service.tables.accounts.len() && (
                #[trigger] service.tables.accounts[i]).row.account_id == id;
            let step = service.remove_account(parameters);
            let removing = LookingUpView::Remove { account_id: id };
            let done = service.cleared(
                ClearingView::Remove { account_id: id, revoked: given_back },
                Ok(()),
                world,
            );
            &&& step.0 == service
            &&& !known ==> (step.1.next matches NextView::Finished { result: Err(refusal) }
                && refusal.code == "account_not_found"@)
            &&& known ==> step.1.next == (NextView::Lookup { account_id: id, run: removing })
            &&& service.looked_up(removing, Ok(token), world) == service.needs(
                Seq::empty(),
                NextView::Revoke {
                    refresh_token: token,
                    run: RevokingView::Remove { account_id: id },
                },
            )
            &&& service.looked_up(removing, Err(error), world) == service.needs(
                Seq::empty(),
                NextView::Clear {
                    account_id: id,
                    run: ClearingView::Remove { account_id: id, revoked: false },
                },
            )
            &&& service.revoked(
                RevokingView::Remove { account_id: id },
                given_back,
                world,
            ) == service.needs(
                Seq::empty(),
                NextView::Clear {
                    account_id: id,
                    run: ClearingView::Remove { account_id: id, revoked: given_back },
                },
            )
            &&& done.1.next matches NextView::Finished { result: Ok(answer) } && {
                &&& answer.field("accountId"@) == Some(JsonView::Text(id))
                &&& answer.field("removed"@) == Some(JsonView::Bool(known))
                &&& answer.field("revoked"@) == Some(JsonView::Bool(given_back))
            }
        }),
{
    reveal_strlit("accountId");
    reveal_strlit("removed");
    reveal_strlit("revoked");
    assert("accountId"@.len() == 9 && "removed"@.len() == 7 && "revoked"@.len() == 7);
    assert("removed"@[2] == 'm' && "revoked"@[2] == 'v');
    let known = exists|i: int|
        0 <= i < service.tables.accounts.len() && (
        #[trigger] service.tables.accounts[i]).row.account_id == id;
    if known {
        let i = choose|i: int|
            0 <= i < service.tables.accounts.len() && (
            #[trigger] service.tables.accounts[i]).row.account_id == id;
        assert(named_account(id)(service.tables.accounts[i]));
    }
    if service.tables.has_account(id) {
        let i = choose|i: int|
            0 <= i < service.tables.accounts.len() && named_account(id)(
                #[trigger] service.tables.accounts[i],
            );
        assert(service.tables.accounts[i].row.account_id == id);
    }
}

/// An agenda item is opened by its link exactly where it has one and that is HTTPS; else the request
/// is refused, and nothing is opened.
pub proof fn items_are_opened_by_their_links(
    service: ServiceView,
    parameters: JsonView,
    item_id: Seq<char>,
)
    requires
        parameters.field("itemId"@) == Some(JsonView::Text(item_id)),
        item_id.len() > 0,
    ensures
        ({
            let step = service.open_item(parameters);
            &&& step.0 == service
            &&& step.1.notices.len() == 0
            &&& match service.tables.item_url(item_id) {
                Some(url) => if is_https(url) {
                    step.1.next == (NextView::OpenBrowser { url, item_id })
                } else {
                    step.1.next matches NextView::Finished { result: Err(error) } && error.code
                        == "unsafe_url"@
                },
                None => step.1.next matches NextView::Finished { result: Err(error) } && error.code
                    == "item_not_found"@,
            }
        }),
{
}

/// Whether an item was opened is told as it was: a success only where the browser opened it.
pub proof fn opening_is_told(service: ServiceView, item_id: Seq<char>, result: BrowserOpenResult)
    ensures
        ({
            let step = service.browser_opened(item_id, result);
            &&& step.0 == service
            &&& match result {
                BrowserOpenResult::Opened => step.1.next matches NextView::Finished {
                    result: Ok(answer),
                } && answer.field("itemId"@) == Some(JsonView::Text(item_id)) && answer.field(
                    "opened"@,
                ) == Some(JsonView::Bool(true)),
                BrowserOpenResult::BraveHandoffFailed => step.1.next matches NextView::Finished {
                    result: Err(error),
                } && error.code == "browser_handoff_failed"@,
                BrowserOpenResult::Failed => step.1.next matches NextView::Finished {
                    result: Err(error),
                } && error.code == "browser_open_failed"@,
            }
        }),
{
    reveal_strlit("itemId");
    reveal_strlit("opened");
    assert("itemId"@.len() == 6 && "opened"@.len() == 6);
    assert("itemId"@[0] == 'i' && "opened"@[0] == 'o');
}

} // verus!
