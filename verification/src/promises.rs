//! What the service promises over several steps.
use vstd::prelude::*;

use crate::entries::{AuthView, CalendarEntryView, TaskListEntryView};
use crate::error::{shown_message, ErrorView};
use crate::flow::{
    AfterView, AuthorizingView, ClearingView, LookingUpView, NextView, NoticeView,
    ReadingEventsView, ReadingTasksView, ReadingView, RefreshView, RevokingView, StoringView,
    SurroundingsView,
};
use crate::integrity::{
    agree_but, delete_account_clears, delete_account_touches_one, upsert_account_keeps_cache,
};
use crate::json::JsonView;
use crate::link::is_https;
use crate::records::{AccountView, CalendarRowView};
use crate::tables::TasksByList;
use crate::transitions::{
    account_named, already_syncing, id_of, is_enabled, other_text, refreshed, sign_in_busy,
    sync_result, wrong_account, ServiceView, Step,
};

verus! {

/// Reading the state or an agenda changes nothing, tells nobody, and needs nothing: the answer comes
/// from the cache alone.
pub proof fn cached_reads_need_nothing(
    service: ServiceView,
    method: Seq<char>,
    parameters: JsonView,
    world: SurroundingsView,
    step: Step,
)
    requires
        method == "get_state"@ || method == "status"@ || method == "get_agenda"@ || method
            == "list_agenda"@,
        service.dispatched(method, parameters, world, step),
    ensures
        step.0 == service,
        step.1.notices.len() == 0,
        step.1.next is Finished,
{
}

/// While a sign-in is under way, another one is refused, and the one under way goes on.
pub proof fn one_sign_in_at_a_time(
    service: ServiceView,
    parameters: JsonView,
    world: SurroundingsView,
)
    requires
        service.phase is Some,
    ensures
        service.add_account(parameters, world) == service.answered(
            Seq::empty(),
            Err(sign_in_busy()),
        ),
        service.reconnect_account(parameters, world).0 == service,
        service.reconnect_account(parameters, world).1.next matches NextView::Finished {
            result: Err(_),
        },
{
}

/// While a refresh is under way, another one ends at once, and changes nothing.
pub proof fn one_refresh_at_a_time(
    service: ServiceView,
    requested: Option<Seq<char>>,
    world: SurroundingsView,
)
    requires
        service.refreshing,
    ensures
        service.begin_refresh(requested, AfterView::Reply, Seq::empty(), world)
            == service.answered(Seq::empty(), Ok(already_syncing())),
{
}

/// The same sign-in with other tokens.
pub open spec fn with_tokens(auth: AuthView, refresh: Seq<char>, access: Seq<char>) -> AuthView {
    AuthView { refresh_token: refresh, access_token: access, ..auth }
}

/// No token reaches the cache, nor what clients are told: the state of the service after a sign-in
/// does not depend on the tokens that came with it.
pub proof fn sign_in_tokens_stay_out(
    service: ServiceView,
    run: AuthorizingView,
    auth: AuthView,
    refresh: Seq<char>,
    access: Seq<char>,
    world: SurroundingsView,
)
    ensures
        service.authorized(run, Ok(auth), world).0 == service.authorized(
            run,
            Ok(with_tokens(auth, refresh, access)),
            world,
        ).0,
        service.authorized(run, Ok(auth), world).1.notices == service.authorized(
            run,
            Ok(with_tokens(auth, refresh, access)),
            world,
        ).1.notices,
        service.authorized(run, Ok(auth), world).1.next is Finished ==> service.authorized(
            run,
            Ok(auth),
            world,
        ) == service.authorized(run, Ok(with_tokens(auth, refresh, access)), world),
{
}

/// No token reaches the cache, nor what clients are told, while an account is synchronized: what
/// was read from the store of secrets, and the access token, only go where they are needed.
pub proof fn sync_tokens_stay_out(
    service: ServiceView,
    lookup: LookingUpView,
    run: RefreshView,
    token: Seq<char>,
    other: Seq<char>,
    world: SurroundingsView,
)
    ensures
        service.looked_up(lookup, Ok(token), world).0 == service.looked_up(
            lookup,
            Ok(other),
            world,
        ).0,
        service.looked_up(lookup, Ok(token), world).1.notices == service.looked_up(
            lookup,
            Ok(other),
            world,
        ).1.notices,
        service.looked_up(lookup, Ok(token), world).1.next is Finished ==> service.looked_up(
            lookup,
            Ok(token),
            world,
        ) == service.looked_up(lookup, Ok(other), world),
        service.token_refreshed(run, Ok(token), world).0 == service.token_refreshed(
            run,
            Ok(other),
            world,
        ).0,
        service.token_refreshed(run, Ok(token), world).1.notices == service.token_refreshed(
            run,
            Ok(other),
            world,
        ).1.notices,
        service.token_refreshed(run, Ok(token), world).1.next is Finished
            ==> service.token_refreshed(run, Ok(token), world) == service.token_refreshed(
            run,
            Ok(other),
            world,
        ),
{
}

/// What is written down of calendars, events and tasks does not depend on the access token with
/// which they were read.
pub proof fn access_token_stays_out(
    service: ServiceView,
    refresh: RefreshView,
    token: Seq<char>,
    other: Seq<char>,
    calendars: std::result::Result<Seq<CalendarEntryView>, ErrorView>,
    rows: Seq<CalendarRowView>,
    changes_only: bool,
    replace: bool,
    events: std::result::Result<(Seq<JsonView>, Seq<char>), ErrorView>,
    lists: std::result::Result<Seq<TaskListEntryView>, ErrorView>,
    known: Seq<TaskListEntryView>,
    position: int,
    collected: TasksByList,
    tasks: std::result::Result<Seq<JsonView>, ErrorView>,
    world: SurroundingsView,
)
    ensures
        ({
            let a = ReadingView { refresh, access_token: token };
            let b = ReadingView { refresh, access_token: other };
            &&& service.calendars_listed(a, calendars, world).0 == service.calendars_listed(
                b,
                calendars,
                world,
            ).0
            &&& service.events_listed(
                ReadingEventsView { reading: a, calendars: rows, changes_only, replace },
                events,
                world,
            ).0 == service.events_listed(
                ReadingEventsView { reading: b, calendars: rows, changes_only, replace },
                events,
                world,
            ).0
            &&& service.task_lists_listed(a, lists, world).0 == service.task_lists_listed(
                b,
                lists,
                world,
            ).0
            &&& service.tasks_listed(
                ReadingTasksView { reading: a, lists: known, position, tasks: collected },
                tasks,
                world,
            ).0 == service.tasks_listed(
                ReadingTasksView { reading: b, lists: known, position, tasks: collected },
                tasks,
                world,
            ).0
        }),
{
}

/// An account that was to sign in again, and did not, or as someone else, or whose new token could
/// not be kept, stays as it was: nothing is written to the cache, its old token is neither replaced
/// nor dropped, and the stray token of someone else is given back.
pub proof fn failed_reconnect_changes_nothing(
    service: ServiceView,
    account: AccountView,
    auth: AuthView,
    error: ErrorView,
    run: StoringView,
    given_back: bool,
    world: SurroundingsView,
)
    requires
        run.reconnect,
    ensures
        ({
            let reconnect = AuthorizingView::Reconnect { account };
            let failed = service.authorized(reconnect, Err(error), world);
            let stray = service.authorized(reconnect, Ok(auth), world);
            let rejected = service.revoked(
                RevokingView::Stray { email: account.email },
                given_back,
                world,
            );
            let lost = service.stored(run, Err(error), world);
            &&& failed.0.tables == service.tables
            &&& failed.1.next == NextView::Finished { result: Err(error) }
            &&& auth.subject != account.google_sub ==> stray.0 == service && stray.1.next == (
            NextView::Revoke {
                refresh_token: auth.refresh_token,
                run: RevokingView::Stray { email: account.email },
            })
            &&& rejected.0.tables == service.tables
            &&& rejected.1.next == NextView::Finished { result: Err(wrong_account(account.email)) }
            &&& lost.0.tables == service.tables
            &&& lost.1.next == NextView::Finished { result: Err(error) }
        }),
{
}

/// Whether a step on behalf of a sign-in keeps its hold: it is over exactly where the request has
/// its answer.
pub open spec fn sign_in_held(before: ServiceView, step: Step) -> bool {
    if step.1.next is Finished {
        step.0.phase is None
    } else {
        before.phase is Some ==> step.0.phase is Some
    }
}

/// However a sign-in ends, it is over when its request has its answer, so that the next one can
/// begin.
pub proof fn sign_in_is_released(
    service: ServiceView,
    run: AuthorizingView,
    result: std::result::Result<AuthView, ErrorView>,
    storing: StoringView,
    kept: std::result::Result<(), ErrorView>,
    error: ErrorView,
    email: Seq<char>,
    given_back: bool,
    world: SurroundingsView,
)
    ensures
        sign_in_held(service, service.authorized(run, result, world)),
        sign_in_held(service, service.stored(storing, kept, world)),
        sign_in_held(service, service.cleared(ClearingView::Undo { error }, kept, world)),
        sign_in_held(service, service.revoked(RevokingView::Stray { email }, given_back, world)),
{
}

/// The first synchronization of an account that was added keeps the hold of its sign-in until it is
/// over, whatever comes in, and then the sign-in is over too.
pub proof fn sign_in_is_released_by_refresh(
    service: ServiceView,
    requested: Option<Seq<char>>,
    account_id: Seq<char>,
    notices: Seq<NoticeView>,
    refresh: RefreshView,
    access_token: Seq<char>,
    token: std::result::Result<Seq<char>, ErrorView>,
    calendars: std::result::Result<Seq<CalendarEntryView>, ErrorView>,
    rows: Seq<CalendarRowView>,
    changes_only: bool,
    replace: bool,
    events: std::result::Result<(Seq<JsonView>, Seq<char>), ErrorView>,
    lists: std::result::Result<Seq<TaskListEntryView>, ErrorView>,
    known: Seq<TaskListEntryView>,
    position: int,
    collected: TasksByList,
    tasks: std::result::Result<Seq<JsonView>, ErrorView>,
    world: SurroundingsView,
)
    requires
        refresh.after is Add,
    ensures
        ({
            let reading = ReadingView { refresh, access_token };
            &&& sign_in_held(
                service,
                service.begin_refresh(requested, AfterView::Add { account_id }, notices, world),
            )
            &&& sign_in_held(
                service,
                service.looked_up(LookingUpView::Sync { refresh }, token, world),
            )
            &&& sign_in_held(service, service.token_refreshed(refresh, token, world))
            &&& sign_in_held(service, service.calendars_listed(reading, calendars, world))
            &&& sign_in_held(
                service,
                service.events_listed(
                    ReadingEventsView { reading, calendars: rows, changes_only, replace },
                    events,
                    world,
                ),
            )
            &&& sign_in_held(service, service.task_lists_listed(reading, lists, world))
            &&& sign_in_held(
                service,
                service.tasks_listed(
                    ReadingTasksView { reading, lists: known, position, tasks: collected },
                    tasks,
                    world,
                ),
            )
        }),
{
}

/// The refresh that a step goes on with.
pub open spec fn refresh_in(next: NextView) -> Option<RefreshView> {
    match next {
        NextView::Lookup { account_id, run: LookingUpView::Sync { refresh } } => Some(refresh),
        NextView::RefreshToken { refresh_token, run } => Some(run),
        NextView::ListCalendars { run } => Some(run.refresh),
        NextView::ListEvents { calendar_id, sync_token, run } => Some(run.reading.refresh),
        NextView::ListTaskLists { run } => Some(run.refresh),
        NextView::ListTasks { task_list_id, run } => Some(run.reading.refresh),
        _ => None,
    }
}

/// Whether the service and a step agree on a refresh: while it goes on, exactly its account is
/// being synchronized; when it is over, none is.
pub open spec fn refresh_held(step: Step) -> bool {
    match refresh_in(step.1.next) {
        Some(refresh) => step.0.refreshing && step.0.syncing == seq![refresh.account_id],
        None => step.1.next is Finished && !step.0.refreshing && step.0.syncing.len() == 0,
    }
}

proof fn next_account_held(
    service: ServiceView,
    waiting: Seq<Seq<char>>,
    results: Seq<JsonView>,
    after: AfterView,
    notices: Seq<NoticeView>,
    world: SurroundingsView,
)
    requires
        service.refreshing,
        service.syncing.len() == 0,
    ensures
        refresh_held(service.next_account(waiting, results, after, notices, world)),
{
    if waiting.len() > 0 {
        assert(!service.syncing.contains(waiting[0]));
        assert(service.syncing.push(waiting[0]) =~= seq![waiting[0]]);
    }
}

proof fn account_done_held(
    service: ServiceView,
    refresh: RefreshView,
    result: std::result::Result<(), ErrorView>,
    world: SurroundingsView,
)
    requires
        service.refreshing,
        service.syncing == seq![refresh.account_id],
    ensures
        refresh_held(service.account_done(refresh, result, world)),
{
    let left = service.syncing.filter(other_text(refresh.account_id));
    assert(left.len() == 0) by {
        reveal(Seq::filter);
        let front = service.syncing.drop_last();
        assert(front =~= Seq::<Seq<char>>::empty());
        assert(front.filter(other_text(refresh.account_id)).len() == 0);
        assert(!other_text(refresh.account_id)(service.syncing.last()));
    }
    let step = service.account_done(refresh, result, world);
    let message = match result {
        Ok(_) => None,
        Err(error) => Some(
            shown_message(error.message, "Operation failed"@),
        ),
    };
    let code = match result {
        Ok(_) => None,
        Err(error) => Some(error.code),
    };
    let after = ServiceView {
        tables: service.tables.set_sync_result(refresh.account_id, code, message, world.now),
        syncing: left,
        ..service
    };
    next_account_held(
        after,
        refresh.waiting,
        refresh.results.push(sync_result(refresh.account_id, message)),
        refresh.after,
        seq![after.state_notice(world.configured)],
        world,
    );
}

/// A refresh that begins holds the account that it begins with, or is over.
pub proof fn refresh_begins_held(
    service: ServiceView,
    requested: Option<Seq<char>>,
    after: AfterView,
    notices: Seq<NoticeView>,
    world: SurroundingsView,
)
    requires
        !service.refreshing,
        service.syncing.len() == 0,
    ensures
        refresh_held(service.begin_refresh(requested, after, notices, world)),
{
    let accounts = service.tables.configured_accounts();
    let chosen = match requested {
        Some(id) => accounts.filter(account_named(id)),
        None => accounts,
    };
    if !(requested is Some && chosen.len() == 0) {
        next_account_held(
            ServiceView { refreshing: true, ..service },
            chosen.filter(is_enabled()).map_values(
                id_of(),
            ),
            Seq::empty(),
            after,
            notices,
            world,
        );
    }
}

/// Whatever comes in while an account is synchronized, the refresh goes on with exactly one
/// account, or it is over, and then no account is being synchronized.
pub proof fn refresh_stays_held(
    service: ServiceView,
    refresh: RefreshView,
    access_token: Seq<char>,
    token: std::result::Result<Seq<char>, ErrorView>,
    calendars: std::result::Result<Seq<CalendarEntryView>, ErrorView>,
    rows: Seq<CalendarRowView>,
    changes_only: bool,
    replace: bool,
    events: std::result::Result<(Seq<JsonView>, Seq<char>), ErrorView>,
    lists: std::result::Result<Seq<TaskListEntryView>, ErrorView>,
    known: Seq<TaskListEntryView>,
    position: int,
    collected: TasksByList,
    tasks: std::result::Result<Seq<JsonView>, ErrorView>,
    world: SurroundingsView,
)
    requires
        service.refreshing,
        service.syncing == seq![refresh.account_id],
    ensures
        ({
            let reading = ReadingView { refresh, access_token };
            &&& refresh_held(service.looked_up(LookingUpView::Sync { refresh }, token, world))
            &&& refresh_held(service.token_refreshed(refresh, token, world))
            &&& refresh_held(service.calendars_listed(reading, calendars, world))
            &&& refresh_held(
                service.events_listed(
                    ReadingEventsView { reading, calendars: rows, changes_only, replace },
                    events,
                    world,
                ),
            )
            &&& refresh_held(service.task_lists_listed(reading, lists, world))
            &&& refresh_held(
                service.tasks_listed(
                    ReadingTasksView { reading, lists: known, position, tasks: collected },
                    tasks,
                    world,
                ),
            )
        }),
{
    let reading = ReadingView { refresh, access_token };
    if let Err(error) = token {
        account_done_held(service, refresh, Err(error), world);
    }
    match calendars {
        Err(error) => account_done_held(service, refresh, Err(error), world),
        Ok(entries) => {
            if let Err(error) = service.tables.replace_calendars(refresh.account_id, entries) {
                account_done_held(service, refresh, Err(error), world);
            }
        },
    }
    match events {
        Err(error) => account_done_held(service, refresh, Err(error), world),
        Ok((items, next)) => {
            if rows.len() > 0 {
                if let Err(error) = service.tables.apply_events(
                    refresh.account_id,
                    rows[0].calendar_id,
                    items,
                    next,
                    replace,
                    world.now,
                ) {
                    account_done_held(service, refresh, Err(error), world);
                }
            }
        },
    }
    match lists {
        Err(error) => account_done_held(service, refresh, Err(error), world),
        Ok(found) => read_tasks_held(service, reading, found, 0, Seq::empty(), world),
    }
    match tasks {
        Err(error) => account_done_held(service, refresh, Err(error), world),
        Ok(found) => {
            if position < known.len() {
                read_tasks_held(
                    service,
                    reading,
                    known,
                    position + 1,
                    seq![(known[position].id, found)] + collected,
                    world,
                );
            } else {
                read_tasks_held(service, reading, known, position, collected, world);
            }
        },
    }
}

proof fn read_tasks_held(
    service: ServiceView,
    reading: ReadingView,
    lists: Seq<TaskListEntryView>,
    position: int,
    tasks: TasksByList,
    world: SurroundingsView,
)
    requires
        service.refreshing,
        service.syncing == seq![reading.refresh.account_id],
    ensures
        refresh_held(service.read_tasks(reading, lists, position, tasks, world)),
{
    if position >= lists.len() {
        match service.tables.replace_tasks(reading.refresh.account_id, lists, tasks) {
            Err(error) => account_done_held(service, reading.refresh, Err(error), world),
            Ok(tables) => account_done_held(
                ServiceView { tables, ..service },
                reading.refresh,
                Ok(()),
                world,
            ),
        }
    }
}

/// Only an HTTPS link with a host is ever handed to the browser.
pub proof fn only_https_is_opened(service: ServiceView, parameters: JsonView)
    ensures
        service.open_item(parameters).1.next matches NextView::OpenBrowser { url, item_id }
            ==> is_https(url) && service.tables.item_url(item_id) == Some(url),
{
}

/// An account that was removed is gone, with all that belongs to it, and the other accounts are as
/// they were.
pub proof fn removal_clears_the_account(
    service: ServiceView,
    account_id: Seq<char>,
    revoked: bool,
    world: SurroundingsView,
)
    ensures
        ({
            let after = service.cleared(
                ClearingView::Remove { account_id, revoked },
                Ok(()),
                world,
            ).0;
            &&& !after.tables.has_account(account_id)
            &&& forall|i: int|
                0 <= i < after.tables.calendars.len() ==> (
                #[trigger] after.tables.calendars[i]).account_id != account_id
            &&& forall|i: int|
                0 <= i < after.tables.task_lists.len() ==> (
                #[trigger] after.tables.task_lists[i]).account_id != account_id
            &&& forall|i: int|
                0 <= i < after.tables.events.len() ==> (
                #[trigger] after.tables.events[i]).account_id != account_id
            &&& forall|i: int|
                0 <= i < after.tables.tasks.len() ==> (#[trigger] after.tables.tasks[i]).account_id
                    != account_id
            &&& agree_but(service.tables, after.tables, account_id)
        }),
{
    delete_account_clears(service.tables, account_id);
    delete_account_touches_one(service.tables, account_id);
}

/// Where Google no longer accepts the synchronization token of a calendar, all its events are asked
/// for at once, to take the place of those in the cache; nothing is lost until they are there.
pub proof fn expired_token_is_recovered(
    service: ServiceView,
    run: ReadingEventsView,
    error: ErrorView,
    events: Seq<JsonView>,
    token: Seq<char>,
    world: SurroundingsView,
)
    requires
        run.calendars.len() > 0,
        run.changes_only,
        error.http_status == Some(410u16),
    ensures
        ({
            let retry = ReadingEventsView { changes_only: false, replace: true, ..run };
            let calendar_id = run.calendars[0].calendar_id;
            &&& service.events_listed(run, Err(error), world) == service.needs(
                Seq::empty(),
                NextView::ListEvents { calendar_id, sync_token: None, run: retry },
            )
            &&& service.tables.apply_events(
                run.reading.refresh.account_id,
                calendar_id,
                events,
                token,
                true,
                world.now,
            ) matches Ok(tables) ==> service.events_listed(
                retry,
                Ok((events, token)),
                world,
            ).0.tables == tables
        }),
{
}

/// An account that signs in again keeps its calendars, events, task lists and tasks, and where that
/// succeeds, its error is over.
pub proof fn reconnect_keeps_the_cache(
    service: ServiceView,
    run: StoringView,
    kept: std::result::Result<(), ErrorView>,
    world: SurroundingsView,
)
    requires
        run.reconnect,
    ensures
        ({
            let step = service.stored(run, kept, world);
            let after = step.0.tables;
            &&& after.calendars == service.tables.calendars
            &&& after.events == service.tables.events
            &&& after.task_lists == service.tables.task_lists
            &&& after.tasks == service.tables.tasks
            &&& step.1.next matches NextView::Finished { result: Ok(_) } ==> forall|i: int|
                0 <= i < after.accounts.len() && (#[trigger] after.accounts[i]).row.account_id
                    == run.account_id ==> after.accounts[i].row.error is None
                    && after.accounts[i].row.error_code is None
        }),
{
    upsert_account_keeps_cache(
        service.tables,
        run.account_id,
        run.subject,
        run.email,
        run.label,
        world.now,
    );
}

/// To give a sign-in up twice is to give it up once, and without one nothing changes.
pub proof fn cancelling_twice_changes_nothing(service: ServiceView, world: SurroundingsView)
    ensures
        ({
            let once = service.cancel_add_account(world).0;
            &&& once.cancel_add_account(world).0 == once
            &&& service.phase is None ==> once == service
            &&& once.tables == service.tables
        }),
{
}

/// Where the credentials of an account could not be dropped, the account stays.
pub proof fn removal_needs_the_credentials_gone(
    service: ServiceView,
    account_id: Seq<char>,
    revoked: bool,
    error: ErrorView,
    world: SurroundingsView,
)
    ensures
        service.cleared(ClearingView::Remove { account_id, revoked }, Err(error), world)
            == service.answered(Seq::empty(), Err(error)),
{
}

/// The accounts that the results of a refresh report on.
pub open spec fn reported_on(results: Seq<JsonView>) -> Seq<Option<Seq<char>>> {
    results.map_values(|result: JsonView| result.field_text("id"@))
}

/// Accounts by their identities.
pub open spec fn identities(ids: Seq<Seq<char>>) -> Seq<Option<Seq<char>>> {
    ids.map_values(|id: Seq<char>| Some(id))
}

/// The accounts of a refresh: those that are done, the one that is being synchronized, and those
/// that wait.
pub open spec fn accounts_of(refresh: RefreshView) -> Seq<Option<Seq<char>>> {
    reported_on(refresh.results) + seq![Some(refresh.account_id)] + identities(refresh.waiting)
}

/// Whether a step of a refresh has the accounts of the refresh before it: those that it goes on
/// with, or those that its answer reports on.
pub open spec fn visits(
    step: Step,
    accounts: Seq<Option<Seq<char>>>,
    after: AfterView,
) -> bool {
    match refresh_in(step.1.next) {
        Some(refresh) => accounts_of(refresh) == accounts && refresh.after == after,
        None => after is Reply ==> exists|results: Seq<JsonView>|
            reported_on(results) == accounts && step.1.next == (NextView::Finished {
                result: Ok(#[trigger] refreshed(results)),
            }),
    }
}

proof fn next_account_visits(
    service: ServiceView,
    waiting: Seq<Seq<char>>,
    results: Seq<JsonView>,
    after: AfterView,
    notices: Seq<NoticeView>,
    world: SurroundingsView,
)
    ensures
        visits(
            service.next_account(waiting, results, after, notices, world),
            reported_on(results) + identities(waiting),
            after,
        ),
{
    let accounts = reported_on(results) + identities(waiting);
    let step = service.next_account(waiting, results, after, notices, world);
    if waiting.len() == 0 {
        assert(accounts =~= reported_on(results));
        if after is Reply {
            assert(step.1.next == (NextView::Finished {
                result: Ok(refreshed(results)),
            }));
        }
    } else {
        let refresh = RefreshView {
            account_id: waiting[0],
            waiting: waiting.drop_first(),
            results,
            after,
        };
        assert(accounts_of(refresh) =~= accounts);
    }
}

proof fn account_done_visits(
    service: ServiceView,
    refresh: RefreshView,
    result: std::result::Result<(), ErrorView>,
    world: SurroundingsView,
)
    ensures
        visits(service.account_done(refresh, result, world), accounts_of(refresh), refresh.after),
{
    let id = refresh.account_id;
    let message = match result {
        Ok(_) => None,
        Err(error) => Some(
            shown_message(error.message, "Operation failed"@),
        ),
    };
    let code = match result {
        Ok(_) => None,
        Err(error) => Some(error.code),
    };
    let after = ServiceView {
        tables: service.tables.set_sync_result(id, code, message, world.now),
        syncing: service.syncing.filter(other_text(id)),
        ..service
    };
    let done = sync_result(id, message);
    next_account_visits(
        after,
        refresh.waiting,
        refresh.results.push(done),
        refresh.after,
        seq![after.state_notice(world.configured)],
        world,
    );
    reveal_strlit("id");
    reveal_strlit("ok");
    reveal_strlit("error");
    assert("id"@.len() == 2 && "ok"@.len() == 2 && "error"@.len() == 5);
    assert("id"@[0] == 'i' && "ok"@[0] == 'o');
    assert(done.field_text("id"@) == Some(id));
    assert(reported_on(refresh.results.push(done)) + identities(refresh.waiting) =~= accounts_of(
        refresh,
    ));
}

/// A refresh begins with all enabled accounts that were asked for, in the order in which accounts
/// are listed.
pub proof fn refresh_begins_with_all(
    service: ServiceView,
    requested: Option<Seq<char>>,
    after: AfterView,
    notices: Seq<NoticeView>,
    world: SurroundingsView,
)
    requires
        !service.refreshing,
        requested matches Some(id) ==> service.tables.configured_accounts().filter(
            account_named(id),
        ).len() > 0,
    ensures
        ({
            let accounts = service.tables.configured_accounts();
            let chosen = match requested {
                Some(id) => accounts.filter(account_named(id)),
                None => accounts,
            };
            visits(
                service.begin_refresh(requested, after, notices, world),
                identities(
                    chosen.filter(is_enabled()).map_values(
                        id_of(),
                    ),
                ),
                after,
            )
        }),
{
    let accounts = service.tables.configured_accounts();
    let chosen = match requested {
        Some(id) => accounts.filter(account_named(id)),
        None => accounts,
    };
    let ids = chosen.filter(is_enabled()).map_values(
        id_of(),
    );
    next_account_visits(
        ServiceView { refreshing: true, ..service },
        ids,
        Seq::empty(),
        after,
        notices,
        world,
    );
    assert(reported_on(Seq::empty()) + identities(ids) =~= identities(ids));
}

proof fn read_tasks_visits(
    service: ServiceView,
    reading: ReadingView,
    lists: Seq<TaskListEntryView>,
    position: int,
    tasks: TasksByList,
    world: SurroundingsView,
)
    ensures
        visits(
            service.read_tasks(reading, lists, position, tasks, world),
            accounts_of(reading.refresh),
            reading.refresh.after,
        ),
{
    if position >= lists.len() {
        match service.tables.replace_tasks(reading.refresh.account_id, lists, tasks) {
            Err(error) => account_done_visits(service, reading.refresh, Err(error), world),
            Ok(tables) => account_done_visits(
                ServiceView { tables, ..service },
                reading.refresh,
                Ok(()),
                world,
            ),
        }
    }
}

/// Whatever comes in while an account is synchronized, the refresh loses none of its accounts and
/// gets no other: its answer reports on exactly those that it began with.
pub proof fn refresh_loses_no_account(
    service: ServiceView,
    refresh: RefreshView,
    access_token: Seq<char>,
    token: std::result::Result<Seq<char>, ErrorView>,
    calendars: std::result::Result<Seq<CalendarEntryView>, ErrorView>,
    rows: Seq<CalendarRowView>,
    changes_only: bool,
    replace: bool,
    events: std::result::Result<(Seq<JsonView>, Seq<char>), ErrorView>,
    lists: std::result::Result<Seq<TaskListEntryView>, ErrorView>,
    known: Seq<TaskListEntryView>,
    position: int,
    collected: TasksByList,
    tasks: std::result::Result<Seq<JsonView>, ErrorView>,
    world: SurroundingsView,
)
    ensures
        ({
            let reading = ReadingView { refresh, access_token };
            let all = accounts_of(refresh);
            &&& visits(
                service.looked_up(LookingUpView::Sync { refresh }, token, world),
                all,
                refresh.after,
            )
            &&& visits(service.token_refreshed(refresh, token, world), all, refresh.after)
            &&& visits(service.calendars_listed(reading, calendars, world), all, refresh.after)
            &&& visits(
                service.events_listed(
                    ReadingEventsView { reading, calendars: rows, changes_only, replace },
                    events,
                    world,
                ),
                all,
                refresh.after,
            )
            &&& visits(service.task_lists_listed(reading, lists, world), all, refresh.after)
            &&& visits(
                service.tasks_listed(
                    ReadingTasksView { reading, lists: known, position, tasks: collected },
                    tasks,
                    world,
                ),
                all,
                refresh.after,
            )
        }),
{
    let reading = ReadingView { refresh, access_token };
    if let Err(error) = token {
        account_done_visits(service, refresh, Err(error), world);
    }
    match calendars {
        Err(error) => account_done_visits(service, refresh, Err(error), world),
        Ok(entries) => {
            if let Err(error) = service.tables.replace_calendars(refresh.account_id, entries) {
                account_done_visits(service, refresh, Err(error), world);
            }
        },
    }
    match events {
        Err(error) => account_done_visits(service, refresh, Err(error), world),
        Ok((items, next)) => {
            if rows.len() > 0 {
                if let Err(error) = service.tables.apply_events(
                    refresh.account_id,
                    rows[0].calendar_id,
                    items,
                    next,
                    replace,
                    world.now,
                ) {
                    account_done_visits(service, refresh, Err(error), world);
                }
            }
        },
    }
    match lists {
        Err(error) => account_done_visits(service, refresh, Err(error), world),
        Ok(found) => read_tasks_visits(service, reading, found, 0, Seq::empty(), world),
    }
    match tasks {
        Err(error) => account_done_visits(service, refresh, Err(error), world),
        Ok(found) => {
            if position < known.len() {
                read_tasks_visits(
                    service,
                    reading,
                    known,
                    position + 1,
                    seq![(known[position].id, found)] + collected,
                    world,
                );
            } else {
                read_tasks_visits(service, reading, known, position, collected, world);
            }
        },
    }
}

} // verus!
