//! What the operations themselves do, whatever they are called on.
use vstd::prelude::*;

use crate::agenda::{event_overlaps, AgendaItem, AgendaItemView};
use crate::asked::{holds_once, sign_in_asks_for_lasting_access};
use crate::database::Database;
use crate::error::{CalendarError, ErrorView, Result};
use crate::flow::{
    json_result, AuthorizingView, LookingUpView, NextView, ReadingEvents, ReadingTasks,
    Revoking, Surroundings, Turn, TurnView,
};
use crate::google::ClientSettings;
use crate::json::{array_view, Json, JsonView};
use crate::link::extended_link;
use crate::listed::{event_is_listed, goes_on_in, is_before};
use crate::oauth::{authorization_query, challenge_of, OAuthPhase, SignIn};
use crate::outcomes::{accounts_ahead, is_asked_for, refresh_covers_enabled_accounts};
use crate::records::{StoredEvent, StoredTaskView};
use crate::rounds::{
    asks_for_first, brings_in, calendars_ahead, ended_well, next_calendar_follows,
    tasks_are_those_reported,
};
use crate::service::CalendarService;
use crate::table::{first, first_at, first_none, rows};
use crate::tables::{list_named, named_account, tasks_of, Tables};
use crate::text::{decimal, trimmed};
use crate::time::{rfc3339, RangeBounds};
use crate::transitions::ServiceView;

verus! {

/// When the events of a calendar came in and were written, the service asks for those of the next
/// calendar, with all calendars after it still ahead; it asks for the task lists only when no
/// calendar is left.
pub proof fn events_listed_asks_for_the_next_calendar(
    service: &mut CalendarService,
    run: ReadingEvents,
    events: Vec<Json>,
    token: String,
    world: &Surroundings,
    turn: Turn,
    tables: Tables,
)
    requires
        call_ensures(
            CalendarService::events_listed,
            (
                service,
                run,
                Ok::<(Vec<Json>, String), CalendarError>((events, token)),
                world,
            ),
            turn,
        ),
        run@.calendars.len() > 0,
        old(service)@.tables.apply_events(
            run@.reading.refresh.account_id,
            run@.calendars[0].calendar_id,
            array_view(events@),
            token@,
            run@.replace,
            world@.now,
        ) == Ok::<Tables, ErrorView>(tables),
    ensures
        final(service)@.tables == tables,
        calendars_ahead(turn@.next).len() == run@.calendars.len() - 1,
        forall|i: int|
            0 <= i < run@.calendars.len() - 1 ==> #[trigger] calendars_ahead(turn@.next)[i]
                == run@.calendars[i + 1],
        run@.calendars.len() > 1 ==> asks_for_first(
            turn@.next,
            run@.reading,
            calendars_ahead(turn@.next),
        ),
        run@.calendars.len() == 1 ==> turn@.next == (NextView::ListTaskLists { run: run@.reading }),
{
    next_calendar_follows(
        old(service)@,
        run@,
        array_view(events@),
        token@,
        world@,
        tables,
    );
    let rest = run@.calendars.subrange(1, run@.calendars.len() as int);
    assert(calendars_ahead(turn@.next) =~= rest);
}

/// When the tasks of a list came in, the service keeps them under that list together with all those
/// of the lists before it, and asks for the tasks of the next list. When they were those of the last
/// list and the synchronization ends well, the tasks of the account in the cache are exactly those
/// that came in, of this list and of all lists before it.
pub proof fn tasks_listed_keeps_the_tasks_before(
    service: &mut CalendarService,
    run: ReadingTasks,
    tasks: Vec<Json>,
    world: &Surroundings,
    turn: Turn,
)
    requires
        call_ensures(
            CalendarService::tasks_listed,
            (service, run, Ok::<Vec<Json>, CalendarError>(tasks), world),
            turn,
        ),
        0 <= run@.position < run@.lists.len(),
    ensures
        run@.position + 1 < run@.lists.len() ==> (turn@.next matches NextView::ListTasks {
            task_list_id,
            run: next,
        } && {
            &&& task_list_id == run@.lists[run@.position + 1].id
            &&& next.position == run@.position + 1
            &&& next.lists == run@.lists
            &&& next.reading == run@.reading
            &&& next.tasks.len() == run@.tasks.len() + 1
            &&& next.tasks.contains((run@.lists[run@.position].id, array_view(tasks@)))
            &&& forall|i: int|
                0 <= i < run@.tasks.len() ==> next.tasks.contains(#[trigger] run@.tasks[i])
        }),
        run@.position + 1 == run@.lists.len() && ended_well(
            final(service)@.tables,
            run@.reading.refresh.account_id,
        ) ==> {
            let id = run@.reading.refresh.account_id;
            let now = run@.lists[run@.position].id;
            forall|row: StoredTaskView| #[trigger]
                final(service)@.tables.tasks.contains(row) && row.account_id == id <==> {
                    ||| brings_in(id, now, array_view(tasks@), row)
                    ||| exists|i: int|
                        0 <= i < run@.lists.len() && (#[trigger] run@.lists[i]).id != now
                            && brings_in(
                            id,
                            run@.lists[i].id,
                            tasks_of(run@.tasks, run@.lists[i].id),
                            row,
                        )
                }
        },
{
    let id = run@.reading.refresh.account_id;
    let lists = run@.lists;
    let now = lists[run@.position].id;
    let fresh = array_view(tasks@);
    let all = seq![(now, fresh)] + run@.tasks;
    assert(all[0] == (now, fresh));
    assert forall|i: int| 0 <= i < run@.tasks.len() implies all.contains(
        #[trigger] run@.tasks[i],
    ) by {
        assert(all[i + 1] == run@.tasks[i]);
    }
    let before = old(service)@.tables;
    let after = final(service)@.tables;
    if run@.position + 1 == lists.len() && ended_well(after, id) {
        let written = before.replace_tasks(id, lists, all);
        assert(written is Ok) by {
            if let Err(error) = written {
                let i = choose|i: int|
                    0 <= i < after.accounts.len() && (#[trigger] after.accounts[i]).row.account_id
                        == id;
                assert(after.accounts[i].row.error is None);
                assert(before.accounts[i].row.account_id == id);
                assert(after.accounts[i].row.error is Some);
            }
        }
        let tables = written->Ok_0;
        assert(after.tasks == tables.tasks);
        tasks_are_those_reported(before, id, lists, all, tables);
        first_at(all, list_named(now), 0);
        assert forall|i: int| 0 <= i < lists.len() && (#[trigger] lists[i]).id != now implies tasks_of(
            all,
            lists[i].id,
        ) == tasks_of(run@.tasks, lists[i].id) by {
            assert(all.drop_first() =~= run@.tasks);
            assert(!list_named(lists[i].id)(all[0]));
        }
        assert forall|row: StoredTaskView| #[trigger]
            after.tasks.contains(row) && row.account_id == id <==> {
                ||| brings_in(id, now, fresh, row)
                ||| exists|i: int|
                    0 <= i < lists.len() && (#[trigger] lists[i]).id != now && brings_in(
                        id,
                        lists[i].id,
                        tasks_of(run@.tasks, lists[i].id),
                        row,
                    )
            } by {
            if after.tasks.contains(row) && row.account_id == id {
                assert(tables.tasks.contains(row));
                let i = choose|i: int|
                    0 <= i < lists.len() && brings_in(
                        id,
                        (#[trigger] lists[i]).id,
                        tasks_of(all, lists[i].id),
                        row,
                    );
                if lists[i].id != now {
                    assert(tasks_of(all, lists[i].id) == tasks_of(run@.tasks, lists[i].id));
                }
            }
            if brings_in(id, now, fresh, row) {
                assert(lists[run@.position].id == now && tasks_of(all, now) == fresh);
                assert(tables.tasks.contains(row) && row.account_id == id);
            }
            if exists|i: int|
                0 <= i < lists.len() && (#[trigger] lists[i]).id != now && brings_in(
                    id,
                    lists[i].id,
                    tasks_of(run@.tasks, lists[i].id),
                    row,
                ) {
                let i = choose|i: int|
                    0 <= i < lists.len() && (#[trigger] lists[i]).id != now && brings_in(
                        id,
                        lists[i].id,
                        tasks_of(run@.tasks, lists[i].id),
                        row,
                    );
                assert(brings_in(id, lists[i].id, tasks_of(all, lists[i].id), row));
                assert(tables.tasks.contains(row) && row.account_id == id);
            }
        }
    }
}

/// The link of a sign-in asks Google for lasting access: for a code, for reading only, offline, with
/// the user's consent, with the way back to this machine, the state, and the challenge of the
/// verifier, each once.
pub proof fn with_secrets_asks_for_lasting_access(
    settings: ClientSettings,
    path: &str,
    port: u16,
    state: String,
    verifier: String,
    sign_in: Result<SignIn>,
)
    requires
        call_ensures(SignIn::with_secrets, (settings, path, port, state, verifier), sign_in),
    ensures
        sign_in matches Ok(made) ==> {
            let back = "http://127.0.0.1:"@ + decimal(port as nat) + "/callback"@;
            &&& made@.settings == settings@ && made@.state == state@ && made@.verifier == verifier@
            &&& made@.redirect_uri == back
            &&& exists|query: Seq<(Seq<char>, Seq<char>)>|
                {
                    &&& #[trigger] extended_link(settings@.auth_uri, query) == Some(made@.url)
                    &&& query.len() == 9
                    &&& holds_once(query, "access_type"@, "offline"@)
                    &&& holds_once(query, "prompt"@, "select_account consent"@)
                    &&& holds_once(query, "response_type"@, "code"@)
                    &&& holds_once(
                        query,
                        "scope"@,
                        "openid email https://www.googleapis.com/auth/calendar.calendarlist.readonly https://www.googleapis.com/auth/calendar.events.readonly https://www.googleapis.com/auth/tasks.readonly"@,
                    )
                    &&& holds_once(query, "client_id"@, settings@.client_id)
                    &&& holds_once(query, "redirect_uri"@, back)
                    &&& holds_once(query, "state"@, state@)
                    &&& holds_once(query, "code_challenge"@, challenge_of(verifier@))
                    &&& holds_once(query, "code_challenge_method"@, "S256"@)
                }
        },
        sign_in matches Err(error) ==> error@.code == "google_client_invalid"@,
{
    if let Ok(made) = sign_in {
        sign_in_asks_for_lasting_access(settings@, path@, port, state@, verifier@, made@);
        let query = authorization_query(
            settings@.client_id,
            made@.redirect_uri,
            state@,
            challenge_of(verifier@),
        );
        assert(extended_link(settings@.auth_uri, query) == Some(made@.url));
    }
}

/// An event is in a range exactly where it begins before the range ends and ends after the range
/// begins: whether it began before the range does not matter. One with times of which one cannot be
/// read is in none.
pub proof fn events_overlap_by_their_ends(event: &StoredEvent, bounds: &RangeBounds, result: bool)
    requires
        call_ensures(event_overlaps, (event, bounds), result),
    ensures
        result == goes_on_in(event@, bounds@),
        !event@.all_day && result ==> rfc3339(event@.start) is Some && rfc3339(event@.end) is Some,
        !event@.all_day ==> (rfc3339(event@.start) matches Some(start) ==> (rfc3339(
            event@.end,
        ) matches Some(end) ==> {
            &&& is_before(start, bounds@.start) && is_before(bounds@.start, end) && is_before(
                start,
                bounds@.end,
            ) ==> result
            &&& result == (is_before(start, bounds@.end) && is_before(bounds@.start, end))
        })),
{
    if !event@.all_day {
        if let (Some(start), Some(end)) = (rfc3339(event@.start), rfc3339(event@.end)) {
            assert(is_before(start, bounds@.end) == start.lt(bounds@.end));
            assert(is_before(bounds@.start, end) == bounds@.start.lt(end));
        }
    }
}

/// The items that the cache lists for a range hold an event of an enabled account and a selected
/// calendar exactly where it goes on in the range.
pub proof fn agenda_items_hold_what_goes_on(
    database: &Database,
    bounds: &RangeBounds,
    filter: &str,
    items: Vec<AgendaItem>,
    at: int,
    account_at: int,
    calendar_index: int,
)
    requires
        call_ensures(Database::agenda_items, (database, bounds, filter), items),
        database@.wf(),
        0 <= at < database@.events.len(),
        0 <= account_at < database@.accounts.len(),
        0 <= calendar_index < database@.calendars.len(),
        database@.accounts[account_at].row.account_id == database@.events[at].account_id,
        database@.calendars[calendar_index].account_id == database@.events[at].account_id,
        database@.calendars[calendar_index].calendar_id == database@.events[at].calendar_id,
    ensures
        ({
            let event = database@.events[at];
            let listed = database@.accounts[account_at].row.enabled
                && database@.calendars[calendar_index].selected && (filter@ == "all"@ || filter@
                == event.account_id) && goes_on_in(event, bounds@);
            listed <==> exists|i: int|
                0 <= i < items@.len() && (#[trigger] items@[i])@.id == event.item_id
        }),
{
    event_is_listed(database@, bounds@, filter@, at, account_at, calendar_index);
    let event = database@.events[at];
    let listed = database@.accounts[account_at].row.enabled
        && database@.calendars[calendar_index].selected && (filter@ == "all"@ || filter@
        == event.account_id) && goes_on_in(event, bounds@);
    let agenda = database@.agenda(bounds@, filter@);
    if listed {
        let item = choose|item: AgendaItemView|
            #[trigger] agenda.contains(item) && item.id == event.item_id;
        let i = choose|i: int| 0 <= i < agenda.len() && agenda[i] == item;
        assert(rows(items@)[i] == items@[i]@);
    }
    if exists|i: int| 0 <= i < items@.len() && (#[trigger] items@[i])@.id == event.item_id {
        let i = choose|i: int| 0 <= i < items@.len() && (#[trigger] items@[i])@.id == event.item_id;
        assert(rows(items@)[i] == items@[i]@);
        assert(agenda.contains(agenda[i]));
    }
}

/// Whether a step refuses a request with an error, and changes nothing.
pub open spec fn refuses(
    before: ServiceView,
    after: ServiceView,
    turn: TurnView,
    code: Seq<char>,
) -> bool {
    &&& after == before
    &&& turn.notices.len() == 0
    &&& turn.next matches NextView::Finished { result: Err(error) } && error.code == code
}

/// Whether a sign-in begins: the user is sent to Google, clients are told, and nothing else changes.
pub open spec fn sends_to_google(
    before: ServiceView,
    after: ServiceView,
    turn: TurnView,
    run: AuthorizingView,
) -> bool {
    &&& after == (ServiceView { phase: Some(OAuthPhase::Waiting), ..before })
    &&& turn.notices.len() == 1 && turn.notices[0].event == "state_changed"@
    &&& turn.next == (NextView::Authorize { run })
}

/// A request to add an account sends the user to Google, unless a sign-in is under way. The label is
/// the one that it asks for, without white space around it and cut after a hundred characters; one
/// of white space alone, or no text, is none.
pub proof fn adding_sends_to_google(
    service: &mut CalendarService,
    parameters: &Json,
    world: &Surroundings,
    turn: Turn,
    label: Option<Seq<char>>,
)
    requires
        call_ensures(CalendarService::add_account, (service, parameters, world), turn),
        label == match parameters@.field("label"@) {
            Some(JsonView::Text(text)) => if trimmed(text).len() == 0 {
                None
            } else if trimmed(text).len() <= 100 {
                Some(trimmed(text))
            } else {
                Some(trimmed(text).take(100))
            },
            _ => None,
        },
    ensures
        old(service)@.phase is Some ==> refuses(
            old(service)@,
            final(service)@,
            turn@,
            "oauth_in_progress"@,
        ),
        old(service)@.phase is None ==> sends_to_google(
            old(service)@,
            final(service)@,
            turn@,
            AuthorizingView::Add { label },
        ),
{
}

/// A request to sign in again names an account that there is, by a text that is not empty; it sends
/// the user to Google for that account, unless a sign-in is under way.
pub proof fn reconnecting_sends_to_google(
    service: &mut CalendarService,
    parameters: &Json,
    world: &Surroundings,
    turn: Turn,
)
    requires
        call_ensures(CalendarService::reconnect_account, (service, parameters, world), turn),
    ensures
        ({
            let before = old(service)@;
            let after = final(service)@;
            match parameters@.field("accountId"@) {
                Some(JsonView::Text(id)) if id.len() > 0 => {
                    let known = exists|i: int|
                        0 <= i < before.tables.accounts.len() && (
                        #[trigger] before.tables.accounts[i]).row.account_id == id;
                    &&& !known ==> refuses(before, after, turn@, "account_not_found"@)
                    &&& known && before.phase is Some ==> refuses(
                        before,
                        after,
                        turn@,
                        "oauth_in_progress"@,
                    )
                    &&& known && before.phase is None ==> exists|i: int|
                        0 <= i < before.tables.accounts.len() && (
                        #[trigger] before.tables.accounts[i]).row.account_id == id
                            && sends_to_google(
                            before,
                            after,
                            turn@,
                            AuthorizingView::Reconnect { account: before.tables.accounts[i].row },
                        )
                },
                _ => refuses(before, after, turn@, "invalid_params"@),
            }
        }),
{
    let accounts = old(service)@.tables.accounts;
    if let Some(JsonView::Text(id)) = parameters@.field("accountId"@) {
        first_none(accounts, named_account(id));
        if exists|i: int| 0 <= i < accounts.len() && (#[trigger] accounts[i]).row.account_id == id {
            let i = choose|i: int|
                0 <= i < accounts.len() && (#[trigger] accounts[i]).row.account_id == id;
            assert(named_account(id)(accounts[i]));
            let found = first(accounts, named_account(id))->0;
            let k = choose|k: int| 0 <= k < accounts.len() && accounts[k] == found;
            assert(accounts[k].row.account_id == id);
        }
    }
}

/// A request to remove an account names one that there is, by a text that is not empty; its
/// credentials are then looked up, and nothing is removed yet.
pub proof fn removing_looks_up_credentials(
    service: &mut CalendarService,
    parameters: &Json,
    turn: Turn,
)
    requires
        call_ensures(CalendarService::remove_account, (service, parameters), turn),
    ensures
        ({
            let before = old(service)@;
            let after = final(service)@;
            match parameters@.field("accountId"@) {
                Some(JsonView::Text(id)) if id.len() > 0 => if exists|i: int|
                    0 <= i < before.tables.accounts.len() && (
                    #[trigger] before.tables.accounts[i]).row.account_id == id {
                    after == before && turn@.notices.len() == 0 && turn@.next == (
                    NextView::Lookup {
                        account_id: id,
                        run: LookingUpView::Remove { account_id: id },
                    })
                } else {
                    refuses(before, after, turn@, "account_not_found"@)
                },
                _ => refuses(before, after, turn@, "invalid_params"@),
            }
        }),
{
}

/// A refresh by request goes on to synchronize exactly the enabled accounts that it asks for: all of
/// them where it names none. One that names an account by anything but a text that is not empty, or
/// one that is not there, is refused; one while another is under way is answered at once.
pub proof fn refreshing_covers_what_is_asked_for(
    service: &mut CalendarService,
    parameters: &Json,
    world: &Surroundings,
    turn: Turn,
    id: Seq<char>,
)
    requires
        call_ensures(CalendarService::refresh, (service, parameters, world), turn),
    ensures
        ({
            let before = old(service)@;
            let after = final(service)@;
            let named = parameters@.field("accountId"@);
            let enabled = exists|i: int|
                0 <= i < before.tables.accounts.len() && (
                #[trigger] before.tables.accounts[i]).row.account_id == id
                    && before.tables.accounts[i].row.enabled;
            match named {
                None => if before.refreshing {
                    is_busy(before, after, turn@)
                } else {
                    accounts_ahead(turn@.next).contains(id) <==> enabled
                },
                Some(JsonView::Text(name)) if name.len() > 0 => if before.refreshing {
                    is_busy(before, after, turn@)
                } else if exists|i: int|
                    0 <= i < before.tables.accounts.len() && (
                    #[trigger] before.tables.accounts[i]).row.account_id == name {
                    accounts_ahead(turn@.next).contains(id) <==> enabled && id == name
                } else {
                    refuses(before, after, turn@, "account_not_found"@)
                },
                _ => refuses(before, after, turn@, "invalid_params"@),
            }
        }),
{
    let before = old(service)@;
    busy_names();
    if !before.refreshing {
        match parameters@.field("accountId"@) {
            None => {
                refresh_covers_enabled_accounts(before, None, Seq::empty(), world@, id);
            },
            Some(JsonView::Text(name)) => {
                refresh_covers_enabled_accounts(before, Some(name), Seq::empty(), world@, id);
                if exists|i: int|
                    0 <= i < before.tables.accounts.len() && (
                    #[trigger] before.tables.accounts[i]).row.account_id == name {
                    let i = choose|i: int|
                        0 <= i < before.tables.accounts.len() && (
                        #[trigger] before.tables.accounts[i]).row.account_id == name;
                    assert(is_asked_for(Some(name), before.tables.accounts[i].row.account_id));
                }
            },
            _ => {},
        }
    }
}

/// Whether a refresh is answered at once, since another is under way.
pub open spec fn is_busy(before: ServiceView, after: ServiceView, turn: TurnView) -> bool {
    &&& after == before
    &&& turn.next matches NextView::Finished { result: Ok(answer) } && {
        &&& answer.field("started"@) == Some(JsonView::Bool(false))
        &&& answer.field("reason"@) == Some(JsonView::Text("already_syncing"@))
        &&& answer.field("accounts"@) == Some(JsonView::Array(Seq::empty()))
    }
}

proof fn busy_names()
    ensures
        "started"@.len() == 7,
        "reason"@.len() == 6,
        "accounts"@.len() == 8,
{
    reveal_strlit("started");
    reveal_strlit("reason");
    reveal_strlit("accounts");
}

/// When it is time to synchronize again, all enabled accounts are, unless there is no account at
/// all, or a refresh is under way.
pub proof fn polling_covers_enabled_accounts(
    service: &mut CalendarService,
    world: &Surroundings,
    turn: Option<Turn>,
    id: Seq<char>,
)
    requires
        call_ensures(CalendarService::poll, (service, world), turn),
    ensures
        turn is None <==> old(service)@.tables.accounts.len() == 0,
        turn is None ==> final(service)@ == old(service)@,
        turn matches Some(turn) ==> (!old(service)@.refreshing ==> (accounts_ahead(
            turn@.next,
        ).contains(id) <==> exists|i: int|
            0 <= i < old(service)@.tables.accounts.len() && (
            #[trigger] old(service)@.tables.accounts[i]).row.account_id == id && old(
                service,
            )@.tables.accounts[i].row.enabled)),
        turn matches Some(turn) ==> (old(service)@.refreshing ==> is_busy(
            old(service)@,
            final(service)@,
            turn@,
        )),
{
    busy_names();
    if !old(service)@.refreshing {
        refresh_covers_enabled_accounts(old(service)@, None, Seq::empty(), world@, id);
    }
}

/// A request for an agenda has texts for its start and its end, and where it names accounts, a text
/// for them; else it is refused.
pub proof fn agendas_are_asked_for_by_texts(
    service: &CalendarService,
    parameters: &Json,
    configured: bool,
    answer: Result<Json>,
)
    requires
        call_ensures(CalendarService::agenda, (service, parameters, configured), answer),
    ensures
        !(parameters@.field("start"@) matches Some(JsonView::Text(_))) || !(parameters@.field(
            "end"@,
        ) matches Some(JsonView::Text(_))) || (parameters@.field("account"@) is Some && !(
        parameters@.field("account"@) matches Some(JsonView::Text(_)))) ==> (answer matches Err(
            error,
        ) && error@.code == "invalid_params"@),
        parameters@.field("start"@) matches Some(JsonView::Text(start)) ==> (parameters@.field(
            "end"@,
        ) matches Some(JsonView::Text(end)) ==> {
            &&& parameters@.field("account"@) is None ==> service@.tables.agenda_result(
                start,
                end,
                "all"@,
                service@.syncing,
                configured,
                json_result(answer),
            )
            &&& parameters@.field("account"@) matches Some(JsonView::Text(account))
                ==> service@.tables.agenda_result(
                start,
                end,
                account,
                service@.syncing,
                configured,
                json_result(answer),
            )
        }),
{
}

/// Where another account signed in than the one that was to, its token is given back, nothing is
/// kept, and the request is told which account it was for.
pub proof fn strangers_are_sent_away(
    service: &mut CalendarService,
    email: String,
    given_back: bool,
    world: &Surroundings,
    turn: Turn,
)
    requires
        call_ensures(
            CalendarService::revoked,
            (service, Revoking::Stray { email }, given_back, world),
            turn,
        ),
    ensures
        final(service)@ == (ServiceView { phase: None, ..old(service)@ }),
        turn@.next matches NextView::Finished { result: Err(error) } && error.code
            == "oauth_account_mismatch"@ && error.message
            == "Wrong Google account selected. Sign in as "@ + email@ + "."@,
{
}

} // verus!
