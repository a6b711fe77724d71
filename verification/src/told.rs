//! What clients are told, field by field.
use vstd::prelude::*;

use crate::agenda::{item_json, AgendaItemView};
use crate::error::{error_response, ErrorView};
use crate::flow::{
    AfterView, AuthorizingView, ClearingView, NextView, NoticeView, RefreshView,
    SurroundingsView,
};
use crate::json::JsonView;
use crate::oauth::OAuthPhase;
use crate::order::{key_lt, sorted_in_order, sorted_same_items};
use crate::records::{AccountView, StoredCalendarView};
use crate::state::{
    account_context, account_of, account_rank, calendar_json, calendar_rank, first_error,
    has_error, in_scope, is_syncing, latest_sync, overall_status, own_calendar,
};
use crate::table::{any, filter_rows, first, first_at, first_none};
use crate::tables::Tables;
use crate::text::{folded, text_lt, text_lt_irreflexive, text_lt_transitive};
use crate::time::RangeView;
use crate::transitions::{ServiceView, Step};

verus! {

/// A text, or null where there is none.
pub open spec fn or_null(text: Option<Seq<char>>) -> JsonView {
    match text {
        Some(text) => JsonView::Text(text),
        None => JsonView::Null,
    }
}

/// Accounts are listed by their labels, with no regard to capitals, and none of them is left out.
pub proof fn accounts_are_listed_by_label(tables: Tables, a: int, b: int, account: AccountView)
    ensures
        ({
            let listed = tables.configured_accounts();
            &&& listed.len() == tables.accounts.len()
            &&& 0 <= a < b < listed.len() ==> !text_lt(
                folded(listed[b].label),
                folded(listed[a].label),
            )
            &&& listed.contains(account) <==> exists|i: int|
                0 <= i < tables.accounts.len() && (#[trigger] tables.accounts[i]).row == account
        }),
{
    let rows = tables.accounts.map_values(account_of());
    let listed = tables.configured_accounts();
    sorted_same_items(rows, rows.map_values(account_rank()));
    sorted_in_order(rows, account_rank());
    if 0 <= a < b < listed.len() {
        let x = account_rank()(listed[b]);
        let y = account_rank()(listed[a]);
        assert(!key_lt(x, y));
        assert(x[0] == folded(listed[b].label) && y[0] == folded(listed[a].label));
    }
    if rows.contains(account) {
        let i = choose|i: int| 0 <= i < rows.len() && rows[i] == account;
        assert(tables.accounts[i].row == account);
    }
    if exists|i: int|
        0 <= i < tables.accounts.len() && (#[trigger] tables.accounts[i]).row == account {
        let i = choose|i: int|
            0 <= i < tables.accounts.len() && (#[trigger] tables.accounts[i]).row == account;
        assert(rows[i] == account);
    }
}

/// The calendars of an account are listed with the primary one first, then by their labels, with no
/// regard to capitals; all of them, and no other.
pub proof fn calendars_are_listed_by_label(
    tables: Tables,
    id: Seq<char>,
    a: int,
    b: int,
    calendar: StoredCalendarView,
)
    ensures
        ({
            let listed = tables.calendars_of(id);
            &&& 0 <= a < b < listed.len() ==> {
                &&& listed[b].primary ==> listed[a].primary
                &&& listed[a].primary == listed[b].primary ==> !text_lt(
                    folded(listed[b].label),
                    folded(listed[a].label),
                )
            }
            &&& listed.contains(calendar) <==> tables.calendars.contains(calendar)
                && calendar.account_id == id
        }),
{
    let own = tables.calendars.filter(own_calendar(id));
    let listed = tables.calendars_of(id);
    filter_rows(tables.calendars, own_calendar(id));
    sorted_same_items(own, own.map_values(calendar_rank()));
    sorted_in_order(own, calendar_rank());
    if 0 <= a < b < listed.len() {
        let x = calendar_rank()(listed[b]);
        let y = calendar_rank()(listed[a]);
        assert(!key_lt(x, y));
        reveal_with_fuel(key_lt, 3);
        reveal_strlit("0");
        reveal_strlit("1");
        assert(text_lt("0"@, "1"@));
        assert(x.drop_first()[0] == x[1] && y.drop_first()[0] == y[1]);
    }
}

proof fn account_names_differ()
    ensures
        "id"@.len() == 2,
        "email"@.len() == 5 && "email"@[0] == 'e' && "email"@[1] == 'm',
        "label"@.len() == 5 && "label"@[0] == 'l',
        "enabled"@.len() == 7 && "enabled"@[0] == 'e',
        "status"@.len() == 6,
        "error"@.len() == 5 && "error"@[0] == 'e' && "error"@[1] == 'r',
        "needsReconnect"@.len() == 14,
        "connected"@.len() == 9 && "connected"@[1] == 'o',
        "lastSync"@.len() == 8 && "lastSync"@[0] == 'l',
        "calendars"@.len() == 9 && "calendars"@[1] == 'a',
        "syncing"@.len() == 7 && "syncing"@[0] == 's',
        "errorCode"@.len() == 9 && "errorCode"@[1] == 'r',
        "accounts"@.len() == 8 && "accounts"@[0] == 'a',
        "configured"@.len() == 10,
        "oauthInProgress"@.len() == 15 && "oauthInProgress"@[5] == 'I',
        "oauthCancelable"@.len() == 15 && "oauthCancelable"@[5] == 'C' && "oauthCancelable"@[11]
            == 'a',
        "oauthCancelling"@.len() == 15 && "oauthCancelling"@[5] == 'C' && "oauthCancelling"@[11]
            == 'l',
        "oauthFinishing"@.len() == 14,
        "color"@.len() == 5 && "color"@[0] == 'c',
        "selected"@.len() == 8,
        "primary"@.len() == 7,
{
    reveal_strlit("id");
    reveal_strlit("email");
    reveal_strlit("label");
    reveal_strlit("enabled");
    reveal_strlit("status");
    reveal_strlit("error");
    reveal_strlit("needsReconnect");
    reveal_strlit("connected");
    reveal_strlit("lastSync");
    reveal_strlit("calendars");
    reveal_strlit("syncing");
    reveal_strlit("errorCode");
    reveal_strlit("accounts");
    reveal_strlit("configured");
    reveal_strlit("oauthInProgress");
    reveal_strlit("oauthCancelable");
    reveal_strlit("oauthCancelling");
    reveal_strlit("oauthFinishing");
    reveal_strlit("color");
    reveal_strlit("selected");
    reveal_strlit("primary");
}

/// What an account is doing: it is synchronized while it is among those that are, else it has an
/// error or is idle. It has to sign in again where Google no longer accepts its credentials, where
/// they are missing, or where no access token came of them.
pub proof fn accounts_are_told(tables: Tables, syncing: Seq<Seq<char>>, account: AccountView)
    ensures
        ({
            let told = tables.account_json(syncing)(account);
            let again = account.error_code == Some("credentials_expired"@) || account.error_code
                == Some("credentials_missing"@) || account.error_code == Some(
                "token_refresh_failed"@,
            );
            &&& told.field("id"@) == Some(JsonView::Text(account.account_id))
            &&& told.field("email"@) == Some(JsonView::Text(account.email))
            &&& told.field("label"@) == Some(JsonView::Text(account.label))
            &&& told.field("enabled"@) == Some(JsonView::Bool(account.enabled))
            &&& told.field("status"@) == Some(
                JsonView::Text(
                    if syncing.contains(account.account_id) {
                        "syncing"@
                    } else if account.error is Some {
                        "error"@
                    } else {
                        "idle"@
                    },
                ),
            )
            &&& told.field("error"@) == Some(or_null(account.error))
            &&& told.field("needsReconnect"@) == Some(JsonView::Bool(again))
            &&& told.field("connected"@) == Some(JsonView::Bool(!again))
            &&& told.field("lastSync"@) == Some(or_null(account.last_sync))
            &&& told.field("errorCode"@) is None
            &&& told.field("calendars"@) matches Some(JsonView::Array(calendars)) && {
                let listed = tables.calendars_of(account.account_id);
                &&& calendars.len() == listed.len()
                &&& forall|i: int|
                    0 <= i < listed.len() ==> tells_calendar(#[trigger] calendars[i], listed[i])
            }
        }),
{
    account_names_differ();
    let told = tables.account_json(syncing)(account);
    let listed = tables.calendars_of(account.account_id);
    let calendars = listed.map_values(calendar_json());
    assert(told.field("calendars"@) == Some(JsonView::Array(calendars)));
    assert forall|i: int| 0 <= i < listed.len() implies tells_calendar(
        #[trigger] calendars[i],
        listed[i],
    ) by {
        calendar_is_told(listed[i]);
    }
}

/// Whether a value tells a calendar.
pub open spec fn tells_calendar(told: JsonView, calendar: StoredCalendarView) -> bool {
    &&& told.field("id"@) == Some(JsonView::Text(calendar.calendar_id))
    &&& told.field("label"@) == Some(JsonView::Text(calendar.label))
    &&& told.field("color"@) == Some(JsonView::Text(calendar.color))
    &&& told.field("selected"@) == Some(JsonView::Bool(calendar.selected))
    &&& told.field("primary"@) == Some(JsonView::Bool(calendar.primary))
}

proof fn calendar_is_told(calendar: StoredCalendarView)
    ensures
        tells_calendar(calendar_json()(calendar), calendar),
{
    account_names_differ();
}

/// What clients are told of an account beside an agenda.
pub proof fn context_is_told(syncing: Seq<Seq<char>>, account: AccountView)
    ensures
        ({
            let told = account_context(syncing)(account);
            &&& told.field("id"@) == Some(JsonView::Text(account.account_id))
            &&& told.field("label"@) == Some(JsonView::Text(account.label))
            &&& told.field("enabled"@) == Some(JsonView::Bool(account.enabled))
            &&& told.field("syncing"@) == Some(
                JsonView::Bool(syncing.contains(account.account_id)),
            )
            &&& told.field("lastSync"@) == Some(or_null(account.last_sync))
            &&& told.field("errorCode"@) == Some(or_null(account.error_code))
            &&& told.field("error"@) == Some(or_null(account.error))
        }),
{
    account_names_differ();
}

/// Whether a value tells an account of the cache that was asked for.
pub open spec fn tells_in_scope(
    tables: Tables,
    syncing: Seq<Seq<char>>,
    filter: Seq<char>,
    told: JsonView,
) -> bool {
    exists|i: int|
        0 <= i < tables.accounts.len() && (filter == "all"@ || (
        #[trigger] tables.accounts[i]).row.account_id == filter) && told == account_context(
            syncing,
        )(tables.accounts[i].row)
}

/// The context of an agenda says whether a client is set up, and tells exactly the accounts that were
/// asked for, in the order in which accounts are listed, the disabled ones among them.
pub proof fn context_tells_its_scope(
    tables: Tables,
    syncing: Seq<Seq<char>>,
    configured: bool,
    filter: Seq<char>,
    account: AccountView,
)
    ensures
        ({
            let told = tables.context(syncing, configured, filter);
            &&& told.field("configured"@) == Some(JsonView::Bool(configured))
            &&& told.field("accounts"@) matches Some(JsonView::Array(accounts)) && {
                &&& filter == "all"@ ==> accounts.len() == tables.accounts.len()
                &&& (exists|i: int|
                    0 <= i < tables.accounts.len() && (#[trigger] tables.accounts[i]).row
                        == account) && (filter == "all"@ || account.account_id == filter)
                    ==> accounts.contains(account_context(syncing)(account))
                &&& forall|k: int|
                    0 <= k < accounts.len() ==> tells_in_scope(
                        tables,
                        syncing,
                        filter,
                        #[trigger] accounts[k],
                    )
            }
        }),
{
    account_names_differ();
    let listed = tables.configured_accounts();
    let scope = listed.filter(in_scope(filter));
    let accounts = scope.map_values(account_context(syncing));
    filter_rows(listed, in_scope(filter));
    assert(tables.context(syncing, configured, filter).field("accounts"@) == Some(
        JsonView::Array(accounts),
    ));
    accounts_are_listed_by_label(tables, 0, 0, account);
    if (exists|i: int|
        0 <= i < tables.accounts.len() && (#[trigger] tables.accounts[i]).row == account) && (filter
        == "all"@ || account.account_id == filter) {
        assert(scope.contains(account));
        let k = choose|k: int| 0 <= k < scope.len() && scope[k] == account;
        assert(accounts[k] == account_context(syncing)(account));
        assert(accounts.contains(account_context(syncing)(account)));
    }
    assert forall|k: int| 0 <= k < accounts.len() implies tells_in_scope(
        tables,
        syncing,
        filter,
        #[trigger] accounts[k],
    ) by {
        assert(scope.contains(scope[k]));
        accounts_are_listed_by_label(tables, 0, 0, scope[k]);
        let i = choose|i: int|
            0 <= i < tables.accounts.len() && (#[trigger] tables.accounts[i]).row == scope[k];
        assert(tables.accounts[i].row == scope[k]);
    }
    if filter == "all"@ {
        all_are_in_scope(listed);
    }
}

proof fn all_are_in_scope(accounts: Seq<AccountView>)
    ensures
        accounts.filter(in_scope("all"@)) == accounts,
    decreases accounts.len(),
{
    reveal(Seq::filter);
    if accounts.len() > 0 {
        all_are_in_scope(accounts.drop_last());
        assert(accounts.drop_last().push(accounts.last()) =~= accounts);
    }
}

/// The status of all accounts together: nothing can be done without a client; there may be no
/// account; else one that is being synchronized counts before one with an error.
pub proof fn overall_status_is_told(
    accounts: Seq<AccountView>,
    syncing: Seq<Seq<char>>,
    configured: bool,
)
    ensures
        ({
            let busy = exists|i: int|
                0 <= i < accounts.len() && syncing.contains((#[trigger] accounts[i]).account_id);
            let failed = exists|i: int|
                0 <= i < accounts.len() && (#[trigger] accounts[i]).error is Some;
            overall_status(accounts, syncing, configured) == if !configured {
                "not_configured"@
            } else if accounts.len() == 0 {
                "empty"@
            } else if busy {
                "syncing"@
            } else if failed {
                "error"@
            } else {
                "idle"@
            }
        }),
{
    first_none(accounts, is_syncing(syncing));
    first_none(accounts, has_error());
    if any(accounts, is_syncing(syncing)) {
        let i = choose|i: int|
            0 <= i < accounts.len() && is_syncing(syncing)(#[trigger] accounts[i]);
        assert(syncing.contains(accounts[i].account_id));
    }
    if exists|i: int|
        0 <= i < accounts.len() && syncing.contains((#[trigger] accounts[i]).account_id) {
        let i = choose|i: int|
            0 <= i < accounts.len() && syncing.contains((#[trigger] accounts[i]).account_id);
        assert(is_syncing(syncing)(accounts[i]));
    }
    if any(accounts, has_error()) {
        let i = choose|i: int| 0 <= i < accounts.len() && has_error()(#[trigger] accounts[i]);
        assert(accounts[i].error is Some);
    }
    if exists|i: int| 0 <= i < accounts.len() && (#[trigger] accounts[i]).error is Some {
        let i = choose|i: int| 0 <= i < accounts.len() && (#[trigger] accounts[i]).error is Some;
        assert(has_error()(accounts[i]));
    }
}

/// The error that is told of all accounts is that of the first one that has any.
pub proof fn first_error_is_told(accounts: Seq<AccountView>, at: int)
    ensures
        0 <= at < accounts.len() && accounts[at].error is Some && (forall|i: int|
            0 <= i < at ==> (#[trigger] accounts[i]).error is None) ==> first_error(accounts)
            == accounts[at].error,
        (forall|i: int| 0 <= i < accounts.len() ==> (#[trigger] accounts[i]).error is None)
            ==> first_error(accounts) is None,
{
    if 0 <= at < accounts.len() && accounts[at].error is Some && (forall|i: int|
        0 <= i < at ==> (#[trigger] accounts[i]).error is None) {
        assert forall|i: int| 0 <= i < at implies !has_error()(#[trigger] accounts[i]) by {}
        first_at(accounts, has_error(), at);
    }
    first_none(accounts, has_error());
}

/// The time of the last synchronization that is told of all accounts is one of theirs, and none of
/// theirs is later; there is none exactly where no account has any.
pub proof fn latest_sync_is_told(accounts: Seq<AccountView>)
    ensures
        latest_sync(accounts) matches Some(latest) ==> {
            &&& exists|i: int|
                0 <= i < accounts.len() && (#[trigger] accounts[i]).last_sync == Some(latest)
            &&& forall|i: int|
                0 <= i < accounts.len() ==> ((#[trigger] accounts[i]).last_sync matches Some(time)
                    ==> !text_lt(latest, time))
        },
        latest_sync(accounts) is None ==> forall|i: int|
            0 <= i < accounts.len() ==> (#[trigger] accounts[i]).last_sync is None,
    decreases accounts.len(),
{
    if accounts.len() > 0 {
        let front = accounts.drop_last();
        latest_sync_is_told(front);
        let last = accounts.len() - 1;
        assert(accounts[last] == accounts.last());
        if let Some(latest) = latest_sync(accounts) {
            if accounts.last().last_sync == Some(latest) {
                text_lt_irreflexive(latest);
            }
            if latest_sync(front) == Some(latest) {
                let i = choose|i: int|
                    0 <= i < front.len() && (#[trigger] front[i]).last_sync == Some(latest);
                assert(accounts[i].last_sync == Some(latest));
            }
            assert forall|i: int| 0 <= i < accounts.len() implies (
            (#[trigger] accounts[i]).last_sync matches Some(time) ==> !text_lt(latest, time)) by {
                if i < last {
                    assert(front[i] == accounts[i]);
                    if let Some(time) = front[i].last_sync {
                        let known = latest_sync(front)->0;
                        if text_lt(latest, time) && latest != known {
                            text_lt_transitive(known, latest, time);
                        }
                    }
                }
            }
        } else {
            assert forall|i: int| 0 <= i < accounts.len() implies (
            #[trigger] accounts[i]).last_sync is None by {
                if i < last {
                    assert(front[i] == accounts[i]);
                }
            }
        }
    }
}

/// The state that clients see: the status, the error and the last synchronization of all accounts,
/// every account, and how far a sign-in has come.
pub proof fn state_is_told(service: ServiceView, configured: bool)
    ensures
        ({
            let told = service.state(configured);
            let accounts = service.tables.configured_accounts();
            &&& told.field("status"@) == Some(
                JsonView::Text(overall_status(accounts, service.syncing, configured)),
            )
            &&& told.field("error"@) == Some(or_null(first_error(accounts)))
            &&& told.field("lastSync"@) == Some(or_null(latest_sync(accounts)))
            &&& told.field("accounts"@) matches Some(JsonView::Array(listed)) && {
                &&& listed.len() == service.tables.accounts.len()
                &&& forall|i: int|
                    0 <= i < listed.len() ==> #[trigger] listed[i] == service.tables.account_json(
                        service.syncing,
                    )(accounts[i])
            }
            &&& told.field("oauthInProgress"@) == Some(JsonView::Bool(service.phase is Some))
            &&& told.field("oauthCancelable"@) == Some(
                JsonView::Bool(service.phase == Some(OAuthPhase::Waiting)),
            )
            &&& told.field("oauthCancelling"@) == Some(
                JsonView::Bool(service.phase == Some(OAuthPhase::Cancelled)),
            )
            &&& told.field("oauthFinishing"@) == Some(
                JsonView::Bool(service.phase == Some(OAuthPhase::Finishing)),
            )
        }),
{
    account_names_differ();
    let accounts = service.tables.configured_accounts();
    let listed = accounts.map_values(service.tables.account_json(service.syncing));
    assert(service.state(configured).field("accounts"@) == Some(JsonView::Array(listed)));
    let some = accounts[0];
    accounts_are_listed_by_label(service.tables, 0, 0, some);
}

/// An item of an agenda is told with all that it holds, and as an event or a task.
pub proof fn items_are_told(item: AgendaItemView)
    ensures
        ({
            let told = item_json()(item);
            &&& told.field("id"@) == Some(JsonView::Text(item.id))
            &&& item.is_task ==> told.field("type"@) == Some(JsonView::Text("task"@))
            &&& !item.is_task ==> told.field("type"@) == Some(JsonView::Text("event"@))
            &&& told.field("accountId"@) == Some(JsonView::Text(item.account_id))
            &&& told.field("accountLabel"@) == Some(JsonView::Text(item.account_label))
            &&& told.field("calendarId"@) == Some(JsonView::Text(item.calendar_id))
            &&& told.field("calendarLabel"@) == Some(JsonView::Text(item.calendar_label))
            &&& told.field("color"@) == Some(JsonView::Text(item.color))
            &&& told.field("title"@) == Some(JsonView::Text(item.title))
            &&& told.field("start"@) == Some(JsonView::Text(item.start))
            &&& told.field("end"@) == Some(JsonView::Text(item.end))
            &&& told.field("allDay"@) == Some(JsonView::Bool(item.all_day))
            &&& told.field("dueDate"@) == Some(or_null(item.due_date))
            &&& told.field("location"@) == Some(JsonView::Text(item.location))
            &&& told.field("url"@) == Some(JsonView::Text(item.url))
            &&& told.field("reminders"@) == Some(item.reminders)
            &&& told.field("icalUid"@) == Some(or_null(item.ical_uid))
            &&& told.field("occurrenceStart"@) == Some(or_null(item.occurrence_start))
        }),
{
    reveal_strlit("id");
    reveal_strlit("type");
    reveal_strlit("accountId");
    reveal_strlit("accountLabel");
    reveal_strlit("calendarId");
    reveal_strlit("calendarLabel");
    reveal_strlit("color");
    reveal_strlit("title");
    reveal_strlit("start");
    reveal_strlit("end");
    reveal_strlit("allDay");
    reveal_strlit("dueDate");
    reveal_strlit("location");
    reveal_strlit("url");
    reveal_strlit("reminders");
    reveal_strlit("icalUid");
    reveal_strlit("occurrenceStart");
    assert("id"@.len() == 2 && "type"@.len() == 4 && "accountId"@.len() == 9
        && "accountLabel"@.len() == 12 && "calendarId"@.len() == 10 && "calendarLabel"@.len() == 13
        && "color"@.len() == 5 && "title"@.len() == 5 && "start"@.len() == 5 && "end"@.len() == 3
        && "allDay"@.len() == 6 && "dueDate"@.len() == 7 && "location"@.len() == 8 && "url"@.len()
        == 3 && "reminders"@.len() == 9 && "icalUid"@.len() == 7 && "occurrenceStart"@.len() == 15);
    assert("accountId"@[0] == 'a' && "reminders"@[0] == 'r');
    assert("color"@[0] == 'c' && "title"@[0] == 't' && "start"@[0] == 's');
    assert("end"@[0] == 'e' && "url"@[0] == 'u');
    assert("dueDate"@[0] == 'd' && "icalUid"@[0] == 'i');
}

/// The answer to an agenda request names its range as it was asked for, the time at which it was
/// given, and what is known of the accounts in scope; its items are those of the agenda, in their
/// order. A request for an account that is not there is refused.
pub proof fn agendas_are_told(
    tables: Tables,
    start: Seq<char>,
    end: Seq<char>,
    bounds: RangeView,
    filter: Seq<char>,
    syncing: Seq<Seq<char>>,
    configured: bool,
    generated_at: Seq<char>,
)
    ensures
        ({
            let answer = tables.agenda_answer(
                start,
                end,
                bounds,
                filter,
                syncing,
                configured,
                generated_at,
            );
            let known = exists|i: int|
                0 <= i < tables.accounts.len() && (#[trigger] tables.accounts[i]).row.account_id
                    == filter;
            let listed = tables.agenda(bounds, filter);
            &&& filter != "all"@ && !known ==> (answer matches Err(error) && error.code
                == "account_not_found"@)
            &&& filter == "all"@ || known ==> (answer matches Ok(told) && {
                &&& told.field("start"@) == Some(JsonView::Text(start))
                &&& told.field("end"@) == Some(JsonView::Text(end))
                &&& told.field("generatedAt"@) == Some(JsonView::Text(generated_at))
                &&& told.field("context"@) == Some(tables.context(syncing, configured, filter))
                &&& told.field("items"@) matches Some(JsonView::Array(items)) && items.len()
                    == listed.len() && forall|i: int|
                    0 <= i < items.len() ==> #[trigger] items[i] == item_json()(listed[i])
            })
        }),
{
    reveal_strlit("start");
    reveal_strlit("end");
    reveal_strlit("items");
    reveal_strlit("generatedAt");
    reveal_strlit("context");
    assert("start"@.len() == 5 && "end"@.len() == 3 && "items"@.len() == 5 && "generatedAt"@.len()
        == 11 && "context"@.len() == 7);
    assert("start"@[0] == 's' && "items"@[0] == 'i');
    let named = crate::tables::named_account(filter);
    if tables.has_account(filter) {
        let i = choose|i: int| 0 <= i < tables.accounts.len() && named(#[trigger] tables.accounts[i]);
        assert(tables.accounts[i].row.account_id == filter);
    }
    if exists|i: int|
        0 <= i < tables.accounts.len() && (#[trigger] tables.accounts[i]).row.account_id == filter {
        let i = choose|i: int|
            0 <= i < tables.accounts.len() && (#[trigger] tables.accounts[i]).row.account_id
                == filter;
        assert(named(tables.accounts[i]));
    }
    if filter == "all"@ || tables.has_account(filter) {
        let told = tables.agenda_answer(
            start,
            end,
            bounds,
            filter,
            syncing,
            configured,
            generated_at,
        )->Ok_0;
        assert(told.field("items"@) == Some(
            JsonView::Array(tables.agenda(bounds, filter).map_values(item_json())),
        ));
    }
}

/// An error is told with its code and its message, to the request that it answers.
pub proof fn errors_are_told(error: ErrorView, request_id: JsonView)
    ensures
        ({
            let told = error_response(error, request_id);
            &&& told.field("id"@) == Some(request_id)
            &&& told.field("ok"@) == Some(JsonView::Bool(false))
            &&& told.field("error"@) matches Some(inner) && inner.field("code"@) == Some(
                JsonView::Text(error.code),
            ) && inner.field("message"@) == Some(JsonView::Text(error.message))
        }),
{
    reveal_strlit("id");
    reveal_strlit("ok");
    reveal_strlit("error");
    reveal_strlit("code");
    reveal_strlit("message");
    assert("id"@.len() == 2 && "ok"@.len() == 2 && "error"@.len() == 5 && "code"@.len() == 4
        && "message"@.len() == 7);
    assert("id"@[0] == 'i' && "ok"@[0] == 'o');
}

/// Whether clients are told the state of the service as a step leaves it, after all else that they
/// are told.
pub open spec fn tells_state_last(step: Step, configured: bool) -> bool {
    step.1.notices.len() > 0 && step.1.notices.last() == (NoticeView {
        event: "state_changed"@,
        data: step.0.state(configured),
    })
}

/// Clients are told the new state when a sign-in begins, is given up or is over, and when an account
/// begins to be synchronized.
pub proof fn changes_are_told(
    service: ServiceView,
    run: AuthorizingView,
    error: ErrorView,
    waiting: Seq<Seq<char>>,
    results: Seq<JsonView>,
    after: AfterView,
    notices: Seq<NoticeView>,
    world: SurroundingsView,
)
    ensures
        service.phase is None ==> tells_state_last(
            service.begin_sign_in(run, world),
            world.configured,
        ),
        tells_state_last(service.authorized(run, Err(error), world), world.configured),
        tells_state_last(
            service.cleared(ClearingView::Undo { error }, Ok(()), world),
            world.configured,
        ),
        service.phase == Some(OAuthPhase::Waiting) ==> tells_state_last(
            service.cancel_add_account(world),
            world.configured,
        ),
        waiting.len() > 0 ==> tells_state_last(
            service.next_account(waiting, results, after, notices, world),
            world.configured,
        ),
{
}

/// When an account came to the end of its synchronization, clients are told the state without it
/// first; when a refresh is over that synchronized any account, and when an account was removed,
/// they are told that agendas may have changed.
pub proof fn ends_are_told(
    service: ServiceView,
    refresh: RefreshView,
    result: std::result::Result<(), ErrorView>,
    id: Seq<char>,
    revoked: bool,
    world: SurroundingsView,
)
    ensures
        ({
            let step = service.account_done(refresh, result, world);
            &&& step.1.notices.len() >= 2
            &&& step.1.notices[0].event == "state_changed"@
            &&& refresh.waiting.len() == 0 && refresh.after is Reply ==> step.1.notices.len() == 2
                && step.1.notices[0].data == step.0.state(world.configured)
                && step.1.notices[1].event == "agenda_changed"@
            &&& refresh.waiting.len() > 0 ==> tells_state_last(step, world.configured)
        }),
        ({
            let step = service.cleared(
                ClearingView::Remove { account_id: id, revoked },
                Ok(()),
                world,
            );
            &&& step.1.notices.len() == 2
            &&& step.1.notices[0] == (NoticeView {
                event: "state_changed"@,
                data: step.0.state(world.configured),
            })
            &&& step.1.notices[1].event == "agenda_changed"@
        }),
{
}

/// A sign-in that the user gives up while at Google is cancelled, and told so; without one, or when
/// Google has answered already, it is told that there is nothing to cancel.
pub proof fn cancelling_is_told(service: ServiceView, world: SurroundingsView)
    ensures
        ({
            let step = service.cancel_add_account(world);
            &&& step.1.next matches NextView::Finished { result: Ok(answer) } && {
                &&& answer.field("cancelled"@) == Some(
                    JsonView::Bool(
                        service.phase == Some(OAuthPhase::Waiting) || service.phase == Some(
                            OAuthPhase::Cancelled,
                        ),
                    ),
                )
                &&& service.phase is None ==> answer.field("reason"@) == Some(
                    JsonView::Text("not_in_progress"@),
                )
                &&& service.phase == Some(OAuthPhase::Cancelled) ==> answer.field("reason"@)
                    == Some(JsonView::Text("already_cancelled"@))
                &&& service.phase == Some(OAuthPhase::Finishing) ==> answer.field("reason"@)
                    == Some(JsonView::Text("finishing"@))
            }
            &&& step.0.tables == service.tables
            &&& service.phase == Some(OAuthPhase::Waiting) ==> step.0.phase == Some(
                OAuthPhase::Cancelled,
            )
            &&& service.phase != Some(OAuthPhase::Waiting) ==> step.0 == service
        }),
{
    reveal_strlit("cancelled");
    reveal_strlit("reason");
    assert("cancelled"@.len() == 9 && "reason"@.len() == 6);
}

/// Every method does what its name says, under either of its names; a name that no method has is
/// refused, and nothing is done.
pub proof fn methods_do_what_they_name(
    service: ServiceView,
    method: Seq<char>,
    parameters: JsonView,
    world: SurroundingsView,
    step: Step,
)
    requires
        service.dispatched(method, parameters, world, step),
    ensures
        method == "get_state"@ || method == "status"@ ==> step == service.answered(
            Seq::empty(),
            Ok(service.state(world.configured)),
        ),
        method == "get_agenda"@ || method == "list_agenda"@ ==> exists|result|
            service.agenda_result(parameters, world.configured, result) && step
                == #[trigger] service.answered(Seq::empty(), result),
        method == "refresh"@ ==> step == service.refresh(parameters, world),
        method == "add_account"@ || method == "add"@ ==> step == service.add_account(
            parameters,
            world,
        ),
        method == "reconnect_account"@ || method == "reconnect"@ ==> step
            == service.reconnect_account(parameters, world),
        method == "cancel_add_account"@ || method == "cancel"@ ==> step
            == service.cancel_add_account(world),
        method == "remove_account"@ || method == "remove"@ ==> step == service.remove_account(
            parameters,
        ),
        method == "open_item"@ ==> step == service.open_item(parameters),
        method != "get_state"@ && method != "status"@ && method != "get_agenda"@ && method
            != "list_agenda"@ && method != "refresh"@ && method != "add_account"@ && method
            != "add"@ && method != "reconnect_account"@ && method != "reconnect"@ && method
            != "cancel_add_account"@ && method != "cancel"@ && method != "remove_account"@
            && method != "remove"@ && method != "open_item"@ ==> step.0 == service && (
        step.1.next matches NextView::Finished { result: Err(error) } && error.code
            == "method_not_found"@),
{
    reveal_strlit("get_state");
    reveal_strlit("status");
    reveal_strlit("get_agenda");
    reveal_strlit("list_agenda");
    reveal_strlit("refresh");
    reveal_strlit("add_account");
    reveal_strlit("add");
    reveal_strlit("reconnect_account");
    reveal_strlit("reconnect");
    reveal_strlit("cancel_add_account");
    reveal_strlit("cancel");
    reveal_strlit("remove_account");
    reveal_strlit("remove");
    reveal_strlit("open_item");
    assert("get_state"@.len() == 9 && "status"@.len() == 6 && "get_agenda"@.len() == 10
        && "list_agenda"@.len() == 11 && "refresh"@.len() == 7 && "add_account"@.len() == 11
        && "add"@.len() == 3 && "reconnect_account"@.len() == 17 && "reconnect"@.len() == 9
        && "cancel_add_account"@.len() == 18 && "cancel"@.len() == 6 && "remove_account"@.len()
        == 14 && "remove"@.len() == 6 && "open_item"@.len() == 9);
    assert("get_state"@[0] == 'g' && "reconnect"@[0] == 'r' && "open_item"@[0] == 'o');
    assert("status"@[0] == 's' && "cancel"@[0] == 'c' && "remove"@[0] == 'r');
    assert("list_agenda"@[0] == 'l' && "add_account"@[0] == 'a');
}

} // verus!
