//! What the cache tells of its accounts and their synchronization.
use vstd::prelude::*;

use crate::database::{holds, Database};
use crate::json::{json_list, text_or_null, Json, JsonObject, JsonView};
use crate::order::{keys_view, sorted, sorted_same_items, stable_sorted};
use crate::records::{
    AccountRow, AccountView, CalendarRow, CalendarRowView, StoredAccount, StoredAccountView,
    StoredCalendar, StoredCalendarView,
};
use crate::table::{filter_rows, first, position, retain, rows};
use crate::tables::Tables;
use crate::text::{fold, folded, optional_view, text_eq, text_less, text_lt, texts};

verus! {

broadcast use crate::json::group_json;

/// The account of a stored one.
pub open spec fn account_of() -> spec_fn(StoredAccountView) -> AccountView {
    |account: StoredAccountView| account.row
}

/// By what accounts are listed: their labels, with no regard to the case of ASCII letters.
pub open spec fn account_rank() -> spec_fn(AccountView) -> Seq<Seq<char>> {
    |account: AccountView| seq![folded(account.label)]
}

/// A calendar of an account.
pub open spec fn own_calendar(id: Seq<char>) -> spec_fn(StoredCalendarView) -> bool {
    |calendar: StoredCalendarView| calendar.account_id == id
}

/// By what calendars are listed: the primary one first, then by their labels, with no regard to
/// the case of ASCII letters.
pub open spec fn calendar_rank() -> spec_fn(StoredCalendarView) -> Seq<Seq<char>> {
    |calendar: StoredCalendarView|
        seq![
            if calendar.primary {
                "0"@
            } else {
                "1"@
            },
            folded(calendar.label),
        ]
}

/// Where the synchronization of a calendar stands.
pub open spec fn progress() -> spec_fn(StoredCalendarView) -> CalendarRowView {
    |calendar: StoredCalendarView|
        CalendarRowView {
            calendar_id: calendar.calendar_id,
            sync_token: calendar.sync_token,
            full_sync_at: calendar.full_sync_at,
        }
}

/// A calendar as clients see it.
pub open spec fn calendar_json() -> spec_fn(StoredCalendarView) -> JsonView {
    |calendar: StoredCalendarView|
        JsonView::Object(
            Map::empty()
                .insert("id"@, JsonView::Text(calendar.calendar_id))
                .insert("label"@, JsonView::Text(calendar.label))
                .insert("color"@, JsonView::Text(calendar.color))
                .insert("selected"@, JsonView::Bool(calendar.selected))
                .insert("primary"@, JsonView::Bool(calendar.primary)),
        )
}

/// What an account is doing: a running synchronization hides the error of an earlier one.
pub open spec fn account_status(account: AccountView, syncing: Seq<Seq<char>>) -> Seq<char> {
    if syncing.contains(account.account_id) {
        "syncing"@
    } else if account.error is Some {
        "error"@
    } else {
        "idle"@
    }
}

/// Whether an account has to sign in again: Google no longer accepts what is kept of its last
/// sign-in.
pub open spec fn needs_reconnect(account: AccountView) -> bool {
    account.error_code == Some("credentials_expired"@) || account.error_code == Some(
        "credentials_missing"@,
    ) || account.error_code == Some("token_refresh_failed"@)
}

/// An account that is being synchronized.
pub open spec fn is_syncing(syncing: Seq<Seq<char>>) -> spec_fn(AccountView) -> bool {
    |account: AccountView| syncing.contains(account.account_id)
}

/// An account whose last synchronization failed.
pub open spec fn has_error() -> spec_fn(AccountView) -> bool {
    |account: AccountView| account.error is Some
}

/// What the accounts are doing, taken together.
pub open spec fn overall_status(
    accounts: Seq<AccountView>,
    syncing: Seq<Seq<char>>,
    configured: bool,
) -> Seq<char> {
    if !configured {
        "not_configured"@
    } else if accounts.len() == 0 {
        "empty"@
    } else if first(accounts, is_syncing(syncing)) is Some {
        "syncing"@
    } else if first(accounts, has_error()) is Some {
        "error"@
    } else {
        "idle"@
    }
}

/// The first error of a list of accounts.
pub open spec fn first_error(accounts: Seq<AccountView>) -> Option<Seq<char>> {
    match first(accounts, has_error()) {
        Some(account) => account.error,
        None => None,
    }
}

/// The last of the times at which accounts were synchronized.
pub open spec fn latest_sync(accounts: Seq<AccountView>) -> Option<Seq<char>>
    decreases accounts.len(),
{
    if accounts.len() == 0 {
        None
    } else {
        match (latest_sync(accounts.drop_last()), accounts.last().last_sync) {
            (Some(latest), Some(time)) => if text_lt(latest, time) {
                Some(time)
            } else {
                Some(latest)
            },
            (Some(latest), None) => Some(latest),
            (None, time) => time,
        }
    }
}

/// What clients are told of an account, among the answers to an agenda.
pub open spec fn account_context(syncing: Seq<Seq<char>>) -> spec_fn(AccountView) -> JsonView {
    |account: AccountView|
        JsonView::Object(
            Map::empty()
                .insert("id"@, JsonView::Text(account.account_id))
                .insert("label"@, JsonView::Text(account.label))
                .insert("enabled"@, JsonView::Bool(account.enabled))
                .insert("syncing"@, JsonView::Bool(syncing.contains(account.account_id)))
                .insert("lastSync"@, text_or_null(account.last_sync))
                .insert("errorCode"@, text_or_null(account.error_code))
                .insert("error"@, text_or_null(account.error)),
        )
}

/// The accounts that a filter lets through: all of them, or the one that it names.
pub open spec fn in_scope(filter: Seq<char>) -> spec_fn(AccountView) -> bool {
    |account: AccountView| filter == "all"@ || account.account_id == filter
}

impl Tables {
    /// The accounts, as they are listed.
    pub open spec fn configured_accounts(self) -> Seq<AccountView> {
        let accounts = self.accounts.map_values(account_of());
        stable_sorted(accounts, accounts.map_values(account_rank()))
    }

    /// The calendars of an account, as they are listed.
    pub open spec fn calendars_of(self, id: Seq<char>) -> Seq<StoredCalendarView> {
        let calendars = self.calendars.filter(own_calendar(id));
        stable_sorted(calendars, calendars.map_values(calendar_rank()))
    }

    /// An account as clients see it.
    pub open spec fn account_json(self, syncing: Seq<Seq<char>>) -> spec_fn(
        AccountView,
    ) -> JsonView {
        |account: AccountView|
            JsonView::Object(
                Map::empty()
                    .insert("id"@, JsonView::Text(account.account_id))
                    .insert("email"@, JsonView::Text(account.email))
                    .insert("label"@, JsonView::Text(account.label))
                    .insert("enabled"@, JsonView::Bool(account.enabled))
                    .insert("status"@, JsonView::Text(account_status(account, syncing)))
                    .insert("error"@, text_or_null(account.error))
                    .insert("needsReconnect"@, JsonView::Bool(needs_reconnect(account)))
                    .insert("connected"@, JsonView::Bool(!needs_reconnect(account)))
                    .insert("lastSync"@, text_or_null(account.last_sync))
                    .insert(
                        "calendars"@,
                        JsonView::Array(
                            self.calendars_of(account.account_id).map_values(calendar_json()),
                        ),
                    ),
            )
    }

    /// The fields of the state that clients see.
    pub open spec fn state_fields(self, syncing: Seq<Seq<char>>, configured: bool) -> Map<
        Seq<char>,
        JsonView,
    > {
        let accounts = self.configured_accounts();
        Map::empty()
            .insert("status"@, JsonView::Text(overall_status(accounts, syncing, configured)))
            .insert("error"@, text_or_null(first_error(accounts)))
            .insert("lastSync"@, text_or_null(latest_sync(accounts)))
            .insert("accounts"@, JsonView::Array(accounts.map_values(self.account_json(syncing))))
    }

    /// What clients are told of the accounts in scope, among the answers to an agenda.
    pub open spec fn context(
        self,
        syncing: Seq<Seq<char>>,
        configured: bool,
        filter: Seq<char>,
    ) -> JsonView {
        JsonView::Object(
            Map::empty()
                .insert("configured"@, JsonView::Bool(configured))
                .insert(
                    "accounts"@,
                    JsonView::Array(
                        self.configured_accounts().filter(in_scope(filter)).map_values(
                            account_context(syncing),
                        ),
                    ),
                ),
        )
    }
}

/// What clients are told of all accounts leaves none out, whether it is enabled or not; of one
/// account, it names no other.
pub proof fn context_covers_its_scope(tables: Tables, filter: Seq<char>, account: AccountView)
    ensures
        tables.configured_accounts().filter(in_scope("all"@)).contains(account)
            <==> tables.accounts.map_values(account_of()).contains(account),
        filter != "all"@ ==> (tables.configured_accounts().filter(in_scope(filter)).contains(account)
            <==> tables.accounts.map_values(account_of()).contains(account) && account.account_id
            == filter),
{
    let accounts = tables.accounts.map_values(account_of());
    sorted_same_items(accounts, accounts.map_values(account_rank()));
    filter_rows(tables.configured_accounts(), in_scope("all"@));
    filter_rows(tables.configured_accounts(), in_scope(filter));
}

fn reconnect_needed(account: &AccountRow) -> (result: bool)
    ensures
        result == needs_reconnect(account@),
{
    match &account.error_code {
        Some(code) => text_eq(code.as_str(), "credentials_expired") || text_eq(
            code.as_str(),
            "credentials_missing",
        ) || text_eq(code.as_str(), "token_refresh_failed"),
        None => false,
    }
}

fn status_of(account: &AccountRow, syncing: &Vec<String>) -> (status: &'static str)
    ensures
        status@ == account_status(account@, texts(syncing@)),
{
    if holds(syncing, account.account_id.as_str()) {
        "syncing"
    } else if account.error.is_some() {
        "error"
    } else {
        "idle"
    }
}

fn calendar_value(calendar: &StoredCalendar) -> (json: Json)
    ensures
        json@ == calendar_json()(calendar@),
{
    Json::Object(
        JsonObject::new()
            .with("id", Json::Text(calendar.calendar_id.clone()))
            .with("label", Json::Text(calendar.label.clone()))
            .with("color", Json::Text(calendar.color.clone()))
            .with("selected", Json::Bool(calendar.selected))
            .with("primary", Json::Bool(calendar.primary)),
    )
}

fn context_value(account: &AccountRow, syncing: &Vec<String>) -> (json: Json)
    ensures
        json@ == account_context(texts(syncing@))(account@),
{
    Json::Object(
        JsonObject::new()
            .with("id", Json::Text(account.account_id.clone()))
            .with("label", Json::Text(account.label.clone()))
            .with("enabled", Json::Bool(account.enabled))
            .with("syncing", Json::Bool(holds(syncing, account.account_id.as_str())))
            .with("lastSync", Json::optional(&account.last_sync))
            .with("errorCode", Json::optional(&account.error_code))
            .with("error", Json::optional(&account.error)),
    )
}

fn latest_of(accounts: &Vec<AccountRow>) -> (latest: Option<String>)
    ensures
        optional_view(latest) == latest_sync(rows(accounts@)),
{
    let ghost all = rows(accounts@);
    let mut latest: Option<String> = None;
    assert(all.take(0) =~= Seq::<AccountView>::empty());
    for i in 0..accounts.len()
        invariant
            all == rows(accounts@),
            optional_view(latest) == latest_sync(all.take(i as int)),
    {
        assert(all.take(i + 1).drop_last() =~= all.take(i as int));
        assert(all.take(i + 1).last() == accounts@[i as int]@);
        if let Some(time) = &accounts[i].last_sync {
            let later: bool = match &latest {
                Some(known) => text_less(known.as_str(), time.as_str()),
                None => true,
            };
            if later {
                latest = Some(time.clone());
            }
        }
    }
    assert(all.take(accounts@.len() as int) =~= all);
    latest
}

impl Database {
    /// The accounts, by label.
    pub fn configured_accounts(&self) -> (accounts: Vec<AccountRow>)
        ensures
            rows(accounts@) == self@.configured_accounts(),
    {
        let stored: &Vec<StoredAccount> = self.stored_accounts();
        let mut accounts: Vec<AccountRow> = Vec::new();
        let mut ranks: Vec<Vec<String>> = Vec::new();
        for i in 0..stored.len()
            invariant
                accounts@.len() == i,
                ranks@.len() == i,
                forall|j: int| 0 <= j < i ==> (#[trigger] accounts@[j])@ == stored@[j]@.row,
                forall|j: int|
                    0 <= j < i ==> texts((#[trigger] ranks@[j])@) == account_rank()(
                        stored@[j]@.row,
                    ),
        {
            accounts.push(stored[i].row.clone());
            let mut rank: Vec<String> = Vec::new();
            rank.push(fold(stored[i].row.label.as_str()));
            assert(texts(rank@) =~= seq![folded(stored@[i as int]@.row.label)]);
            ranks.push(rank);
        }
        assert(rows(accounts@) =~= self@.accounts.map_values(account_of()));
        assert(keys_view(ranks@) =~= rows(accounts@).map_values(account_rank()));
        sorted(&accounts, &ranks)
    }

    fn listed_calendars(&self, account_id: &str) -> (calendars: Vec<StoredCalendar>)
        ensures
            rows(calendars@) == self@.calendars_of(account_id@),
    {
        let stored: &Vec<StoredCalendar> = self.stored_calendars();
        let mut calendars: Vec<StoredCalendar> = Vec::new();
        for i in 0..stored.len()
            invariant
                calendars@.len() == i,
                forall|j: int| 0 <= j < i ==> (#[trigger] calendars@[j])@ == stored@[j]@,
        {
            calendars.push(stored[i].clone());
        }
        assert(rows(calendars@) =~= self@.calendars);
        let own = |calendar: &StoredCalendar| -> (answer: bool)
            ensures
                answer == own_calendar(account_id@)(calendar@)
            {
                text_eq(calendar.account_id.as_str(), account_id)
            };
        retain(&mut calendars, own, Ghost(own_calendar(account_id@)));
        let mut ranks: Vec<Vec<String>> = Vec::new();
        for i in 0..calendars.len()
            invariant
                ranks@.len() == i,
                forall|j: int|
                    0 <= j < i ==> texts((#[trigger] ranks@[j])@) == calendar_rank()(
                        calendars@[j]@,
                    ),
        {
            let mut rank: Vec<String> = Vec::new();
            if calendars[i].primary {
                rank.push("0".to_owned());
            } else {
                rank.push("1".to_owned());
            }
            rank.push(fold(calendars[i].label.as_str()));
            assert(texts(rank@) =~= calendar_rank()(calendars@[i as int]@));
            ranks.push(rank);
        }
        assert(keys_view(ranks@) =~= rows(calendars@).map_values(calendar_rank()));
        sorted(&calendars, &ranks)
    }

    /// Where the synchronization of the calendars of an account stands: the primary one first,
    /// then by label.
    pub fn calendars(&self, account_id: &str) -> (calendars: Vec<CalendarRow>)
        ensures
            rows(calendars@) == self@.calendars_of(account_id@).map_values(progress()),
    {
        let listed: Vec<StoredCalendar> = self.listed_calendars(account_id);
        let mut calendars: Vec<CalendarRow> = Vec::new();
        for i in 0..listed.len()
            invariant
                calendars@.len() == i,
                forall|j: int| 0 <= j < i ==> (#[trigger] calendars@[j])@ == progress()(listed@[j]@),
        {
            let row = CalendarRow {
                calendar_id: listed[i].calendar_id.clone(),
                sync_token: listed[i].sync_token.clone(),
                full_sync_at: listed[i].full_sync_at.clone(),
            };
            calendars.push(row);
        }
        assert(rows(calendars@) =~= self@.calendars_of(account_id@).map_values(progress()));
        calendars
    }

    pub fn account_value(&self, account: &AccountRow, syncing: &Vec<String>) -> (json: Json)
        ensures
            json@ == self@.account_json(texts(syncing@))(account@),
    {
        let listed: Vec<StoredCalendar> = self.listed_calendars(account.account_id.as_str());
        let write = |calendar: &StoredCalendar| -> (json: Json)
            ensures
                json@ == calendar_json()(calendar@)
            {
                calendar_value(calendar)
            };
        let calendars: Vec<Json> = json_list(&listed, write, Ghost(calendar_json()));
        let reconnect: bool = reconnect_needed(account);
        Json::Object(
            JsonObject::new()
                .with("id", Json::Text(account.account_id.clone()))
                .with("email", Json::Text(account.email.clone()))
                .with("label", Json::Text(account.label.clone()))
                .with("enabled", Json::Bool(account.enabled))
                .with("status", Json::text(status_of(account, syncing)))
                .with("error", Json::optional(&account.error))
                .with("needsReconnect", Json::Bool(reconnect))
                .with("connected", Json::Bool(!reconnect))
                .with("lastSync", Json::optional(&account.last_sync))
                .with("calendars", Json::Array(calendars)),
        )
    }

    /// The state that clients see: every account with its calendars, and what they are doing.
    pub fn state(&self, syncing: &Vec<String>, configured: bool) -> (fields: JsonObject)
        ensures
            fields@ == self@.state_fields(texts(syncing@), configured),
    {
        let accounts: Vec<AccountRow> = self.configured_accounts();
        let busy = |account: &AccountRow| -> (answer: bool)
            ensures
                answer == is_syncing(texts(syncing@))(account@)
            {
                holds(syncing, account.account_id.as_str())
            };
        let failed = |account: &AccountRow| -> (answer: bool)
            ensures
                answer == has_error()(account@)
            {
                account.error.is_some()
            };
        let busy_at: Option<usize> = position(&accounts, busy, Ghost(is_syncing(texts(syncing@))));
        let failed_at: Option<usize> = position(&accounts, failed, Ghost(has_error()));
        let status: &str = if !configured {
            "not_configured"
        } else if accounts.len() == 0 {
            "empty"
        } else if busy_at.is_some() {
            "syncing"
        } else if failed_at.is_some() {
            "error"
        } else {
            "idle"
        };
        let error: Json = match failed_at {
            Some(i) => Json::optional(&accounts[i].error),
            None => Json::Null,
        };
        let latest: Option<String> = latest_of(&accounts);
        let write = |account: &AccountRow| -> (json: Json)
            ensures
                json@ == self@.account_json(texts(syncing@))(account@)
            {
                self.account_value(account, syncing)
            };
        let listed: Vec<Json> = json_list(
            &accounts,
            write,
            Ghost(self@.account_json(texts(syncing@))),
        );
        JsonObject::new()
            .with("status", Json::text(status))
            .with("error", error)
            .with("lastSync", Json::optional(&latest))
            .with("accounts", Json::Array(listed))
    }

    /// What clients are told of the accounts in scope, among the answers to an agenda.
    pub fn context(&self, syncing: &Vec<String>, configured: bool, filter: &str) -> (json: Json)
        ensures
            json@ == self@.context(texts(syncing@), configured, filter@),
    {
        let mut accounts: Vec<AccountRow> = self.configured_accounts();
        let scope = |account: &AccountRow| -> (answer: bool)
            ensures
                answer == in_scope(filter@)(account@)
            {
                text_eq(filter, "all") || text_eq(account.account_id.as_str(), filter)
            };
        retain(&mut accounts, scope, Ghost(in_scope(filter@)));
        let write = |account: &AccountRow| -> (json: Json)
            ensures
                json@ == account_context(texts(syncing@))(account@)
            {
                context_value(account, syncing)
            };
        let listed: Vec<Json> = json_list(
            &accounts,
            write,
            Ghost(account_context(texts(syncing@))),
        );
        Json::Object(
            JsonObject::new()
                .with("configured", Json::Bool(configured))
                .with("accounts", Json::Array(listed)),
        )
    }
}

} // verus!
