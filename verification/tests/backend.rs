use omarchy_calendar::flow::{Authorizing, Next, Surroundings, Turn};
use omarchy_calendar::oauth::cancelled_error;
use omarchy_calendar::protocol::{frame, read_line_limited, read_request, respond, LineRead};
use omarchy_calendar::records::{AccountRow, StoredAccount};
use omarchy_calendar::{
    AuthResult, CalendarEntry, CalendarError, CalendarService, Database, Json, OAuthPhase, Result,
    TaskListEntry,
};
use std::collections::HashMap;

fn json(text: &str) -> Json {
    Json::parse(text.as_bytes()).unwrap()
}

fn field(value: &Json, key: &str) -> Json {
    value.get(key).cloned().unwrap_or(Json::Null)
}

fn items(value: &Json, key: &str) -> Vec<Json> {
    value.get_items(key).unwrap().clone()
}

fn text(value: &str) -> Json {
    Json::text(value)
}

const CALENDARS: &str = r##"{"items": [{
    "id": "primary@example.com",
    "summary": "Personal",
    "backgroundColor": "#3366cc",
    "primary": true,
    "defaultReminders": [{"method": "popup", "minutes": 10}]
}]}"##;

const EVENTS_INITIAL: &str = r#"{"items": [
    {
        "id": "all-day-1",
        "status": "confirmed",
        "summary": "All-day plan",
        "start": {"date": "2026-08-31"},
        "end": {"date": "2026-09-01"},
        "htmlLink": "https://calendar.google.com/event?eid=all-day-1"
    },
    {
        "id": "review-1",
        "status": "confirmed",
        "summary": "Design review",
        "iCalUID": "shared@example.com",
        "start": {"dateTime": "2026-08-31T10:00:00+05:30"},
        "end": {"dateTime": "2026-08-31T11:00:00+05:30"},
        "originalStartTime": {"dateTime": "2026-08-31T10:00:00+05:30"},
        "reminders": {"useDefault": false, "overrides": [{"method": "popup", "minutes": 10}]},
        "htmlLink": "https://calendar.google.com/event?eid=review-1"
    }
], "nextSyncToken": "sync-1"}"#;

const EVENTS_INCREMENTAL: &str = r#"{"items": [
    {"id": "all-day-1", "status": "cancelled"},
    {
        "id": "review-1",
        "status": "confirmed",
        "summary": "Design review moved",
        "iCalUID": "shared@example.com",
        "start": {"dateTime": "2026-08-31T14:00:00+05:30"},
        "end": {"dateTime": "2026-08-31T15:00:00+05:30"},
        "originalStartTime": {"dateTime": "2026-08-31T10:00:00+05:30"},
        "reminders": {"useDefault": true},
        "htmlLink": "https://calendar.google.com/event?eid=review-1"
    }
], "nextSyncToken": "sync-2"}"#;

const TASK_LISTS: &str = r#"{"items": [
    {"id": "list-1", "title": "My Tasks", "updated": "2026-08-30T08:00:00Z"}
]}"#;

const TASKS: &str = r#"{"items": [{
    "id": "task-1",
    "title": "Send notes",
    "due": "2026-08-31T00:00:00.000Z",
    "status": "needsAction"
}]}"#;

const RANGE: &str = r#"{"start": "2026-08-31", "end": "2026-09-01"}"#;
const RANGE_ALL: &str = r#"{"start": "2026-08-31", "end": "2026-09-01", "account": "all"}"#;
const RANGE_ONE: &str = r#"{"start": "2026-08-31", "end": "2026-09-01", "account": "account-1"}"#;
const RANGE_TWO: &str = r#"{"start": "2026-08-31", "end": "2026-09-01", "account": "account-2"}"#;

struct FakeSecrets {
    values: HashMap<String, String>,
    fail_store: bool,
    lookup_calls: usize,
}

impl FakeSecrets {
    fn store(&mut self, account_id: &str, refresh_token: &str) -> Result<()> {
        if self.fail_store {
            return Err(CalendarError::new(
                "secret_service_error",
                "Could not store Google credentials",
            ));
        }
        self.values.insert(account_id.to_owned(), refresh_token.to_owned());
        Ok(())
    }

    fn lookup(&mut self, account_id: &str) -> Result<String> {
        self.lookup_calls += 1;
        self.values.get(account_id).cloned().ok_or_else(|| {
            CalendarError::new("credentials_missing", "Google account needs reconnection")
        })
    }

    fn clear(&mut self, account_id: &str) -> Result<()> {
        self.values.remove(account_id);
        Ok(())
    }

    fn token(&self, account_id: &str) -> Option<&str> {
        self.values.get(account_id).map(String::as_str)
    }
}

struct FakeGoogle {
    sync_mode: String,
    seen_tokens: Vec<Option<String>>,
    revoked: Vec<String>,
    authorize_calls: usize,
    refresh_calls: usize,
    authorization_error: Option<CalendarError>,
    authorization_subject: String,
    authorization_email: String,
}

impl FakeGoogle {
    fn new() -> Self {
        Self {
            sync_mode: "initial".into(),
            seen_tokens: Vec::new(),
            revoked: Vec::new(),
            authorize_calls: 0,
            refresh_calls: 0,
            authorization_error: None,
            authorization_subject: "google-subject-1".into(),
            authorization_email: "person@example.com".into(),
        }
    }

    fn fail_next_authorization(&mut self) {
        self.authorization_error =
            Some(CalendarError::new("oauth_denied", "Google sign-in was cancelled"));
    }

    fn check_access(access_token: &str) -> Result<()> {
        if access_token == "ephemeral-access-token" {
            Ok(())
        } else {
            Err(CalendarError::new("test_error", "unexpected access token"))
        }
    }

    fn refresh_access_token(&mut self, refresh_token: &str) -> Result<String> {
        self.refresh_calls += 1;
        if refresh_token != "refresh-token-never-cache" {
            return Err(CalendarError::new("test_error", "unexpected refresh token"));
        }
        Ok("ephemeral-access-token".into())
    }

    fn list_calendars(&self, access_token: &str) -> Result<Vec<CalendarEntry>> {
        Self::check_access(access_token)?;
        Ok(items(&json(CALENDARS), "items")
            .iter()
            .map(|item| CalendarEntry {
                id: item.get_text("id").unwrap().clone(),
                label: item.get_text("summary").unwrap().clone(),
                color: item.get_text("backgroundColor").unwrap().clone(),
                selected: true,
                primary: item.get_flag("primary"),
                default_reminders: item
                    .get("defaultReminders")
                    .cloned()
                    .unwrap_or_else(|| Json::Array(Vec::new())),
            })
            .collect())
    }

    fn list_events(
        &mut self,
        access_token: &str,
        sync_token: Option<&str>,
    ) -> Result<(Vec<Json>, String)> {
        Self::check_access(access_token)?;
        self.seen_tokens.push(sync_token.map(str::to_owned));
        if self.sync_mode == "gone_once" && sync_token.is_some() {
            self.sync_mode = "initial".into();
            return Err(CalendarError::google_http(410, "Sync token is no longer valid"));
        }
        let payload = json(if sync_token.is_none() {
            EVENTS_INITIAL
        } else {
            EVENTS_INCREMENTAL
        });
        Ok((
            items(&payload, "items"),
            payload.get_text("nextSyncToken").unwrap().clone(),
        ))
    }

    fn list_task_lists(&self, access_token: &str) -> Result<Vec<TaskListEntry>> {
        Self::check_access(access_token)?;
        Ok(items(&json(TASK_LISTS), "items")
            .iter()
            .map(|item| TaskListEntry {
                id: item.get_text("id").unwrap().clone(),
                label: item.get_text("title").unwrap().clone(),
                updated: item.get_text("updated").cloned(),
            })
            .collect())
    }

    fn list_tasks(&self, access_token: &str) -> Result<Vec<Json>> {
        Self::check_access(access_token)?;
        Ok(items(&json(TASKS), "items"))
    }
}

struct Harness {
    service: CalendarService,
    google: FakeGoogle,
    secrets: FakeSecrets,
    notices: Vec<String>,
}

fn world() -> Surroundings {
    Surroundings::observe(true)
}

fn harness_of(database: Database) -> Harness {
    Harness {
        service: CalendarService::new(database),
        google: FakeGoogle::new(),
        secrets: FakeSecrets { values: HashMap::new(), fail_store: false, lookup_calls: 0 },
        notices: Vec::new(),
    }
}

impl Harness {
    fn new() -> Self {
        harness_of(Database::new("state/agenda.db"))
    }

    fn with_account(account_id: &str) -> Self {
        let mut database = Database::new("state/agenda.db");
        database
            .upsert_account(
                account_id,
                "google-subject-1",
                "person@example.com",
                "Personal",
                "2026-08-30T00:00:00Z",
            )
            .unwrap();
        let mut harness = harness_of(database);
        harness.secrets.store(account_id, "refresh-token-never-cache").unwrap();
        harness
    }

    fn with_two_accounts() -> Self {
        let mut database = Database::new("state/agenda.db");
        database
            .upsert_account(
                "account-1",
                "google-subject-1",
                "person@example.com",
                "Personal",
                "2026-08-30T00:00:00Z",
            )
            .unwrap();
        database
            .upsert_account(
                "account-2",
                "google-subject-2",
                "work@example.com",
                "Work",
                "2026-08-30T00:00:00Z",
            )
            .unwrap();
        let mut harness = harness_of(database);
        harness.secrets.store("account-1", "refresh-token-never-cache").unwrap();
        harness.secrets.store("account-2", "refresh-token-never-cache").unwrap();
        harness
    }

    /// The same service over rows that were changed between two requests.
    fn with_database(self, change: impl Fn(&mut Database)) -> Self {
        let kept = self.service.database();
        let mut database = Database::restore(
            kept.path(),
            kept.stored_accounts().clone(),
            kept.stored_calendars().clone(),
            kept.stored_events().clone(),
            kept.stored_task_lists().clone(),
            kept.stored_tasks().clone(),
        );
        change(&mut database);
        Harness { service: CalendarService::new(database), ..self }
    }

    fn authorize(&mut self) -> Result<AuthResult> {
        if let Some(error) = self.google.authorization_error.take() {
            return Err(error);
        }
        if !self.service.begin_finishing() {
            return Err(cancelled_error());
        }
        Ok(AuthResult {
            refresh_token: "refresh-token-never-cache".into(),
            access_token: "access-token-never-cache".into(),
            subject: self.google.authorization_subject.clone(),
            email: self.google.authorization_email.clone(),
        })
    }

    fn step(&mut self, next: Next) -> Turn {
        let now = world();
        match next {
            Next::Finished { .. } => panic!("nothing is left to do"),
            Next::Authorize { run } => {
                self.google.authorize_calls += 1;
                let result = self.authorize();
                self.service.authorized(run, result, &now)
            }
            Next::Store { account_id, refresh_token, run } => {
                let result = self.secrets.store(&account_id, &refresh_token);
                self.service.stored(run, result, &now)
            }
            Next::Lookup { account_id, run } => {
                let result = self.secrets.lookup(&account_id);
                self.service.looked_up(run, result, &now)
            }
            Next::Clear { account_id, run } => {
                let result = self.secrets.clear(&account_id);
                self.service.cleared(run, result, &now)
            }
            Next::Revoke { refresh_token, run } => {
                self.google.revoked.push(refresh_token);
                self.service.revoked(run, true, &now)
            }
            Next::RefreshToken { refresh_token, run } => {
                let result = self.google.refresh_access_token(&refresh_token);
                self.service.token_refreshed(run, result, &now)
            }
            Next::ListCalendars { run } => {
                let result = self.google.list_calendars(&run.access_token);
                self.service.calendars_listed(run, result, &now)
            }
            Next::ListEvents { sync_token, run, .. } => {
                let result =
                    self.google.list_events(&run.reading.access_token, sync_token.as_deref());
                self.service.events_listed(run, result, &now)
            }
            Next::ListTaskLists { run } => {
                let result = self.google.list_task_lists(&run.access_token);
                self.service.task_lists_listed(run, result, &now)
            }
            Next::ListTasks { run, .. } => {
                let result = self.google.list_tasks(&run.reading.access_token);
                self.service.tasks_listed(run, result, &now)
            }
            Next::OpenBrowser { item_id, .. } => self.service.browser_opened(
                item_id,
                omarchy_calendar::browser::BrowserOpenResult::Opened,
            ),
        }
    }

    fn finish(&mut self, turn: Turn) -> Result<Json> {
        let mut turn = turn;
        loop {
            for notice in &turn.notices {
                self.notices.push(notice.event.clone());
            }
            match turn.next {
                Next::Finished { result } => return result,
                next => turn = self.step(next),
            }
        }
    }

    fn ask(&mut self, method: &str, parameters: &str) -> Result<Json> {
        let turn = self.service.dispatch(method, &json(parameters), &world());
        self.finish(turn)
    }

    fn refresh(&mut self, parameters: &str) -> Result<Json> {
        self.ask("refresh", parameters)
    }

    fn agenda(&self, parameters: &str) -> Result<Json> {
        self.service.agenda(&json(parameters), true)
    }

    /// Begins to add an account, up to where the user has to sign in.
    fn begin_add(&mut self) -> Authorizing {
        self.google.authorize_calls += 1;
        authorizing(self.service.add_account(&json("{}"), &world()))
    }

    fn signed_in(&mut self, run: Authorizing) -> Result<Json> {
        let result = self.authorize();
        let turn = self.service.authorized(run, result, &world());
        self.finish(turn)
    }

    fn cancel(&mut self) -> Result<Json> {
        let turn = self.service.cancel_add_account(&world());
        self.finish(turn)
    }
}

fn authorizing(turn: Turn) -> Authorizing {
    match turn.next {
        Next::Authorize { run } => run,
        _ => panic!("the user was not asked to sign in"),
    }
}

fn cached_text(database: &Database) -> String {
    format!(
        "{:?}{:?}{:?}{:?}{:?}",
        database.stored_accounts(),
        database.stored_calendars(),
        database.stored_events(),
        database.stored_task_lists(),
        database.stored_tasks()
    )
}

#[test]
fn cached_reads_include_passive_context_and_never_refresh() {
    let harness = Harness::new();
    let empty = harness.agenda(RANGE).unwrap();
    assert_eq!(field(&field(&empty, "context"), "accounts"), json("[]"));

    let mut harness = Harness::with_account("account-1");
    let initial = harness.agenda(RANGE).unwrap();
    let accounts = items(&field(&initial, "context"), "accounts");
    assert_eq!(field(&accounts[0], "lastSync"), Json::Null);
    assert_eq!(harness.secrets.lookup_calls, 0);
    assert_eq!(harness.google.refresh_calls, 0);

    harness.refresh("{}").unwrap();
    let healthy = harness.agenda(RANGE).unwrap();
    assert_eq!(field(&field(&healthy, "context"), "configured"), Json::Bool(true));
    let last_sync = field(&items(&field(&healthy, "context"), "accounts")[0], "lastSync");
    assert!(last_sync.as_str().is_some());
    let harness = harness.with_database(|database| {
        database.set_sync_result(
            "account-1",
            Some("credentials_expired"),
            Some("Sign in again"),
            "2026-08-31T00:00:00Z",
        );
        database
            .upsert_account(
                "account-2",
                "subject-2",
                "two@example.com",
                "Work",
                "2026-08-31T00:00:00Z",
            )
            .unwrap();
    });
    let before = harness.secrets.lookup_calls;
    for _ in 0..10 {
        let result = harness.agenda(RANGE).unwrap();
        assert_eq!(field(&result, "items"), field(&healthy, "items"));
        let accounts = items(&field(&result, "context"), "accounts");
        assert_eq!(field(&accounts[0], "lastSync"), last_sync);
        assert_eq!(field(&accounts[0], "errorCode"), text("credentials_expired"));
        assert_eq!(accounts.len(), 2);
    }
    assert_eq!(harness.secrets.lookup_calls, before);
    assert_eq!(harness.google.refresh_calls, 1);
    let filtered = harness.agenda(RANGE_TWO).unwrap();
    assert_eq!(field(&filtered, "items"), json("[]"));
    let accounts = items(&field(&filtered, "context"), "accounts");
    assert_eq!(accounts.len(), 1);
    assert_eq!(field(&accounts[0], "id"), text("account-2"));
    assert_eq!(
        harness
            .agenda(r#"{"start":"2026-08-31", "end":"2026-09-01", "account":"missing"}"#)
            .unwrap_err()
            .code,
        "account_not_found"
    );
}

#[test]
fn cached_read_does_not_wait_for_inflight_refresh() {
    let mut harness = Harness::with_account("account-1");
    let turn = harness.service.refresh(&json("{}"), &world());
    let turn = harness.step(turn.next);
    assert!(matches!(turn.next, Next::RefreshToken { .. }));
    let result = harness.agenda(RANGE).unwrap();
    let accounts = items(&field(&result, "context"), "accounts");
    assert_eq!(field(&accounts[0], "syncing"), Json::Bool(true));
    harness.finish(turn).unwrap();
    assert_eq!(harness.google.refresh_calls, 1);
    let after = harness.agenda(RANGE).unwrap();
    let accounts = items(&field(&after, "context"), "accounts");
    assert_eq!(field(&accounts[0], "syncing"), Json::Bool(false));
}

#[test]
fn legacy_invalid_grant_is_migrated_to_reconnect_state() {
    let row = AccountRow {
        account_id: "account-1".into(),
        google_sub: "google-subject-1".into(),
        email: "person@example.com".into(),
        label: "Personal".into(),
        enabled: true,
        last_sync: Some("2026-09-03T00:00:00Z".into()),
        error_code: None,
        error: Some("invalid_grant".into()),
    };
    let stored = StoredAccount {
        row,
        created_at: "2026-09-01T00:00:00Z".into(),
        updated_at: "2026-09-03T00:00:00Z".into(),
    };
    let database = Database::restore(
        "state/agenda.db",
        vec![stored],
        Vec::new(),
        Vec::new(),
        Vec::new(),
        Vec::new(),
    );
    let account = database.account("account-1").unwrap();
    assert_eq!(account.error_code.as_deref(), Some("credentials_expired"));
    assert_eq!(
        account.error.as_deref(),
        Some("Google access expired. Sign in again.")
    );
}

#[test]
fn initial_and_incremental_sync_normalize_agenda() {
    let mut harness = Harness::with_account("account-1");
    let first = harness.refresh("{}").unwrap();
    assert_eq!(field(&items(&first, "accounts")[0], "ok"), Json::Bool(true));
    let initial = harness.agenda(RANGE_ALL).unwrap();
    let found = items(&initial, "items");
    let types: Vec<&str> =
        found.iter().map(|item| item.get_text("type").unwrap().as_str()).collect();
    assert_eq!(types, ["event", "task", "event"]);
    let review = found
        .iter()
        .find(|item| field(item, "title") == text("Design review"))
        .unwrap();
    assert_eq!(field(review, "icalUid"), text("shared@example.com"));
    assert_eq!(field(review, "occurrenceStart"), text("2026-08-31T10:00:00+05:30"));
    assert_eq!(
        field(review, "reminders"),
        json(r#"[{"method": "popup", "minutes": 10}]"#)
    );
    assert_eq!(field(review, "accountId"), text("account-1"));
    let task = found.iter().find(|item| field(item, "type") == text("task")).unwrap();
    assert_eq!(field(task, "dueDate"), text("2026-08-31"));

    let second = harness.refresh("{}").unwrap();
    assert_eq!(field(&items(&second, "accounts")[0], "ok"), Json::Bool(true));
    let changed = harness.agenda(RANGE_ONE).unwrap();
    let found = items(&changed, "items");
    assert!(!found.iter().any(|item| field(item, "title") == text("All-day plan")));
    let moved = found.iter().find(|item| field(item, "type") == text("event")).unwrap();
    assert_eq!(field(moved, "title"), text("Design review moved"));
    assert_eq!(field(moved, "occurrenceStart"), text("2026-08-31T10:00:00+05:30"));
    assert_eq!(
        field(moved, "reminders"),
        json(r#"[{"method": "popup", "minutes": 10}]"#)
    );
    assert_eq!(harness.google.seen_tokens, vec![None, Some("sync-1".to_string())]);
}

#[test]
fn expired_sync_token_rebuilds_calendar() {
    let mut harness = Harness::with_account("account-1");
    harness.refresh("{}").unwrap();
    harness.google.sync_mode = "gone_once".into();
    let result = harness.refresh("{}").unwrap();
    assert_eq!(field(&items(&result, "accounts")[0], "ok"), Json::Bool(true));
    let seen = &harness.google.seen_tokens;
    assert_eq!(&seen[seen.len() - 2..], &[Some("sync-1".to_string()), None]);
    let agenda = harness.agenda(RANGE_ALL).unwrap();
    assert!(items(&agenda, "items")
        .iter()
        .any(|item| field(item, "title") == text("All-day plan")));
}

#[test]
fn multiple_accounts_merge_and_filter_without_id_collisions() {
    let mut harness = Harness::with_two_accounts();
    let refreshed = harness.refresh("{}").unwrap();
    let results = items(&refreshed, "accounts");
    assert_eq!(results.len(), 2);
    assert!(results.iter().all(|account| field(account, "ok") == Json::Bool(true)));

    let all = items(&harness.agenda(RANGE_ALL).unwrap(), "items");
    assert_eq!(all.len(), 6);

    let personal = items(&harness.agenda(RANGE_ONE).unwrap(), "items");
    let work = items(&harness.agenda(RANGE_TWO).unwrap(), "items");
    assert_eq!(personal.len(), 3);
    assert_eq!(work.len(), 3);
    assert!(personal.iter().all(|item| field(item, "accountId") == text("account-1")));
    assert!(work.iter().all(|item| field(item, "accountId") == text("account-2")));

    let shared: Vec<&Json> = all
        .iter()
        .filter(|item| field(item, "icalUid") == text("shared@example.com"))
        .collect();
    assert_eq!(shared.len(), 2);
    assert_ne!(field(shared[0], "id"), field(shared[1], "id"));
}

#[test]
fn add_remove_keeps_secrets_outside_database() {
    let mut harness = Harness::new();
    let result = harness.ask("add_account", r#"{"label": "Work"}"#).unwrap();
    let account = field(&result, "account");
    let account_id = account.get_text("id").unwrap().clone();
    assert_eq!(field(&account, "label"), text("Work"));
    assert_eq!(harness.secrets.token(&account_id), Some("refresh-token-never-cache"));
    let cached = cached_text(harness.service.database());
    assert!(!cached.contains("refresh-token-never-cache"));
    assert!(!cached.contains("access-token-never-cache"));
    assert!(!cached.contains("ephemeral-access-token"));

    let removed = harness
        .ask("remove_account", &format!("{{\"accountId\": \"{account_id}\"}}"))
        .unwrap();
    assert_eq!(field(&removed, "removed"), Json::Bool(true));
    assert_eq!(field(&removed, "revoked"), Json::Bool(true));
    assert_eq!(harness.google.revoked, vec!["refresh-token-never-cache"]);
    assert_eq!(harness.secrets.token(&account_id), None);
}

#[test]
fn reconnect_replaces_token_preserves_cache_and_targets_later_sync() {
    let mut harness = Harness::with_account("account-1");
    harness.refresh("{}").unwrap();
    harness.secrets.values.insert("account-1".into(), "expired-token".into());
    let mut harness = harness.with_database(|database| {
        database.set_sync_result(
            "account-1",
            Some("credentials_expired"),
            Some("Google access expired. Sign in again."),
            "2026-08-31T00:00:00Z",
        )
    });
    let cached_before = harness.agenda(RANGE_ONE).unwrap();

    let reconnected =
        harness.ask("reconnect_account", r#"{"accountId": "account-1"}"#).unwrap();
    assert_eq!(field(&reconnected, "reconnected"), Json::Bool(true));
    let account = field(&reconnected, "account");
    assert_eq!(field(&account, "needsReconnect"), Json::Bool(false));
    assert_eq!(field(&account, "connected"), Json::Bool(true));
    assert_eq!(field(&account, "label"), text("Personal"));
    assert_eq!(harness.secrets.token("account-1"), Some("refresh-token-never-cache"));
    let cached_after = harness.agenda(RANGE_ONE).unwrap();
    assert_eq!(field(&cached_after, "items"), field(&cached_before, "items"));

    let refreshed = harness.refresh(r#"{"accountId": "account-1"}"#).unwrap();
    assert_eq!(field(&items(&refreshed, "accounts")[0], "ok"), Json::Bool(true));
}

#[test]
fn reconnect_rejects_wrong_google_identity_and_preserves_old_token() {
    let mut harness = Harness::with_account("account-1");
    harness.secrets.values.insert("account-1".into(), "expired-token".into());
    harness.google.authorization_subject = "wrong-subject".into();
    harness.google.authorization_email = "wrong@example.com".into();

    let error = harness
        .ask("reconnect_account", r#"{"accountId": "account-1"}"#)
        .expect_err("wrong Google identity must be rejected");
    assert_eq!(error.code, "oauth_account_mismatch");
    assert_eq!(harness.secrets.token("account-1"), Some("expired-token"));
    assert_eq!(harness.google.revoked, vec!["refresh-token-never-cache"]);
}

#[test]
fn reconnect_oauth_and_secret_failures_preserve_old_token() {
    let mut harness = Harness::with_account("account-1");
    harness.secrets.values.insert("account-1".into(), "expired-token".into());

    harness.google.fail_next_authorization();
    let oauth_error = harness
        .ask("reconnect_account", r#"{"accountId": "account-1"}"#)
        .expect_err("OAuth failure must be reported");
    assert_eq!(oauth_error.code, "oauth_denied");
    assert_eq!(harness.secrets.token("account-1"), Some("expired-token"));

    harness.secrets.fail_store = true;
    let store_error = harness
        .ask("reconnect_account", r#"{"accountId": "account-1"}"#)
        .expect_err("secret-store failure must be reported");
    assert_eq!(store_error.code, "secret_service_error");
    assert_eq!(harness.secrets.token("account-1"), Some("expired-token"));
}

#[test]
fn concurrent_add_account_is_rejected_and_guard_is_released() {
    let mut harness = Harness::new();
    let first = harness.begin_add();

    let concurrent = harness.ask("add_account", "{}");
    let first_result = harness.signed_in(first);

    let error = concurrent.expect_err("concurrent OAuth should be rejected");
    assert_eq!(error.code, "oauth_in_progress");
    assert_eq!(error.message, "Google sign-in is already in progress");
    assert!(first_result.is_ok());
    assert_eq!(harness.google.authorize_calls, 1);

    let retry = harness.ask("add_account", "{}");
    assert!(retry.is_ok());
    assert_eq!(harness.google.authorize_calls, 2);
}

#[test]
fn abandoned_authorization_can_be_cancelled_and_retried() {
    let mut harness = Harness::new();
    let first = harness.begin_add();

    let waiting = harness.service.state(true);
    assert_eq!(field(&waiting, "oauthInProgress"), Json::Bool(true));
    assert_eq!(field(&waiting, "oauthCancelable"), Json::Bool(true));
    assert_eq!(harness.service.phase(), Some(OAuthPhase::Waiting));
    let cancelled = harness.cancel().unwrap();
    assert_eq!(field(&cancelled, "cancelled"), Json::Bool(true));
    assert_eq!(harness.service.phase(), Some(OAuthPhase::Cancelled));

    let error = harness.signed_in(first).expect_err("cancelled OAuth should fail");
    assert_eq!(error.code, "oauth_cancelled");
    let idle = harness.service.state(true);
    assert_eq!(field(&idle, "oauthInProgress"), Json::Bool(false));
    assert_eq!(field(&idle, "oauthCancelable"), Json::Bool(false));
    assert_eq!(harness.service.phase(), None);

    let retry = harness.ask("add_account", "{}");
    assert!(retry.is_ok());
    assert_eq!(harness.google.authorize_calls, 2);
}

#[test]
fn reconnect_authorization_can_be_cancelled_without_losing_token() {
    let mut harness = Harness::with_account("account-1");
    harness.secrets.values.insert("account-1".into(), "expired-token".into());

    let parameters = json(r#"{"accountId": "account-1"}"#);
    let run = authorizing(harness.service.reconnect_account(&parameters, &world()));
    assert_eq!(field(&harness.cancel().unwrap(), "cancelled"), Json::Bool(true));
    let error = harness.signed_in(run).expect_err("cancelled reconnect should fail");
    assert_eq!(error.code, "oauth_cancelled");
    assert_eq!(harness.secrets.token("account-1"), Some("expired-token"));
}

#[test]
fn cancelling_without_active_authorization_is_idempotent() {
    let mut harness = Harness::new();
    let result = harness.cancel().unwrap();
    assert_eq!(field(&result, "cancelled"), Json::Bool(false));
    assert_eq!(field(&result, "reason"), text("not_in_progress"));
}

#[test]
fn add_account_guard_is_released_after_authorization_failure() {
    let mut harness = Harness::new();
    harness.google.fail_next_authorization();

    let error = harness
        .ask("add_account", "{}")
        .expect_err("first authorization should fail");
    assert_eq!(error.code, "oauth_denied");

    let retry = harness.ask("add_account", "{}");
    assert!(retry.is_ok());
    assert_eq!(harness.google.authorize_calls, 2);
}

fn line_of(bytes: &[u8]) -> Vec<u8> {
    match read_line_limited(bytes) {
        LineRead::Line { bytes } => bytes,
        _ => panic!("no line"),
    }
}

#[test]
fn newline_json_protocol_returns_empty_state() {
    let mut harness = Harness::new();
    let line = line_of(b"{\"id\":\"test-1\",\"method\":\"get_state\",\"params\":{}}\n");
    let request = read_request(&line).unwrap();
    let turn = harness.service.dispatch(&request.method, &request.parameters, &world());
    let result = harness.finish(turn);
    let written = frame(&respond(request.id, result));
    let response = Json::parse(&line_of(&written)).unwrap();
    assert_eq!(field(&response, "id"), text("test-1"));
    assert_eq!(field(&response, "ok"), Json::Bool(true));
    let result = field(&response, "result");
    assert_eq!(field(&result, "status"), text("empty"));
    assert_eq!(field(&result, "accounts"), json("[]"));
}

#[test]
fn same_socket_cancel_interrupts_blocked_add_account() {
    let mut harness = Harness::new();
    let adding = read_request(&line_of(
        b"{\"id\":\"add\",\"method\":\"add_account\",\"params\":{}}\n",
    ))
    .unwrap();
    let run =
        authorizing(harness.service.dispatch(&adding.method, &adding.parameters, &world()));
    let cancelling = read_request(&line_of(
        b"{\"id\":\"cancel\",\"method\":\"cancel_add_account\",\"params\":{}}\n",
    ))
    .unwrap();
    let turn =
        harness.service.dispatch(&cancelling.method, &cancelling.parameters, &world());
    let cancelled = harness.finish(turn);
    let added = harness.signed_in(run);

    let cancel = Json::parse(&line_of(&frame(&respond(cancelling.id, cancelled)))).unwrap();
    let add = Json::parse(&line_of(&frame(&respond(adding.id, added)))).unwrap();
    assert_eq!(field(&cancel, "id"), text("cancel"));
    assert_eq!(field(&cancel, "ok"), Json::Bool(true));
    assert_eq!(field(&field(&cancel, "result"), "cancelled"), Json::Bool(true));
    assert_eq!(field(&add, "id"), text("add"));
    assert_eq!(field(&add, "ok"), Json::Bool(false));
    assert_eq!(field(&field(&add, "error"), "code"), text("oauth_cancelled"));
}

#[test]
fn a_second_refresh_starts_nothing() {
    let mut harness = Harness::with_account("account-1");
    let turn = harness.service.refresh(&json("{}"), &world());
    let second = harness.refresh("{}").unwrap();
    assert_eq!(field(&second, "started"), Json::Bool(false));
    assert_eq!(field(&second, "reason"), text("already_syncing"));
    harness.finish(turn).unwrap();
    assert_eq!(harness.google.refresh_calls, 1);
    assert!(harness.notices.iter().any(|event| event == "state_changed"));
}

#[test]
fn failed_sync_reports_the_account_and_keeps_the_cache() {
    let mut harness = Harness::with_account("account-1");
    harness.refresh("{}").unwrap();
    let before = field(&harness.agenda(RANGE_ALL).unwrap(), "items");
    harness.secrets.values.clear();
    let result = harness.refresh("{}").unwrap();
    let account = &items(&result, "accounts")[0];
    assert_eq!(field(account, "ok"), Json::Bool(false));
    assert_eq!(field(account, "id"), text("account-1"));
    let after = harness.agenda(RANGE_ALL).unwrap();
    assert_eq!(field(&after, "items"), before);
    let accounts = items(&field(&after, "context"), "accounts");
    assert_eq!(field(&accounts[0], "errorCode"), text("credentials_missing"));
}

#[test]
fn unknown_methods_accounts_and_items_are_refused() {
    let mut harness = Harness::with_account("account-1");
    assert_eq!(harness.ask("nothing", "{}").unwrap_err().code, "method_not_found");
    assert_eq!(
        harness.ask("refresh", r#"{"accountId": "missing"}"#).unwrap_err().code,
        "account_not_found"
    );
    assert_eq!(
        harness.ask("remove_account", r#"{"accountId": "missing"}"#).unwrap_err().code,
        "account_not_found"
    );
    assert_eq!(
        harness.ask("reconnect_account", r#"{"accountId": "missing"}"#).unwrap_err().code,
        "account_not_found"
    );
    assert_eq!(
        harness.ask("open_item", r#"{"itemId": "event:missing"}"#).unwrap_err().code,
        "item_not_found"
    );
    assert_eq!(harness.ask("get_agenda", "{}").unwrap_err().code, "invalid_params");
    assert_eq!(harness.ask("remove_account", "{}").unwrap_err().code, "invalid_params");
}

#[test]
fn an_item_is_opened_by_its_link() {
    let mut harness = Harness::with_account("account-1");
    harness.refresh("{}").unwrap();
    let found = items(&harness.agenda(RANGE_ALL).unwrap(), "items");
    let event = found.iter().find(|item| field(item, "type") == text("event")).unwrap();
    let id = event.get_text("id").unwrap();
    let parameters = json(&format!("{{\"itemId\": \"{id}\"}}"));
    let turn = harness.service.open_item(&parameters);
    match &turn.next {
        Next::OpenBrowser { url, item_id } => {
            assert_eq!(url, "https://calendar.google.com/event?eid=all-day-1");
            assert_eq!(item_id, id);
        }
        _ => panic!("the browser was not asked for"),
    }
    assert_eq!(field(&harness.finish(turn).unwrap(), "opened"), Json::Bool(true));
}

#[test]
fn removal_leaves_nothing_of_the_account() {
    let mut harness = Harness::with_two_accounts();
    harness.refresh("{}").unwrap();
    harness.ask("remove_account", r#"{"accountId": "account-1"}"#).unwrap();
    let cached = cached_text(harness.service.database());
    assert!(!cached.contains("account-1"));
    let left = items(&harness.agenda(RANGE_ALL).unwrap(), "items");
    assert_eq!(left.len(), 3);
    assert!(left.iter().all(|item| field(item, "accountId") == text("account-2")));
}

#[test]
fn a_fresh_account_gets_an_identity_of_its_own() {
    let one = world();
    let other = world();
    assert_ne!(one.fresh_id, other.fresh_id);
    assert_eq!(one.fresh_id.len(), 36);
}
