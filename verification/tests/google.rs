use omarchy_calendar::google::{
    encode_path_segment, event_parameters, read_calendars, read_task_lists, required_token, spans,
    ClientSettings, Listing, ListingStep, REVOCATION_ENDPOINT,
};
use omarchy_calendar::http::{body_limit, read_reply, HttpReply, HttpRequest};
use omarchy_calendar::link::https_link;
use omarchy_calendar::oauth::{
    callback_complete, cancelled_error, code_challenge, random_base64, read_access_token,
    refresh_request, revoke_request, revoked, stop_waiting, Credentials, OAuthAttempt, OAuthPhase,
    SignIn,
};
use omarchy_calendar::secrets::{read_clear, read_lookup, read_store, SecretStore, ToolOutcome};
use omarchy_calendar::time::{parse_rfc3339, Timestamp};
use omarchy_calendar::Json;

fn json(text: &str) -> Json {
    Json::parse(text.as_bytes()).unwrap()
}

fn received(status: u16, body: &str) -> HttpReply {
    HttpReply::Received { status, body: body.as_bytes().to_vec() }
}

fn value<'a>(pairs: &'a [(String, String)], name: &str) -> Option<&'a str> {
    pairs.iter().find(|pair| pair.0 == name).map(|pair| pair.1.as_str())
}

fn query_of(url: &str) -> Vec<(String, String)> {
    url::Url::parse(url).unwrap().query_pairs().into_owned().collect()
}

fn settings() -> ClientSettings {
    ClientSettings::read(
        "client.json",
        Some(br#"{"installed":{"client_id":"client","client_secret":"hush"}}"#),
    )
    .unwrap()
}

#[test]
fn path_encoding_matches_google_contract() {
    assert_eq!(
        encode_path_segment("primary@example.com"),
        "primary%40example.com"
    );
    assert_eq!(encode_path_segment("a/b c"), "a%2Fb%20c");
}

#[test]
fn path_segments_hold_no_reserved_characters() {
    assert_eq!(encode_path_segment("AZaz09-._~"), "AZaz09-._~");
    assert_eq!(encode_path_segment("\u{e9}?#"), "%C3%A9%3F%23");
    assert_ne!(encode_path_segment("a%2Fb"), encode_path_segment("a/b"));
}

#[test]
fn initial_and_incremental_event_parameters_match_google_contract() {
    let now = parse_rfc3339("2026-08-31T12:00:00Z").unwrap();
    let initial = event_parameters(&now, None);
    assert_eq!(value(&initial, "timeMin"), Some("2026-06-02T12:00:00.000000Z"));
    assert_eq!(value(&initial, "timeMax"), Some("2028-03-01T12:00:00.000000Z"));
    assert!(value(&initial, "syncToken").is_none());
    let incremental = event_parameters(&now, Some("sync-1"));
    assert_eq!(value(&incremental, "syncToken"), Some("sync-1"));
    assert!(value(&incremental, "timeMin").is_none());
    assert!(value(&incremental, "timeMax").is_none());
}

#[test]
fn revoke_accepts_empty_success_response() {
    let request = revoke_request("http://127.0.0.1:9/revoke", "refresh-token");
    assert_eq!(request.url, "http://127.0.0.1:9/revoke");
    assert_eq!(request.access_token, None);
    assert_eq!(
        request.form,
        Some(vec![("token".to_string(), "refresh-token".to_string())])
    );
    assert!(revoked(&received(200, "")));
    assert!(revoked(&received(200, "{}")));
    assert!(!revoked(&received(400, "")));
    assert!(!revoked(&HttpReply::Unreachable));
    assert!(https_link(REVOCATION_ENDPOINT));
}

#[test]
fn client_files_name_a_desktop_client() {
    let found = settings();
    assert_eq!(found.client_id, "client");
    assert_eq!(found.client_secret, "hush");
    assert_eq!(found.auth_uri, "https://accounts.google.com/o/oauth2/v2/auth");
    assert_eq!(found.token_uri, "https://oauth2.googleapis.com/token");
    for content in [None, Some("not json"), Some("{}"), Some(r#"{"installed":{"client_id":""}}"#)] {
        let error =
            ClientSettings::read("client.json", content.map(str::as_bytes)).unwrap_err();
        assert_eq!(error.code, "google_client_invalid");
        assert_eq!(error.message, "Invalid Google Desktop OAuth client: client.json");
    }
}

#[test]
fn replies_are_read_by_status_and_shape() {
    assert_eq!(
        read_reply(&received(200, r#"{"a":1}"#), false).unwrap(),
        json(r#"{"a":1}"#)
    );
    assert_eq!(
        read_reply(&HttpReply::Unreachable, false).unwrap_err().message,
        "Could not reach Google"
    );
    assert_eq!(
        read_reply(&HttpReply::Unreadable, false).unwrap_err().message,
        "Could not read Google response"
    );
    assert_eq!(
        read_reply(&received(200, ""), false).unwrap_err().code,
        "google_response_invalid"
    );
    assert_eq!(
        read_reply(&received(200, "[]"), false).unwrap_err().message,
        "Google returned an invalid response"
    );
    let refused = read_reply(
        &received(403, r#"{"error":{"message":"No\n  access","status":"DENIED"}}"#),
        false,
    )
    .unwrap_err();
    assert_eq!(refused.code, "google_http_403");
    assert_eq!(refused.message, "No access");
    assert_eq!(refused.http_status, Some(403));
    assert_eq!(
        read_reply(&received(500, "oops"), false).unwrap_err().message,
        "Google API returned HTTP 500"
    );
    assert_eq!(body_limit(200), 8 * 1024 * 1024);
    assert_eq!(body_limit(404), 256 * 1024);
}

#[test]
fn lists_are_read_page_by_page() {
    let mut listing = Listing::tasks("access", "list/1");
    let first = listing.request().unwrap();
    assert_eq!(first.access_token.as_deref(), Some("access"));
    assert!(first
        .url
        .starts_with("https://tasks.googleapis.com/tasks/v1/lists/list%2F1/tasks?"));
    assert_eq!(value(&query_of(&first.url), "pageToken"), None);
    assert_eq!(value(&query_of(&first.url), "showCompleted"), Some("false"));
    let step = listing.accept(&received(
        200,
        r#"{"items":[{"id":"1"},"no object"],"nextPageToken":"p 2"}"#,
    ));
    assert!(matches!(step, ListingStep::More));
    let second = listing.request().unwrap();
    assert_eq!(value(&query_of(&second.url), "pageToken"), Some("p 2"));
    let step = listing.accept(&received(200, r#"{"items":[{"id":"2"}],"nextSyncToken":"s"}"#));
    let ListingStep::Done { sync_token } = step else {
        panic!("the list has an end");
    };
    assert_eq!(required_token(sync_token).unwrap(), "s");
    assert_eq!(required_token(None).unwrap_err().code, "sync_token_missing");
    assert_eq!(listing.into_items(), vec![json(r#"{"id":"1"}"#), json(r#"{"id":"2"}"#)]);

    let mut failing = Listing::calendars("access");
    let step = failing.accept(&received(410, r#"{"error":{"message":"gone"}}"#));
    assert!(matches!(step, ListingStep::Failed { error } if error.http_status == Some(410)));
    assert!(failing.items().is_empty());

    let now = parse_rfc3339("2026-08-31T12:00:00Z").unwrap();
    let events = Listing::events("access", "primary@example.com", Some("sync-1"), &now);
    let url = events.request().unwrap().url;
    assert!(url.contains("/calendars/primary%40example.com/events?"));
    assert_eq!(value(&query_of(&url), "syncToken"), Some("sync-1"));
    let lists = Listing::task_lists("access").request().unwrap();
    assert!(lists.url.contains("/users/@me/lists?"));
}

#[test]
fn calendars_and_task_lists_are_taken_from_pages() {
    let calendars = read_calendars(&vec![
        json(r#"{"id":"a","summary":"A","summaryOverride":"Mine","primary":true,
            "defaultReminders":[{"method":"popup","minutes":5}]}"#),
        json(r#"{"id":"b","deleted":true}"#),
        json(r#"{"summary":"no id"}"#),
        json(r##"{"id":"c","hidden":true,"backgroundColor":"#000000"}"##),
    ]);
    assert_eq!(calendars.len(), 2);
    assert_eq!(calendars[0].label, "Mine");
    assert_eq!(calendars[0].color, "#8ab4f8");
    assert!(calendars[0].primary && calendars[0].selected);
    assert_eq!(
        calendars[0].default_reminders,
        json(r#"[{"method":"popup","minutes":5}]"#)
    );
    assert_eq!(calendars[1].label, "c");
    assert_eq!(calendars[1].color, "#000000");
    assert!(!calendars[1].selected);
    let lists = read_task_lists(&vec![json(r#"{"id":"l"}"#), json(r#"{"title":"no id"}"#)]);
    assert_eq!(lists.len(), 1);
    assert_eq!(lists[0].label, "Tasks");
}

fn sign_in() -> SignIn {
    SignIn::with_secrets(settings(), "client.json", 4711, "state-1".into(), "verifier-1".into())
        .unwrap()
}

#[test]
fn sign_in_links_carry_the_challenge_and_not_the_verifier() {
    assert_eq!(
        code_challenge("dBjftJeZ4CVP-mB92K27uhbUJU1p1r_wW1gFWFOEjXk"),
        "E9Melhoa2OwvFrEMTJguCHaoeK1t8URWbuGJSstw-cM"
    );
    let sign_in = sign_in();
    let query = query_of(sign_in.url());
    assert!(sign_in.url().starts_with("https://accounts.google.com/o/oauth2/v2/auth?"));
    assert_eq!(value(&query, "client_id"), Some("client"));
    assert_eq!(value(&query, "redirect_uri"), Some("http://127.0.0.1:4711/callback"));
    assert_eq!(value(&query, "state"), Some("state-1"));
    assert_eq!(value(&query, "code_challenge"), Some(code_challenge("verifier-1").as_str()));
    assert_eq!(value(&query, "code_challenge_method"), Some("S256"));
    assert!(!sign_in.url().contains("verifier-1"));
    let drawn = SignIn::begin(settings(), "client.json", 4711).unwrap();
    let other = SignIn::begin(settings(), "client.json", 4711).unwrap();
    assert_ne!(
        value(&query_of(drawn.url()), "state"),
        value(&query_of(other.url()), "state")
    );
    assert_eq!(random_base64(32).len(), 43);
    assert_ne!(random_base64(32), random_base64(32));
}

fn callback(target: &str) -> Result<HttpRequest, String> {
    let raw = format!("GET {target} HTTP/1.1\r\nHost: 127.0.0.1\r\n\r\n");
    assert!(callback_complete(raw.as_bytes()));
    sign_in().callback(raw.as_bytes()).exchange.map_err(|error| error.code)
}

#[test]
fn callbacks_are_tied_to_the_sign_in() {
    let request = callback("/callback?state=state-1&code=secret%2Fcode").unwrap();
    assert_eq!(request.url, "https://oauth2.googleapis.com/token");
    let form = request.form.unwrap();
    assert_eq!(value(&form, "client_id"), Some("client"));
    assert_eq!(value(&form, "client_secret"), Some("hush"));
    assert_eq!(value(&form, "code"), Some("secret/code"));
    assert_eq!(value(&form, "code_verifier"), Some("verifier-1"));
    assert_eq!(value(&form, "grant_type"), Some("authorization_code"));
    assert_eq!(value(&form, "redirect_uri"), Some("http://127.0.0.1:4711/callback"));
    assert_eq!(callback("/callback?state=other&code=c").unwrap_err(), "oauth_state_mismatch");
    assert_eq!(callback("/callback?code=c").unwrap_err(), "oauth_state_mismatch");
    assert_eq!(callback("/callback?state=state-1&error=denied").unwrap_err(), "oauth_denied");
    assert_eq!(callback("/callback?state=state-1").unwrap_err(), "oauth_code_missing");
    assert_eq!(callback("/other?state=state-1&code=c").unwrap_err(), "oauth_callback_failed");
    let unreadable = sign_in().callback(b"\xff\xff\r\n\r\n");
    assert_eq!(unreadable.exchange.unwrap_err().code, "oauth_callback_failed");
    assert_eq!(unreadable.answer, None);
    let answered = sign_in().callback(b"GET /callback?state=state-1&code=c HTTP/1.1\r\n\r\n");
    let answer = answered.answer.unwrap();
    assert!(answer.starts_with("HTTP/1.1 200 OK\r\n"));
    let (head, body) = answer.split_once("\r\n\r\n").unwrap();
    assert!(head.contains(&format!("Content-Length: {}\r\n", body.len())));
    let missing = sign_in().callback(b"GET /favicon.ico HTTP/1.1\r\n\r\n");
    assert!(missing.answer.unwrap().starts_with("HTTP/1.1 404 Not Found\r\n"));
    assert!(!callback_complete(b"GET / HTTP/1.1\r\n"));
    assert!(callback_complete(&vec![b'a'; 16384]));
}

#[test]
fn tokens_are_read_or_refused() {
    let credentials =
        Credentials::read(&received(200, r#"{"refresh_token":"r","access_token":"a"}"#)).unwrap();
    let profile = credentials.profile_request();
    assert_eq!(profile.url, "https://openidconnect.googleapis.com/v1/userinfo");
    assert_eq!(profile.access_token.as_deref(), Some("a"));
    let auth = credentials.complete(&received(200, r#"{"sub":"s","email":"e"}"#)).unwrap();
    assert_eq!((auth.refresh_token.as_str(), auth.subject.as_str()), ("r", "s"));
    assert_eq!(
        Credentials::read(&received(200, r#"{"access_token":"a"}"#)).unwrap_err().code,
        "oauth_credentials_missing"
    );
    let partial =
        Credentials::read(&received(200, r#"{"refresh_token":"r","access_token":"a"}"#)).unwrap();
    assert_eq!(
        partial.complete(&received(200, r#"{"sub":"s"}"#)).unwrap_err().code,
        "oauth_profile_invalid"
    );
    let request = refresh_request(&settings(), "r");
    assert_eq!(value(request.form.as_ref().unwrap(), "grant_type"), Some("refresh_token"));
    assert_eq!(value(request.form.as_ref().unwrap(), "refresh_token"), Some("r"));
    assert_eq!(read_access_token(&received(200, r#"{"access_token":"a"}"#)).unwrap(), "a");
    assert_eq!(
        read_access_token(&received(200, "{}")).unwrap_err().code,
        "token_refresh_failed"
    );
    let expired = read_access_token(&received(400, r#"{"error":"invalid_grant"}"#)).unwrap_err();
    assert_eq!(expired.code, "credentials_expired");
    assert_eq!(expired.message, "Google access expired. Sign in again.");
    assert_eq!(
        read_access_token(&received(400, r#"{"error":"invalid_client"}"#)).unwrap_err().code,
        "google_http_400"
    );
}

#[test]
fn a_cancelled_attempt_never_finishes() {
    let mut attempt = OAuthAttempt::new();
    assert_eq!(attempt.phase(), OAuthPhase::Waiting);
    assert!(attempt.cancel());
    assert!(!attempt.begin_finishing());
    assert_eq!(attempt.phase(), OAuthPhase::Cancelled);
    let mut other = OAuthAttempt::new();
    assert!(other.begin_finishing());
    assert!(!other.cancel());
    assert_eq!(other.phase(), OAuthPhase::Finishing);
    assert_eq!(stop_waiting(OAuthPhase::Cancelled, true).unwrap(), cancelled_error());
    assert_eq!(stop_waiting(OAuthPhase::Waiting, true).unwrap().code, "oauth_timeout");
    assert_eq!(stop_waiting(OAuthPhase::Waiting, false), None);
}

#[test]
fn secret_store_reports_missing_tool() {
    let store = SecretStore::new(None);
    assert_eq!(
        store.lookup("missing").unwrap_err().code,
        "secret_service_unavailable"
    );
}

fn exited(status: i32, stdout: &str, stderr: &str) -> ToolOutcome {
    ToolOutcome::Exited {
        status: Some(status),
        stdout: stdout.to_string(),
        stderr: stderr.to_string(),
    }
}

#[test]
fn refresh_tokens_are_handed_over_as_input() {
    let store = SecretStore::new(Some("/usr/bin/secret-tool".to_string()));
    let command = store.store("account-1", "token").unwrap();
    assert_eq!(command.executable, "/usr/bin/secret-tool");
    assert_eq!(command.input.as_deref(), Some("token"));
    assert!(!command.arguments.iter().any(|argument| argument.contains("token")));
    assert_eq!(
        store.lookup("account-1").unwrap().arguments,
        vec!["lookup", "service", "omarchy-calendar", "account-id", "account-1"]
    );
    assert_eq!(store.clear("account-1").unwrap().arguments[0], "clear");
    assert!(read_store(&exited(0, "", "")).is_ok());
    assert_eq!(read_store(&exited(1, "", "locked\n")).unwrap_err().message, "locked");
    assert_eq!(
        read_store(&ToolOutcome::Failed).unwrap_err().message,
        "Could not store Google credentials"
    );
    assert_eq!(read_lookup(&exited(0, " token\n", "")).unwrap(), "token");
    assert_eq!(read_lookup(&exited(1, "", "")).unwrap_err().code, "credentials_missing");
    assert_eq!(read_lookup(&exited(0, "\n", "")).unwrap_err().code, "credentials_missing");
    assert_eq!(read_lookup(&ToolOutcome::Failed).unwrap_err().code, "secret_service_error");
    assert!(read_clear(&exited(1, "", "")).is_ok());
    assert_eq!(read_clear(&exited(2, "", "")).unwrap_err().code, "secret_service_error");
    assert!(read_clear(&ToolOutcome::Failed).is_err());
}

#[test]
fn links_are_taken_apart_by_scheme_and_host() {
    assert!(https_link("https://calendar.google.com/event?eid=1"));
    assert!(!https_link("http://calendar.google.com/"));
    assert!(!https_link("javascript:alert(1)"));
    assert!(!https_link("https://"));
    assert!(!https_link("nothing"));
}

#[test]
fn events_are_asked_for_where_their_time_can_be_written() {
    assert!(spans(&parse_rfc3339("0001-01-01T00:00:00Z").unwrap()));
    assert!(spans(&Timestamp { seconds: 253402300800, nanos: 0 }));
    assert!(!spans(&Timestamp { seconds: 8210266876799, nanos: 0 }));
    assert!(!spans(&Timestamp { seconds: -8334601228800, nanos: 0 }));
    assert!(!spans(&Timestamp { seconds: i64::MAX, nanos: 0 }));
}

#[test]
fn drawn_secrets_stand_for_themselves_in_links() {
    let secret = random_base64(64);
    assert_eq!(secret.len(), 86);
    assert_eq!(encode_path_segment(&secret), secret);
    assert_eq!(random_base64(32).len(), 43);
    assert_eq!(random_base64(0), "");
}
