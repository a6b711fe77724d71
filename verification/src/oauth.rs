//! Signing in at Google.
use vstd::prelude::*;
use vstd::utf8::{decode_utf8, encode_utf8, valid_utf8};

use crate::browser::BrowserOpenResult;
use crate::entries::{AuthResult, AuthView};
use crate::error::{failure, safe_message, shown_message, CalendarError, ErrorView, Result};
use crate::google::{
    invalid_client, is_plain, pair, unusable_client, ClientSettings, SettingsView,
};
use crate::http::{read_reply, reply_value, HttpReply, HttpRequest, RequestView};
use crate::json::Json;
use crate::link::{extend_link, extended_link, link_of, pairs_view, parse_link, Link, LinkView};
use crate::normalize::{sha256, sha256_digest};
use crate::table::{first, first_at, first_none};
use crate::text::{
    decimal, decimal_text, lines, lines_of, optional_view, split_whitespace, text_eq, texts,
    utf8_text, words,
};

verus! {

broadcast use crate::json::group_json;

/// How far a sign-in has come.
#[derive(Clone, Copy, Debug, PartialEq, Eq, Structural)]
pub enum OAuthPhase {
    /// The user is at Google.
    Waiting,
    /// The user gave up.
    Cancelled,
    /// Google has answered, and the account is being written down.
    Finishing,
}

/// Whether giving up succeeds: only while the user is at Google.
pub open spec fn can_cancel(phase: OAuthPhase) -> bool {
    phase is Waiting
}

/// The phase after giving up.
pub open spec fn after_cancel(phase: OAuthPhase) -> OAuthPhase {
    if can_cancel(phase) {
        OAuthPhase::Cancelled
    } else {
        phase
    }
}

/// Whether a sign-in can be finished: unless the user gave up.
pub open spec fn can_finish(phase: OAuthPhase) -> bool {
    !(phase is Cancelled)
}

/// The phase after Google answered.
pub open spec fn after_finish(phase: OAuthPhase) -> OAuthPhase {
    if can_finish(phase) {
        OAuthPhase::Finishing
    } else {
        phase
    }
}

/// A sign-in that was given up is never finished, and one that is being finished is not given up.
pub proof fn cancelling_excludes_finishing(phase: OAuthPhase)
    ensures
        can_cancel(phase) ==> !can_finish(after_cancel(phase)),
        can_finish(phase) ==> !can_cancel(after_finish(phase)),
        can_finish(phase) ==> can_finish(after_finish(phase)),
        !can_cancel(after_cancel(phase)),
{
}

/// A sign-in under way.
#[derive(Debug)]
pub struct OAuthAttempt {
    phase: OAuthPhase,
}

impl View for OAuthAttempt {
    type V = OAuthPhase;

    closed spec fn view(&self) -> OAuthPhase {
        self.phase
    }
}

impl OAuthAttempt {
    /// A sign-in that begins.
    pub fn new() -> (attempt: OAuthAttempt)
        ensures
            attempt@ == OAuthPhase::Waiting,
    {
        OAuthAttempt { phase: OAuthPhase::Waiting }
    }

    /// How far the sign-in has come.
    pub fn phase(&self) -> (phase: OAuthPhase)
        ensures
            phase == self@,
    {
        self.phase
    }

    /// Gives the sign-in up, and says whether that was still possible.
    pub fn cancel(&mut self) -> (cancelled: bool)
        ensures
            cancelled == can_cancel(old(self)@),
            final(self)@ == after_cancel(old(self)@),
    {
        if self.phase == OAuthPhase::Waiting {
            self.phase = OAuthPhase::Cancelled;
            true
        } else {
            false
        }
    }

    /// Notes that Google answered, and says whether the sign-in may go on.
    pub fn begin_finishing(&mut self) -> (allowed: bool)
        ensures
            allowed == can_finish(old(self)@),
            final(self)@ == after_finish(old(self)@),
    {
        if self.phase == OAuthPhase::Cancelled {
            false
        } else {
            self.phase = OAuthPhase::Finishing;
            true
        }
    }
}

/// Says that the user gave up.
pub open spec fn sign_in_cancelled() -> ErrorView {
    failure("oauth_cancelled"@, "Google sign-in was cancelled"@)
}

/// The error of a sign-in that the user gave up.
pub fn cancelled_error() -> (error: CalendarError)
    ensures
        error@ == sign_in_cancelled(),
{
    CalendarError::new("oauth_cancelled", "Google sign-in was cancelled")
}

/// How long the user has at Google, in seconds.
pub const OAUTH_TIMEOUT_SECONDS: u64 = 300;

/// Why waiting for the user ends: the user gave up, or took too long.
pub open spec fn waiting_ends(phase: OAuthPhase, expired: bool) -> Option<ErrorView> {
    if phase is Cancelled {
        Some(sign_in_cancelled())
    } else if expired {
        Some(failure("oauth_timeout"@, "Google sign-in timed out"@))
    } else {
        None
    }
}

/// Decides whether to go on waiting for the user.
pub fn stop_waiting(phase: OAuthPhase, expired: bool) -> (error: Option<CalendarError>)
    ensures
        match error {
            Some(error) => waiting_ends(phase, expired) == Some(error@),
            None => waiting_ends(phase, expired) is None,
        },
{
    if phase == OAuthPhase::Cancelled {
        Some(cancelled_error())
    } else if expired {
        Some(CalendarError::new("oauth_timeout", "Google sign-in timed out"))
    } else {
        None
    }
}

/// Says that the user could not be sent to Google.
pub open spec fn sign_in_not_shown() -> ErrorView {
    failure("browser_open_failed"@, "Could not open Google sign-in"@)
}

/// Decides whether a sign-in can go on after the browser was asked to show it.
pub fn sign_in_shown(result: BrowserOpenResult) -> (shown: Result<()>)
    ensures
        match shown {
            Ok(_) => result is Opened,
            Err(error) => !(result is Opened) && error@ == sign_in_not_shown(),
        },
{
    match result {
        BrowserOpenResult::Opened => Ok(()),
        _ => Err(CalendarError::new("browser_open_failed", "Could not open Google sign-in")),
    }
}

/// A digit of the URL-safe alphabet of Base64.
pub open spec fn base64_digit(value: int) -> char {
    if value < 26 {
        (65 + value) as char
    } else if value < 52 {
        (71 + value) as char
    } else if value < 62 {
        (value - 4) as char
    } else if value == 62 {
        '-'
    } else {
        '_'
    }
}

/// The text of bytes in the URL-safe alphabet of Base64, without padding: every three bytes are
/// four digits of six bits each, and what is left over fills its last digit with zeros.
pub open spec fn base64_url(bytes: Seq<u8>) -> Seq<char>
    decreases bytes.len(),
{
    let a = bytes[0] as int;
    let b = bytes[1] as int;
    let c = bytes[2] as int;
    let first = base64_digit(a / 4);
    if bytes.len() == 0 {
        Seq::empty()
    } else if bytes.len() == 1 {
        seq![first, base64_digit(a % 4 * 16)]
    } else if bytes.len() == 2 {
        seq![first, base64_digit(a % 4 * 16 + b / 16), base64_digit(b % 16 * 4)]
    } else {
        seq![
            first,
            base64_digit(a % 4 * 16 + b / 16),
            base64_digit(b % 16 * 4 + c / 64),
            base64_digit(c % 64),
        ] + base64_url(bytes.skip(3))
    }
}

/// Every character of such a text stands for itself in a link, and there are four for every three
/// bytes, rounded up: 43 for a state, 86 for a code verifier.
pub proof fn base64_is_plain(bytes: Seq<u8>)
    ensures
        base64_url(bytes).len() == (bytes.len() * 4 + 2) / 3,
        forall|i: int|
            0 <= i < base64_url(bytes).len() ==> is_plain(#[trigger] base64_url(bytes)[i]),
    decreases bytes.len(),
{
    if bytes.len() > 2 {
        let rest = base64_url(bytes.skip(3));
        base64_is_plain(bytes.skip(3));
        assert forall|i: int| 0 <= i < base64_url(bytes).len() implies is_plain(
            #[trigger] base64_url(bytes)[i],
        ) by {
            if i >= 4 {
                assert(base64_url(bytes)[i] == rest[i - 4]);
            }
        }
    }
}

/// Calls `encode` of `base64::engine::general_purpose::URL_SAFE_NO_PAD`, which writes the URL-safe
/// alphabet of Base64 without padding.
#[verifier::external_body]
fn base64_text(bytes: &[u8]) -> (text: String)
    ensures
        text@ == base64_url(bytes@),
{
    base64::Engine::encode(&base64::engine::general_purpose::URL_SAFE_NO_PAD, bytes)
}

/// Calls `fill_bytes` of `rand::rngs::OsRng`: the bytes are random, only their number is known.
#[verifier::external_body]
fn random_bytes(count: usize) -> (bytes: Vec<u8>)
    ensures
        bytes@.len() == count,
{
    let mut bytes = vec![0u8; count];
    rand::RngCore::fill_bytes(&mut rand::rngs::OsRng, &mut bytes);
    bytes
}

/// Makes a random text out of some bytes.
pub fn random_base64(count: usize) -> (text: String)
    ensures
        exists|bytes: Seq<u8>| bytes.len() == count && text@ == #[trigger] base64_url(bytes),
{
    let bytes: Vec<u8> = random_bytes(count);
    let text: String = base64_text(bytes.as_slice());
    assert(bytes@.len() == count && text@ == base64_url(bytes@));
    text
}

/// The challenge that goes with a code verifier.
pub open spec fn challenge_of(verifier: Seq<char>) -> Seq<char> {
    base64_url(sha256_digest(encode_utf8(verifier)))
}

/// Makes the challenge that goes with a code verifier.
pub fn code_challenge(verifier: &str) -> (challenge: String)
    ensures
        challenge@ == challenge_of(verifier@),
{
    base64_text(sha256(verifier.as_bytes()).as_slice())
}

/// What a sign-in asks for: who the user is, and to read calendars, events and tasks.
pub const SCOPES: &'static str = "openid email https://www.googleapis.com/auth/calendar.calendarlist.readonly https://www.googleapis.com/auth/calendar.events.readonly https://www.googleapis.com/auth/tasks.readonly";

/// Where Google says who signed in.
pub const USERINFO_ENDPOINT: &'static str = "https://openidconnect.googleapis.com/v1/userinfo";

/// Where Google sends the user back to.
pub open spec fn redirect_to(port: u16) -> Seq<char> {
    "http://127.0.0.1:"@ + decimal(port as nat) + "/callback"@
}

/// What Google is asked at the start of a sign-in.
pub open spec fn authorization_query(
    client_id: Seq<char>,
    redirect_uri: Seq<char>,
    state: Seq<char>,
    challenge: Seq<char>,
) -> Seq<(Seq<char>, Seq<char>)> {
    seq![
        pair("client_id"@, client_id),
        pair("redirect_uri"@, redirect_uri),
        pair("response_type"@, "code"@),
        pair("scope"@, SCOPES@),
        pair("access_type"@, "offline"@),
        pair("prompt"@, "select_account consent"@),
        pair("state"@, state),
        pair("code_challenge"@, challenge),
        pair("code_challenge_method"@, "S256"@),
    ]
}

/// The first value of a name in a query.
pub open spec fn first_value(query: Seq<(Seq<char>, Seq<char>)>, name: Seq<char>) -> Option<
    Seq<char>,
> {
    match first(query, pair_named(name)) {
        Some(found) => Some(found.1),
        None => None,
    }
}

/// A pair with a name.
pub open spec fn pair_named(name: Seq<char>) -> spec_fn((Seq<char>, Seq<char>)) -> bool {
    |found: (Seq<char>, Seq<char>)| found.0 == name
}

fn value_of<'a>(query: &'a Vec<(String, String)>, name: &str) -> (value: Option<&'a String>)
    ensures
        match value {
            Some(value) => first_value(pairs_view(query@), name@) == Some(value@),
            None => first_value(pairs_view(query@), name@) is None,
        },
{
    let ghost pairs = pairs_view(query@);
    for i in 0..query.len()
        invariant
            pairs == pairs_view(query@),
            forall|j: int| 0 <= j < i ==> !pair_named(name@)(#[trigger] pairs[j]),
    {
        if text_eq(query[i].0.as_str(), name) {
            proof {
                first_at(pairs, pair_named(name@), i as int);
            }
            return Some(&query[i].1);
        }
    }
    proof {
        first_none(pairs, pair_named(name@));
    }
    None
}

/// The most that is read of a callback.
pub const MAX_CALLBACK_REQUEST: usize = 16384;

/// Whether bytes hold the empty line that ends the head of a request.
pub open spec fn head_ends(raw: Seq<u8>) -> bool {
    exists|i: int|
        0 <= i && i + 4 <= raw.len() && #[trigger] raw[i] == 13 && raw[i + 1] == 10 && raw[i + 2]
            == 13 && raw[i + 3] == 10
}

/// Decides whether enough of a callback was read.
pub fn callback_complete(raw: &[u8]) -> (complete: bool)
    ensures
        complete == (raw@.len() >= MAX_CALLBACK_REQUEST || head_ends(raw@)),
{
    if raw.len() >= MAX_CALLBACK_REQUEST {
        return true;
    }
    let mut i: usize = 0;
    while i < raw.len() && raw.len() - i >= 4
        invariant
            i <= raw@.len(),
            raw@.len() < MAX_CALLBACK_REQUEST,
            forall|j: int|
                0 <= j < i && j + 4 <= raw@.len() ==> !(#[trigger] raw@[j] == 13 && raw@[j + 1] == 10
                    && raw@[j + 2] == 13 && raw@[j + 3] == 10),
        decreases raw@.len() - i,
    {
        if raw[i] == 13 && raw[i + 1] == 10 && raw[i + 2] == 13 && raw[i + 3] == 10 {
            return true;
        }
        i = i + 1;
    }
    false
}

/// Says that a callback makes no sense.
pub open spec fn bad_callback(message: Seq<char>) -> ErrorView {
    failure("oauth_callback_failed"@, message)
}

/// What a callback asks for: the second word of its first line.
pub open spec fn callback_target(request: Seq<char>) -> Option<Seq<char>> {
    let parts = lines_of(request);
    if parts.len() > 0 && words(parts[0]).len() > 1 {
        Some(words(parts[0])[1])
    } else {
        None
    }
}

/// The link that a callback stands for.
pub open spec fn callback_link(raw: Seq<u8>) -> Option<LinkView> {
    if valid_utf8(raw) {
        match callback_target(decode_utf8(raw)) {
            Some(target) => link_of("http://127.0.0.1"@ + target),
            None => None,
        }
    } else {
        None
    }
}

fn read_callback(raw: &[u8]) -> (link: Option<Link>)
    ensures
        match link {
            Some(link) => callback_link(raw@) == Some(link@),
            None => callback_link(raw@) is None,
        },
{
    let request: String = match utf8_text(raw) {
        Some(request) => request,
        None => return None,
    };
    let parts: Vec<String> = lines(request.as_str());
    if parts.len() == 0 {
        return None;
    }
    assert(texts(parts@)[0] == parts@[0]@);
    let line: Vec<String> = split_whitespace(parts[0].as_str());
    if line.len() < 2 {
        return None;
    }
    assert(texts(line@)[1] == line@[1]@);
    parse_link("http://127.0.0.1".to_owned().concat(line[1].as_str()).as_str())
}

/// What the user's browser shows in the end.
pub const CONNECTED_PAGE: &'static str = "<!doctype html><meta charset=utf-8><title>Omarchy Calendar</title><p>Google account connected. You may close this tab.</p>";

/// The answer to a callback.
pub open spec fn callback_answer(link: LinkView) -> Seq<char> {
    if link.path == "/callback"@ {
        "HTTP/1.1 200 OK\r\nContent-Type: text/html; charset=utf-8\r\nContent-Length: "@ + decimal(
            encode_utf8(CONNECTED_PAGE@).len(),
        ) + "\r\nConnection: close\r\n\r\n"@ + CONNECTED_PAGE@
    } else {
        "HTTP/1.1 404 Not Found\r\nContent-Length: "@ + decimal(encode_utf8("Not found"@).len())
            + "\r\nConnection: close\r\n\r\n"@ + "Not found"@
    }
}

fn answer_callback(link: &Link) -> (answer: String)
    ensures
        answer@ == callback_answer(link@),
{
    if text_eq(link.path.as_str(), "/callback") {
        "HTTP/1.1 200 OK\r\nContent-Type: text/html; charset=utf-8\r\nContent-Length: ".to_owned().concat(
            decimal_text(CONNECTED_PAGE.as_bytes().len() as u64).as_str(),
        ).concat("\r\nConnection: close\r\n\r\n").concat(CONNECTED_PAGE)
    } else {
        let body: &str = "Not found";
        "HTTP/1.1 404 Not Found\r\nContent-Length: ".to_owned().concat(
            decimal_text(body.as_bytes().len() as u64).as_str(),
        ).concat("\r\nConnection: close\r\n\r\n").concat(body)
    }
}

/// A sign-in: the client, and what ties Google's answer to the question.
#[derive(Debug)]
pub struct SignIn {
    settings: ClientSettings,
    redirect_uri: String,
    state: String,
    verifier: String,
    url: String,
}

/// What a sign-in holds.
pub struct SignInView {
    pub settings: SettingsView,
    pub redirect_uri: Seq<char>,
    pub state: Seq<char>,
    pub verifier: Seq<char>,
    pub url: Seq<char>,
}

impl View for SignIn {
    type V = SignInView;

    closed spec fn view(&self) -> SignInView {
        SignInView {
            settings: self.settings@,
            redirect_uri: self.redirect_uri@,
            state: self.state@,
            verifier: self.verifier@,
            url: self.url@,
        }
    }
}

/// A sign-in with given secrets. The challenge in its link goes with its verifier.
pub open spec fn sign_in_with(
    settings: SettingsView,
    path: Seq<char>,
    port: u16,
    state: Seq<char>,
    verifier: Seq<char>,
) -> std::result::Result<SignInView, ErrorView> {
    let query = authorization_query(
        settings.client_id,
        redirect_to(port),
        state,
        challenge_of(verifier),
    );
    match extended_link(settings.auth_uri, query) {
        Some(url) => Ok(
            SignInView { settings, redirect_uri: redirect_to(port), state, verifier, url },
        ),
        None => Err(invalid_client(path)),
    }
}

/// A form with the secret of the client, where it has one, in its place.
pub open spec fn with_secret(
    settings: SettingsView,
    rest: Seq<(Seq<char>, Seq<char>)>,
) -> Seq<(Seq<char>, Seq<char>)> {
    let start = seq![pair("client_id"@, settings.client_id)];
    if settings.client_secret.len() > 0 {
        start.push(pair("client_secret"@, settings.client_secret)) + rest
    } else {
        start + rest
    }
}

impl SignInView {
    /// What follows from the query of a callback: the request that exchanges the code for tokens,
    /// unless the callback does not answer this sign-in, Google refused, or there is no code.
    pub open spec fn exchange(self, query: Seq<(Seq<char>, Seq<char>)>) -> std::result::Result<
        RequestView,
        ErrorView,
    > {
        let returned = match first_value(query, "state"@) {
            Some(returned) => returned,
            None => ""@,
        };
        if sha256_digest(encode_utf8(returned)) != sha256_digest(encode_utf8(self.state)) {
            Err(failure("oauth_state_mismatch"@, "Google sign-in state did not match"@))
        } else {
            match first_value(query, "error"@) {
                Some(error) => Err(
                    failure("oauth_denied"@, shown_message(error, "Google sign-in denied"@)),
                ),
                None => match first_value(query, "code"@) {
                    Some(code) if code.len() > 0 => Ok(
                        RequestView {
                            url: self.settings.token_uri,
                            access_token: None,
                            form: Some(
                                with_secret(
                                    self.settings,
                                    seq![
                                        pair("code"@, code),
                                        pair("code_verifier"@, self.verifier),
                                        pair("grant_type"@, "authorization_code"@),
                                        pair("redirect_uri"@, self.redirect_uri),
                                    ],
                                ),
                            ),
                        },
                    ),
                    _ => Err(
                        failure(
                            "oauth_code_missing"@,
                            "Google sign-in returned no authorization code"@,
                        ),
                    ),
                },
            }
        }
    }

    /// What follows from a callback.
    pub open spec fn after_callback(self, raw: Seq<u8>) -> std::result::Result<
        RequestView,
        ErrorView,
    > {
        match callback_link(raw) {
            None => Err(bad_callback("Invalid Google sign-in callback"@)),
            Some(link) => if link.path != "/callback"@ {
                Err(bad_callback("Invalid Google sign-in callback path"@))
            } else {
                self.exchange(link.query)
            },
        }
    }
}

/// A code is exchanged only where the callback came to its path and brought the state of the
/// sign-in back, and only together with the verifier whose challenge Google was given.
pub proof fn only_own_callbacks_are_exchanged(
    settings: SettingsView,
    path: Seq<char>,
    port: u16,
    state: Seq<char>,
    verifier: Seq<char>,
    sign_in: SignInView,
    raw: Seq<u8>,
)
    requires
        sign_in_with(settings, path, port, state, verifier) == Ok::<SignInView, ErrorView>(sign_in),
    ensures
        ({
            let query = authorization_query(
                settings.client_id,
                redirect_to(port),
                state,
                challenge_of(verifier),
            );
            &&& extended_link(settings.auth_uri, query) == Some(sign_in.url)
            &&& query.contains(pair("state"@, state))
            &&& query.contains(pair("code_challenge"@, challenge_of(verifier)))
        }),
        sign_in.after_callback(raw) matches Ok(request) ==> {
            &&& callback_link(raw) matches Some(link) && link.path == "/callback"@ && sha256_digest(
                encode_utf8(
                    match first_value(link.query, "state"@) {
                        Some(returned) => returned,
                        None => ""@,
                    },
                ),
            ) == sha256_digest(encode_utf8(state))
            &&& request.url == settings.token_uri
            &&& request.form matches Some(form) && form.contains(pair("code_verifier"@, verifier))
        },
{
    let query = authorization_query(
        settings.client_id,
        redirect_to(port),
        state,
        challenge_of(verifier),
    );
    assert(query[6] == pair("state"@, state));
    assert(query[7] == pair("code_challenge"@, challenge_of(verifier)));
    if let Ok(request) = sign_in.after_callback(raw) {
        let code = first_value(callback_link(raw)->0.query, "code"@)->0;
        let rest = seq![
            pair("code"@, code),
            pair("code_verifier"@, verifier),
            pair("grant_type"@, "authorization_code"@),
            pair("redirect_uri"@, sign_in.redirect_uri),
        ];
        let form = with_secret(settings, rest);
        assert(rest[1] == pair("code_verifier"@, verifier));
        assert(form[form.len() - 3] == pair("code_verifier"@, verifier));
    }
}

fn bytes_eq(left: &Vec<u8>, right: &Vec<u8>) -> (equal: bool)
    ensures
        equal == (left@ == right@),
{
    if left.len() != right.len() {
        return false;
    }
    for i in 0..left.len()
        invariant
            left@.len() == right@.len(),
            forall|j: int| 0 <= j < i ==> left@[j] == right@[j],
    {
        if left[i] != right[i] {
            return false;
        }
    }
    assert(left@ =~= right@);
    true
}

fn secret_form(settings: &ClientSettings, rest: Vec<(String, String)>) -> (form: Vec<
    (String, String),
>)
    ensures
        pairs_view(form@) == with_secret(settings@, pairs_view(rest@)),
{
    let ghost tail = pairs_view(rest@);
    let mut form: Vec<(String, String)> = Vec::new();
    let mut rest: Vec<(String, String)> = rest;
    form.push(("client_id".to_owned(), settings.client_id.clone()));
    if !settings.client_secret.as_str().is_empty() {
        form.push(("client_secret".to_owned(), settings.client_secret.clone()));
    }
    form.append(&mut rest);
    assert(pairs_view(form@) =~= with_secret(settings@, tail));
    form
}

/// What a callback is answered, and what follows from it.
#[derive(Debug)]
pub struct Callback {
    pub answer: Option<String>,
    pub exchange: Result<HttpRequest>,
}

impl SignIn {
    /// A sign-in with given secrets, to be answered on a port of this machine.
    pub fn with_secrets(
        settings: ClientSettings,
        path: &str,
        port: u16,
        state: String,
        verifier: String,
    ) -> (sign_in: Result<SignIn>)
        ensures
            match sign_in {
                Ok(sign_in) => sign_in_with(settings@, path@, port, state@, verifier@) == Ok::<
                    _,
                    ErrorView,
                >(sign_in@),
                Err(error) => sign_in_with(settings@, path@, port, state@, verifier@) == Err::<
                    SignInView,
                    _,
                >(error@),
            },
    {
        let redirect_uri: String = "http://127.0.0.1:".to_owned().concat(
            decimal_text(port as u64).as_str(),
        ).concat("/callback");
        let mut query: Vec<(String, String)> = Vec::new();
        query.push(("client_id".to_owned(), settings.client_id.clone()));
        query.push(("redirect_uri".to_owned(), redirect_uri.clone()));
        query.push(("response_type".to_owned(), "code".to_owned()));
        query.push(("scope".to_owned(), SCOPES.to_owned()));
        query.push(("access_type".to_owned(), "offline".to_owned()));
        query.push(("prompt".to_owned(), "select_account consent".to_owned()));
        query.push(("state".to_owned(), state.clone()));
        query.push(("code_challenge".to_owned(), code_challenge(verifier.as_str())));
        query.push(("code_challenge_method".to_owned(), "S256".to_owned()));
        assert(pairs_view(query@) =~= authorization_query(
            settings@.client_id,
            redirect_to(port),
            state@,
            challenge_of(verifier@),
        ));
        match extend_link(settings.auth_uri.as_str(), &query) {
            Some(url) => Ok(SignIn { settings, redirect_uri, state, verifier, url }),
            None => Err(unusable_client(path)),
        }
    }

    /// A sign-in with fresh secrets.
    pub fn begin(settings: ClientSettings, path: &str, port: u16) -> (sign_in: Result<SignIn>)
        ensures
            exists|state: Seq<u8>, verifier: Seq<u8>|
                state.len() == 32 && verifier.len() == 64 && match sign_in {
                    Ok(sign_in) => sign_in_with(
                        settings@,
                        path@,
                        port,
                        #[trigger] base64_url(state),
                        #[trigger] base64_url(verifier),
                    ) == Ok::<_, ErrorView>(sign_in@),
                    Err(error) => sign_in_with(
                        settings@,
                        path@,
                        port,
                        base64_url(state),
                        base64_url(verifier),
                    ) == Err::<SignInView, _>(error@),
                },
    {
        let state: String = random_base64(32);
        let verifier: String = random_base64(64);
        SignIn::with_secrets(settings, path, port, state, verifier)
    }

    /// The link that the user is sent to.
    pub fn url(&self) -> (url: &String)
        ensures
            url@ == self@.url,
    {
        &self.url
    }

    /// Takes in the query of a callback.
    pub fn exchange(&self, query: &Vec<(String, String)>) -> (request: Result<HttpRequest>)
        ensures
            match request {
                Ok(request) => self@.exchange(pairs_view(query@)) == Ok::<_, ErrorView>(request@),
                Err(error) => self@.exchange(pairs_view(query@)) == Err::<RequestView, _>(error@),
            },
    {
        let returned: &str = match value_of(query, "state") {
            Some(returned) => returned.as_str(),
            None => "",
        };
        if !bytes_eq(&sha256(returned.as_bytes()), &sha256(self.state.as_str().as_bytes())) {
            return Err(
                CalendarError::new("oauth_state_mismatch", "Google sign-in state did not match"),
            );
        }
        if let Some(error) = value_of(query, "error") {
            return Err(
                CalendarError::new(
                    "oauth_denied",
                    safe_message(error.as_str(), "Google sign-in denied").as_str(),
                ),
            );
        }
        let code: &String = match value_of(query, "code") {
            Some(code) if !code.as_str().is_empty() => code,
            _ => return Err(
                CalendarError::new(
                    "oauth_code_missing",
                    "Google sign-in returned no authorization code",
                ),
            ),
        };
        let mut rest: Vec<(String, String)> = Vec::new();
        rest.push(("code".to_owned(), code.clone()));
        rest.push(("code_verifier".to_owned(), self.verifier.clone()));
        rest.push(("grant_type".to_owned(), "authorization_code".to_owned()));
        rest.push(("redirect_uri".to_owned(), self.redirect_uri.clone()));
        assert(pairs_view(rest@) =~= seq![
            pair("code"@, code@),
            pair("code_verifier"@, self@.verifier),
            pair("grant_type"@, "authorization_code"@),
            pair("redirect_uri"@, self@.redirect_uri),
        ]);
        Ok(
            HttpRequest {
                url: self.settings.token_uri.clone(),
                access_token: None,
                form: Some(secret_form(&self.settings, rest)),
            },
        )
    }

    /// Takes in a callback.
    pub fn callback(&self, raw: &[u8]) -> (callback: Callback)
        ensures
            match callback.exchange {
                Ok(request) => self@.after_callback(raw@) == Ok::<_, ErrorView>(request@),
                Err(error) => self@.after_callback(raw@) == Err::<RequestView, _>(error@),
            },
            optional_view(callback.answer) == match callback_link(raw@) {
                Some(link) => Some(callback_answer(link)),
                None => None,
            },
    {
        match read_callback(raw) {
            None => Callback {
                answer: None,
                exchange: Err(
                    CalendarError::new("oauth_callback_failed", "Invalid Google sign-in callback"),
                ),
            },
            Some(link) => {
                let answer: Option<String> = Some(answer_callback(&link));
                if !text_eq(link.path.as_str(), "/callback") {
                    Callback {
                        answer,
                        exchange: Err(
                            CalendarError::new(
                                "oauth_callback_failed",
                                "Invalid Google sign-in callback path",
                            ),
                        ),
                    }
                } else {
                    Callback { answer, exchange: self.exchange(&link.query) }
                }
            },
        }
    }
}

/// The tokens that Google exchanges a code for.
#[derive(Debug)]
pub struct Credentials {
    pub refresh_token: String,
    pub access_token: String,
}

/// The tokens in an answer: both, or the sign-in is of no use.
pub open spec fn credentials_in(reply: HttpReply) -> std::result::Result<
    (Seq<char>, Seq<char>),
    ErrorView,
> {
    match reply_value(reply, false) {
        Err(error) => Err(error),
        Ok(value) => match (value.field_word("refresh_token"@), value.field_word("access_token"@)) {
            (Some(refresh_token), Some(access_token)) => Ok((refresh_token, access_token)),
            _ => Err(
                failure(
                    "oauth_credentials_missing"@,
                    "Google returned no offline credentials; reconnect account"@,
                ),
            ),
        },
    }
}

/// The result of a sign-in, with Google's answer to who the user is.
pub open spec fn identified(
    refresh_token: Seq<char>,
    access_token: Seq<char>,
    reply: HttpReply,
) -> std::result::Result<AuthView, ErrorView> {
    match reply_value(reply, false) {
        Err(error) => Err(error),
        Ok(profile) => match (profile.field_word("sub"@), profile.field_word("email"@)) {
            (Some(subject), Some(email)) => Ok(
                AuthView { refresh_token, access_token, subject, email },
            ),
            _ => Err(
                failure("oauth_profile_invalid"@, "Google account profile is incomplete"@),
            ),
        },
    }
}

impl Credentials {
    /// Reads the tokens in an answer.
    pub fn read(reply: &HttpReply) -> (credentials: Result<Credentials>)
        ensures
            match credentials {
                Ok(credentials) => credentials_in(*reply) == Ok::<_, ErrorView>(
                    (credentials.refresh_token@, credentials.access_token@),
                ),
                Err(error) => credentials_in(*reply) == Err::<(Seq<char>, Seq<char>), _>(error@),
            },
    {
        let value: Json = match read_reply(reply, false) {
            Ok(value) => value,
            Err(error) => return Err(error),
        };
        match (value.get_word("refresh_token"), value.get_word("access_token")) {
            (Some(refresh_token), Some(access_token)) => Ok(
                Credentials {
                    refresh_token: refresh_token.clone(),
                    access_token: access_token.clone(),
                },
            ),
            _ => Err(
                CalendarError::new(
                    "oauth_credentials_missing",
                    "Google returned no offline credentials; reconnect account",
                ),
            ),
        }
    }

    /// The request that asks who the user is.
    pub fn profile_request(&self) -> (request: HttpRequest)
        ensures
            request@ == (RequestView {
                url: USERINFO_ENDPOINT@,
                access_token: Some(self.access_token@),
                form: None,
            }),
    {
        HttpRequest {
            url: USERINFO_ENDPOINT.to_owned(),
            access_token: Some(self.access_token.clone()),
            form: None,
        }
    }

    /// Completes the sign-in with the answer to who the user is.
    pub fn complete(self, reply: &HttpReply) -> (result: Result<AuthResult>)
        ensures
            match result {
                Ok(auth) => identified(self.refresh_token@, self.access_token@, *reply) == Ok::<
                    _,
                    ErrorView,
                >(auth@),
                Err(error) => identified(self.refresh_token@, self.access_token@, *reply) == Err::<
                    AuthView,
                    _,
                >(error@),
            },
    {
        let profile: Json = match read_reply(reply, false) {
            Ok(profile) => profile,
            Err(error) => return Err(error),
        };
        match (profile.get_word("sub"), profile.get_word("email")) {
            (Some(subject), Some(email)) => Ok(
                AuthResult {
                    refresh_token: self.refresh_token,
                    access_token: self.access_token,
                    subject: subject.clone(),
                    email: email.clone(),
                },
            ),
            _ => Err(
                CalendarError::new("oauth_profile_invalid", "Google account profile is incomplete"),
            ),
        }
    }
}

/// The request for an access token.
pub open spec fn refresh_request_of(
    settings: SettingsView,
    refresh_token: Seq<char>,
) -> RequestView {
    RequestView {
        url: settings.token_uri,
        access_token: None,
        form: Some(
            with_secret(
                settings,
                seq![
                    pair("grant_type"@, "refresh_token"@),
                    pair("refresh_token"@, refresh_token),
                ],
            ),
        ),
    }
}

/// Writes the request for an access token.
pub fn refresh_request(settings: &ClientSettings, refresh_token: &str) -> (request: HttpRequest)
    ensures
        request@ == refresh_request_of(settings@, refresh_token@),
{
    let mut rest: Vec<(String, String)> = Vec::new();
    rest.push(("grant_type".to_owned(), "refresh_token".to_owned()));
    rest.push(("refresh_token".to_owned(), refresh_token.to_owned()));
    assert(pairs_view(rest@) =~= seq![
        pair("grant_type"@, "refresh_token"@),
        pair("refresh_token"@, refresh_token@),
    ]);
    HttpRequest {
        url: settings.token_uri.clone(),
        access_token: None,
        form: Some(secret_form(settings, rest)),
    }
}

/// The access token in an answer. Where Google no longer accepts the refresh token, the account has
/// to sign in again.
pub open spec fn access_token_in(reply: HttpReply) -> std::result::Result<Seq<char>, ErrorView> {
    match reply_value(reply, false) {
        Err(error) => if error.http_status is Some && error.message == "invalid_grant"@ {
            Err(failure("credentials_expired"@, "Google access expired. Sign in again."@))
        } else {
            Err(error)
        },
        Ok(value) => match value.field_word("access_token"@) {
            Some(token) => Ok(token),
            None => Err(failure("token_refresh_failed"@, "Google account needs reconnection"@)),
        },
    }
}

/// Reads the access token in an answer.
pub fn read_access_token(reply: &HttpReply) -> (token: Result<String>)
    ensures
        match token {
            Ok(token) => access_token_in(*reply) == Ok::<_, ErrorView>(token@),
            Err(error) => access_token_in(*reply) == Err::<Seq<char>, _>(error@),
        },
{
    match read_reply(reply, false) {
        Err(error) => if error.http_status.is_some() && text_eq(
            error.message.as_str(),
            "invalid_grant",
        ) {
            Err(CalendarError::new("credentials_expired", "Google access expired. Sign in again."))
        } else {
            Err(error)
        },
        Ok(value) => match value.get_word("access_token") {
            Some(token) => Ok(token.clone()),
            None => Err(
                CalendarError::new("token_refresh_failed", "Google account needs reconnection"),
            ),
        },
    }
}

/// The request that gives a refresh token back.
pub fn revoke_request(endpoint: &str, refresh_token: &str) -> (request: HttpRequest)
    ensures
        request@ == (RequestView {
            url: endpoint@,
            access_token: None,
            form: Some(seq![pair("token"@, refresh_token@)]),
        }),
{
    let mut form: Vec<(String, String)> = Vec::new();
    form.push(("token".to_owned(), refresh_token.to_owned()));
    assert(pairs_view(form@) =~= seq![pair("token"@, refresh_token@)]);
    HttpRequest { url: endpoint.to_owned(), access_token: None, form: Some(form) }
}

/// Whether a refresh token was given back. Google may answer nothing at all.
pub fn revoked(reply: &HttpReply) -> (result: bool)
    ensures
        result == (reply_value(*reply, true) is Ok),
{
    match read_reply(reply, true) {
        Ok(_) => true,
        Err(_) => false,
    }
}

} // verus!
