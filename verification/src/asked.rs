//! What Google is asked, name by name, and what becomes of its pages.
use vstd::prelude::*;
use vstd::utf8::encode_utf8;

use crate::error::ErrorView;
use crate::google::{
    calendar_entry, calendar_query, calendars_url, decoded, escaped, event_query, events_url,
    is_plain, is_segment_char, new_listing, path_segment, path_segment_chars,
    path_segment_decodes, settings_in, task_list_entry, task_list_query, task_lists_url,
    task_query, tasks_url, ListingStepView, ListingView, SettingsView,
};
use crate::http::{reply_value, HttpReply, RequestView};
use crate::json::{json_of_bytes, JsonView};
use crate::link::{extended_link, LinkView};
use crate::oauth::{
    authorization_query, callback_link, challenge_of, first_value, pair_named,
    refresh_request_of, sign_in_with, SignInView,
};
use crate::table::{first, first_at, first_none};
use crate::text::decimal;
use crate::time::{micros_text, Timestamp};

verus! {

/// Whether a query holds a name exactly once, with a value.
pub open spec fn holds_once(
    query: Seq<(Seq<char>, Seq<char>)>,
    name: Seq<char>,
    value: Seq<char>,
) -> bool {
    &&& query.contains((name, value))
    &&& forall|i: int, j: int|
        0 <= i < j < query.len() && (#[trigger] query[i]).0 == name ==> (#[trigger] query[j]).0
            != name
}

/// Whether a query does not hold a name.
pub open spec fn holds_never(query: Seq<(Seq<char>, Seq<char>)>, name: Seq<char>) -> bool {
    forall|i: int| 0 <= i < query.len() ==> (#[trigger] query[i]).0 != name
}

proof fn held_at(query: Seq<(Seq<char>, Seq<char>)>, at: int)
    requires
        0 <= at < query.len(),
        forall|i: int, j: int|
            0 <= i < j < query.len() ==> (#[trigger] query[i]).0 != (#[trigger] query[j]).0,
    ensures
        holds_once(query, query[at].0, query[at].1),
{
    assert(query[at] == (query[at].0, query[at].1));
}

/// The names in the query of a sign-in link all differ.
proof fn sign_in_names_differ()
    ensures
        "client_id"@.len() == 9,
        "redirect_uri"@.len() == 12,
        "response_type"@.len() == 13,
        "scope"@.len() == 5,
        "access_type"@.len() == 11,
        "prompt"@.len() == 6,
        "state"@.len() == 5,
        "code_challenge"@.len() == 14,
        "code_challenge_method"@.len() == 21,
        "scope"@[1] == 'c' && "state"@[1] == 't',
        "client_secret"@.len() == 13,
        "code"@.len() == 4,
        "code_verifier"@.len() == 13,
        "grant_type"@.len() == 10,
        "refresh_token"@.len() == 13,
        "client_secret"@[1] == 'l' && "code_verifier"@[1] == 'o' && "refresh_token"@[1] == 'e',
{
    reveal_strlit("client_id");
    reveal_strlit("redirect_uri");
    reveal_strlit("response_type");
    reveal_strlit("scope");
    reveal_strlit("access_type");
    reveal_strlit("prompt");
    reveal_strlit("state");
    reveal_strlit("code_challenge");
    reveal_strlit("code_challenge_method");
    reveal_strlit("client_secret");
    reveal_strlit("code");
    reveal_strlit("code_verifier");
    reveal_strlit("grant_type");
    reveal_strlit("refresh_token");
}

/// The link of a sign-in asks for a code, for reading only, for a refresh token and for the user's
/// consent, for the client, with the way back, the state, and the challenge of the verifier as a
/// SHA-256 digest: each of them once, and nothing else.
pub proof fn sign_in_asks_for_lasting_access(
    settings: SettingsView,
    path: Seq<char>,
    port: u16,
    state: Seq<char>,
    verifier: Seq<char>,
    sign_in: SignInView,
)
    requires
        sign_in_with(settings, path, port, state, verifier) == Ok::<SignInView, ErrorView>(sign_in),
    ensures
        ({
            let query = authorization_query(
                settings.client_id,
                sign_in.redirect_uri,
                state,
                challenge_of(verifier),
            );
            &&& extended_link(settings.auth_uri, query) == Some(sign_in.url)
            &&& query.len() == 9
            &&& holds_once(query, "response_type"@, "code"@)
            &&& holds_once(
                query,
                "scope"@,
                "openid email https://www.googleapis.com/auth/calendar.calendarlist.readonly https://www.googleapis.com/auth/calendar.events.readonly https://www.googleapis.com/auth/tasks.readonly"@,
            )
            &&& holds_once(query, "access_type"@, "offline"@)
            &&& holds_once(query, "prompt"@, "select_account consent"@)
            &&& holds_once(query, "code_challenge_method"@, "S256"@)
            &&& holds_once(query, "client_id"@, settings.client_id)
            &&& holds_once(query, "redirect_uri"@, sign_in.redirect_uri)
            &&& holds_once(query, "state"@, state)
            &&& holds_once(query, "code_challenge"@, challenge_of(verifier))
        }),
        sign_in.redirect_uri == "http://127.0.0.1:"@ + decimal(port as nat) + "/callback"@,
        sign_in.settings == settings,
        sign_in.state == state,
        sign_in.verifier == verifier,
{
    let query = authorization_query(
        settings.client_id,
        sign_in.redirect_uri,
        state,
        challenge_of(verifier),
    );
    sign_in_names_differ();
    assert(forall|i: int, j: int|
        0 <= i < j < query.len() ==> (#[trigger] query[i]).0 != (#[trigger] query[j]).0);
    held_at(query, 0);
    held_at(query, 1);
    held_at(query, 2);
    held_at(query, 3);
    held_at(query, 4);
    held_at(query, 5);
    held_at(query, 6);
    held_at(query, 7);
    held_at(query, 8);
}

/// Whether a form names a client: its identity once, and its secret once where it has one.
pub open spec fn names_client(
    form: Seq<(Seq<char>, Seq<char>)>,
    settings: SettingsView,
) -> bool {
    &&& holds_once(form, "client_id"@, settings.client_id)
    &&& settings.client_secret.len() > 0 ==> holds_once(
        form,
        "client_secret"@,
        settings.client_secret,
    )
    &&& settings.client_secret.len() == 0 ==> holds_never(form, "client_secret"@)
}

/// The first value that a query has for a name: that of the first pair with it.
pub proof fn first_value_is_that_of_the_first(
    query: Seq<(Seq<char>, Seq<char>)>,
    name: Seq<char>,
    at: int,
)
    ensures
        0 <= at < query.len() && query[at].0 == name && (forall|i: int|
            0 <= i < at ==> (#[trigger] query[i]).0 != name) ==> first_value(query, name) == Some(
            query[at].1,
        ),
        (forall|i: int| 0 <= i < query.len() ==> (#[trigger] query[i]).0 != name) ==> first_value(
            query,
            name,
        ) is None,
{
    first_none(query, pair_named(name));
    if 0 <= at < query.len() && query[at].0 == name && (forall|i: int|
        0 <= i < at ==> (#[trigger] query[i]).0 != name) {
        assert forall|i: int| 0 <= i < at implies !pair_named(name)(#[trigger] query[i]) by {}
        first_at(query, pair_named(name), at);
    }
}

/// A callback that came to its path with the state of the sign-in, without an error and with a code,
/// leads to the exchange of that code at the place for tokens, for the client, with the verifier,
/// and with the way back that Google was given.
pub proof fn own_callbacks_are_exchanged(
    sign_in: SignInView,
    raw: Seq<u8>,
    link: LinkView,
    code: Seq<char>,
)
    requires
        callback_link(raw) == Some(link),
        link.path == "/callback"@,
        first_value(link.query, "state"@) == Some(sign_in.state),
        first_value(link.query, "error"@) is None,
        first_value(link.query, "code"@) == Some(code),
        code.len() > 0,
    ensures
        sign_in.after_callback(raw) matches Ok(request) && {
            &&& request.url == sign_in.settings.token_uri
            &&& request.access_token is None
            &&& request.form matches Some(form) && {
                &&& names_client(form, sign_in.settings)
                &&& holds_once(form, "code"@, code)
                &&& holds_once(form, "code_verifier"@, sign_in.verifier)
                &&& holds_once(form, "grant_type"@, "authorization_code"@)
                &&& holds_once(form, "redirect_uri"@, sign_in.redirect_uri)
            }
        },
{
    sign_in_names_differ();
    let form = sign_in.after_callback(raw)->Ok_0.form->0;
    assert(forall|i: int, j: int|
        0 <= i < j < form.len() ==> (#[trigger] form[i]).0 != (#[trigger] form[j]).0);
    let n = form.len() as int;
    held_at(form, 0);
    held_at(form, 1);
    held_at(form, n - 4);
    held_at(form, n - 3);
    held_at(form, n - 2);
    held_at(form, n - 1);
}

/// An access token is asked for at the place for tokens, for the client, with the refresh token.
pub proof fn access_is_asked_with_the_refresh_token(
    settings: SettingsView,
    refresh_token: Seq<char>,
)
    ensures
        ({
            let request = refresh_request_of(settings, refresh_token);
            &&& request.url == settings.token_uri
            &&& request.access_token is None
            &&& request.form matches Some(form) && {
                &&& names_client(form, settings)
                &&& holds_once(form, "grant_type"@, "refresh_token"@)
                &&& holds_once(form, "refresh_token"@, refresh_token)
            }
        }),
{
    sign_in_names_differ();
    let form = refresh_request_of(settings, refresh_token).form->0;
    assert(forall|i: int, j: int|
        0 <= i < j < form.len() ==> (#[trigger] form[i]).0 != (#[trigger] form[j]).0);
    let n = form.len() as int;
    held_at(form, 0);
    held_at(form, 1);
    held_at(form, n - 2);
    held_at(form, n - 1);
}

proof fn listing_names_differ()
    ensures
        "maxResults"@.len() == 10,
        "showDeleted"@.len() == 11,
        "singleEvents"@.len() == 12,
        "syncToken"@.len() == 9,
        "timeMax"@.len() == 7,
        "timeMin"@.len() == 7,
        "timeMax"@[5] == 'a' && "timeMin"@[5] == 'i',
        "showHidden"@.len() == 10,
        "maxResults"@[0] == 'm' && "showHidden"@[0] == 's',
        "showCompleted"@.len() == 13,
        "pageToken"@.len() == 9,
        "syncToken"@[0] == 's' && "pageToken"@[0] == 'p',
{
    reveal_strlit("maxResults");
    reveal_strlit("showDeleted");
    reveal_strlit("singleEvents");
    reveal_strlit("syncToken");
    reveal_strlit("timeMax");
    reveal_strlit("timeMin");
    reveal_strlit("showHidden");
    reveal_strlit("showCompleted");
    reveal_strlit("pageToken");
}

/// Every question for events asks for single occurrences and for those that were cancelled. With a
/// synchronization token it asks for the changes since, and names no time; without one, for all
/// events from ninety days back to 548 days ahead.
pub proof fn events_are_asked_for_by_token_or_time(now: Timestamp, sync_token: Option<Seq<char>>)
    requires
        -8334601228800 <= now.seconds <= 8210266876799,
    ensures
        ({
            let query = event_query(now, sync_token);
            &&& holds_once(query, "singleEvents"@, "true"@)
            &&& holds_once(query, "showDeleted"@, "true"@)
            &&& holds_once(query, "maxResults"@, "2500"@)
            &&& holds_never(query, "pageToken"@)
            &&& sync_token matches Some(token) ==> holds_once(query, "syncToken"@, token)
                && holds_never(query, "timeMin"@) && holds_never(query, "timeMax"@)
            &&& sync_token is None ==> {
                &&& holds_never(query, "syncToken"@)
                &&& holds_once(
                    query,
                    "timeMin"@,
                    micros_text(
                        Timestamp { seconds: (now.seconds - 7776000) as i64, nanos: now.nanos },
                    ),
                )
                &&& holds_once(
                    query,
                    "timeMax"@,
                    micros_text(
                        Timestamp { seconds: (now.seconds + 47347200) as i64, nanos: now.nanos },
                    ),
                )
            }
        }),
{
    listing_names_differ();
    let query = event_query(now, sync_token);
    assert(forall|i: int, j: int|
        0 <= i < j < query.len() ==> (#[trigger] query[i]).0 != (#[trigger] query[j]).0);
    held_at(query, 0);
    held_at(query, 1);
    held_at(query, 2);
    held_at(query, 3);
    if sync_token is None {
        held_at(query, 4);
    }
}

/// Calendars are asked for without those that were deleted or hidden, and tasks without those that
/// were completed, deleted or hidden.
pub proof fn lists_are_asked_for_as_shown()
    ensures
        holds_once(calendar_query(), "showDeleted"@, "false"@),
        holds_once(calendar_query(), "showHidden"@, "false"@),
        holds_once(calendar_query(), "maxResults"@, "250"@),
        holds_once(task_query(), "showCompleted"@, "false"@),
        holds_once(task_query(), "showDeleted"@, "false"@),
        holds_once(task_query(), "showHidden"@, "false"@),
        holds_once(task_query(), "maxResults"@, "100"@),
        task_list_query() == seq![("maxResults"@, "100"@)],
{
    listing_names_differ();
    let calendars = calendar_query();
    assert(forall|i: int, j: int|
        0 <= i < j < calendars.len() ==> (#[trigger] calendars[i]).0 != (
        #[trigger] calendars[j]).0);
    held_at(calendars, 0);
    held_at(calendars, 1);
    held_at(calendars, 2);
    let tasks = task_query();
    assert(forall|i: int, j: int|
        0 <= i < j < tasks.len() ==> (#[trigger] tasks[i]).0 != (#[trigger] tasks[j]).0);
    held_at(tasks, 0);
    held_at(tasks, 1);
    held_at(tasks, 2);
    held_at(tasks, 3);
}

/// Calendars, events, task lists and tasks are read where Google keeps them. Where a calendar or a
/// list is named, its name is one segment of the path, from which it can be read back.
pub proof fn places_name_what_is_read(id: Seq<char>)
    ensures
        calendars_url() == "https://www.googleapis.com/calendar/v3"@ + "/users/me/calendarList"@,
        task_lists_url() == "https://tasks.googleapis.com/tasks/v1"@ + "/users/@me/lists"@,
        exists|segment: Seq<char>|
            {
                &&& events_url(id) == "https://www.googleapis.com/calendar/v3"@ + "/calendars/"@
                    + segment + "/events"@
                &&& tasks_url(id) == "https://tasks.googleapis.com/tasks/v1"@ + "/lists/"@ + segment
                    + "/tasks"@
                &&& #[trigger] decoded(segment) == encode_utf8(id)
                &&& forall|i: int|
                    0 <= i < segment.len() ==> is_segment_char(#[trigger] segment[i])
            },
{
    path_segment_decodes(id);
    path_segment_chars(id);
    let segment = path_segment(id);
    assert(decoded(segment) == encode_utf8(id));
}

/// Whether answers are the pages of a list: each is an object, and each but the last names the one
/// after it.
pub open spec fn are_pages(replies: Seq<HttpReply>, pages: Seq<JsonView>) -> bool {
    &&& replies.len() == pages.len()
    &&& pages.len() > 0
    &&& forall|i: int|
        0 <= i < pages.len() ==> reply_value(#[trigger] replies[i], false) == Ok::<_, ErrorView>(
            pages[i],
        )
    &&& forall|i: int|
        0 <= i < pages.len() - 1 ==> (#[trigger] pages[i]).field_text("nextPageToken"@) is Some
}

/// Whether a list went on from answer to answer.
pub open spec fn is_read_on(
    states: Seq<(ListingView, ListingStepView)>,
    listing: ListingView,
    replies: Seq<HttpReply>,
) -> bool {
    &&& states.len() == replies.len()
    &&& states.len() > 0
    &&& states[0] == listing.after(replies[0])
    &&& forall|i: int|
        0 < i < states.len() ==> #[trigger] states[i] == states[i - 1].0.after(replies[i])
}

/// The objects that stand in pages, page by page.
pub open spec fn objects_in(pages: Seq<JsonView>) -> Seq<JsonView>
    decreases pages.len(),
{
    if pages.len() == 0 {
        Seq::empty()
    } else {
        objects_in(pages.drop_last()) + pages.last().field_items("items"@).filter(
            |item: JsonView| item is Object,
        )
    }
}

/// A list is asked for page by page: the request for a page names it by the token of the page before
/// it, and asks for all else as the first one did. The list ends with the first page that names no
/// other, and then holds the objects of all pages in their order; the token from which to go on the
/// next time is that of the last page.
pub proof fn lists_are_read_to_their_end(
    listing: ListingView,
    replies: Seq<HttpReply>,
    pages: Seq<JsonView>,
    states: Seq<(ListingView, ListingStepView)>,
)
    requires
        are_pages(replies, pages),
        is_read_on(states, listing, replies),
    ensures
        states.last().0.items == listing.items + objects_in(pages),
        forall|i: int|
            0 <= i < states.len() ==> (#[trigger] states[i]).0.url == listing.url
                && states[i].0.access_token == listing.access_token && states[i].0.parameters
                == listing.parameters,
        forall|i: int| 0 <= i < states.len() - 1 ==> (#[trigger] states[i]).1 is More,
        pages.last().field_text("nextPageToken"@) is Some ==> states.last().1 is More,
        pages.last().field_text("nextPageToken"@) is None ==> states.last().1
            == (ListingStepView::Done { sync_token: pages.last().field_text("nextSyncToken"@) }),
        forall|i: int|
            0 <= i < states.len() ==> (pages[i].field_text("nextPageToken"@) matches Some(token)
                ==> page_is_asked_for((#[trigger] states[i]).0, listing, token)),
    decreases pages.len(),
{
    let n = pages.len() as int;
    assert(reply_value(replies[n - 1], false) == Ok::<_, ErrorView>(pages[n - 1]));
    assert((|item: JsonView| item is Object) =~= crate::normalize::is_object());
    if n > 1 {
        let front = pages.drop_last();
        let front_states = states.drop_last();
        let front_replies = replies.drop_last();
        assert forall|i: int| 0 <= i < front.len() implies reply_value(
            #[trigger] front_replies[i],
            false,
        ) == Ok::<_, ErrorView>(front[i]) by {
            assert(front_replies[i] == replies[i]);
        }
        assert forall|i: int| 0 <= i < front.len() - 1 implies (#[trigger] front[i]).field_text(
            "nextPageToken"@,
        ) is Some by {
            assert(front[i] == pages[i]);
        }
        assert forall|i: int| 0 < i < front_states.len() implies #[trigger] front_states[i]
            == front_states[i - 1].0.after(front_replies[i]) by {
            assert(states[i] == states[i - 1].0.after(replies[i]));
        }
        lists_are_read_to_their_end(listing, front_replies, front, front_states);
        assert(pages[n - 2].field_text("nextPageToken"@) is Some);
        assert(states[n - 1] == states[n - 2].0.after(replies[n - 1]));
        assert(front_states.last() == states[n - 2]);
        assert(front.last() == pages[n - 2]);
        assert(states.last().0.items =~= listing.items + objects_in(pages));
        assert forall|i: int| 0 <= i < states.len() - 1 implies (#[trigger] states[i]).1 is More by {
            assert(front_states[i] == states[i]);
        }
        assert forall|i: int| 0 <= i < states.len() implies (#[trigger] states[i]).0.url
            == listing.url && states[i].0.access_token == listing.access_token
            && states[i].0.parameters == listing.parameters by {
            if i < n - 1 {
                assert(front_states[i] == states[i]);
            }
        }
        assert forall|i: int| 0 <= i < states.len() implies (pages[i].field_text(
            "nextPageToken"@,
        ) matches Some(token) ==> page_is_asked_for((#[trigger] states[i]).0, listing, token)) by {
            if i < n - 1 {
                assert(front_states[i] == states[i]);
                assert(front[i] == pages[i]);
            }
        }
    } else {
        assert(pages.drop_last() =~= Seq::<JsonView>::empty());
        assert(objects_in(pages.drop_last()) =~= Seq::<JsonView>::empty());
        assert(states.last().0.items =~= listing.items + objects_in(pages));
    }
}

/// Whether a list asks for the page with a token, and for all else as it did at first.
pub open spec fn page_is_asked_for(
    listing: ListingView,
    start: ListingView,
    token: Seq<char>,
) -> bool {
    match extended_link(start.url, start.parameters.push(("pageToken"@, token))) {
        Some(url) => listing.request() == Ok::<_, ErrorView>(
            RequestView { url, access_token: Some(start.access_token), form: None },
        ),
        None => listing.request() is Err,
    }
}

/// The first page of a list is asked for at its place, with its parameters and no other.
pub proof fn first_page_is_asked_for(
    url: Seq<char>,
    access_token: Seq<char>,
    parameters: Seq<(Seq<char>, Seq<char>)>,
)
    ensures
        match extended_link(url, parameters) {
            Some(link) => new_listing(url, access_token, parameters).request() == Ok::<
                _,
                ErrorView,
            >(RequestView { url: link, access_token: Some(access_token), form: None }),
            None => new_listing(url, access_token, parameters).request() is Err,
        },
        new_listing(url, access_token, parameters).items.len() == 0,
{
}

/// A calendar of a list is taken in unless it lacks an identity or was deleted. Its label is the one
/// that the user gave it, else its own, else its identity; it is selected unless it is hidden.
pub proof fn calendars_are_taken_in(item: JsonView)
    ensures
        ({
            let entry = calendar_entry()(item);
            let id = item.field_text("id"@);
            let usable = id is Some && id->0.len() > 0;
            let deleted = item.field("deleted"@) == Some(JsonView::Bool(true));
            let hidden = item.field("hidden"@) == Some(JsonView::Bool(true));
            let given = item.field("summaryOverride"@);
            let own = item.field("summary"@);
            &&& entry is Some <==> usable && !deleted
            &&& entry matches Some(entry) ==> {
                &&& entry.id == id->0
                &&& given matches Some(JsonView::Text(label)) ==> entry.label == label
                &&& given is None ==> (own matches Some(JsonView::Text(label)) ==> entry.label
                    == label)
                &&& given is None && own is None ==> entry.label == entry.id
                &&& entry.selected <==> !hidden
                &&& entry.primary <==> item.field("primary"@) == Some(JsonView::Bool(true))
                &&& item.field("backgroundColor"@) matches Some(JsonView::Text(color))
                    ==> entry.color == color
                &&& item.field("backgroundColor"@) is None ==> entry.color == "#8ab4f8"@
            }
        }),
{
}

/// A task list is taken in where it has an identity, under its title, or else as `Tasks`.
pub proof fn task_lists_are_taken_in(item: JsonView)
    ensures
        ({
            let entry = task_list_entry()(item);
            &&& entry is Some <==> item.field_text("id"@) is Some
            &&& entry matches Some(entry) ==> {
                &&& Some(entry.id) == item.field_text("id"@)
                &&& item.field("title"@) matches Some(JsonView::Text(title)) ==> entry.label
                    == title
                &&& item.field("title"@) is None ==> entry.label == "Tasks"@
                &&& entry.updated == item.field_text("updated"@)
            }
        }),
{
}

/// A client file is used where it names a desktop client; it may say where sign-ins and tokens are
/// asked for, and otherwise Google's own places are taken.
pub proof fn client_files_are_read(payload: JsonView)
    ensures
        ({
            let installed = payload.field("installed"@)->0;
            let client_id = installed.field_text("client_id"@);
            let settings = settings_in(payload);
            &&& settings is Some <==> payload.field("installed"@) is Some && client_id is Some
                && client_id->0.len() > 0
            &&& settings matches Some(settings) ==> {
                &&& settings.client_id == client_id->0
                &&& installed.field_text("client_secret"@) matches Some(secret)
                    ==> settings.client_secret == secret
                &&& installed.field_text("client_secret"@) is None
                    ==> settings.client_secret.len() == 0
                &&& installed.field_text("auth_uri"@) matches Some(place) ==> settings.auth_uri
                    == place
                &&& installed.field_text("auth_uri"@) is None ==> settings.auth_uri
                    == "https://accounts.google.com/o/oauth2/v2/auth"@
                &&& installed.field_text("token_uri"@) matches Some(place) ==> settings.token_uri
                    == place
                &&& installed.field_text("token_uri"@) is None ==> settings.token_uri
                    == "https://oauth2.googleapis.com/token"@
            }
        }),
{
    reveal_strlit("");
}

/// An answer of Google is taken in where its status is one of success and it is an object; where it
/// may be empty, an empty one is an object without fields. A refusal keeps its status.
pub proof fn answers_are_objects(reply: HttpReply, allow_empty: bool)
    ensures
        match reply {
            HttpReply::Unreachable => reply_value(reply, allow_empty) matches Err(error)
                && error.code == "network_error"@ && error.http_status is None,
            HttpReply::Unreadable => reply_value(reply, allow_empty) matches Err(error)
                && error.code == "network_error"@ && error.http_status is None,
            HttpReply::Received { status, body } => {
                let value = reply_value(reply, allow_empty);
                let success = status >= 200 && status <= 299;
                &&& !success ==> (value matches Err(error) && error.http_status == Some(status)
                    && error.code == "google_http_"@ + decimal(status as nat))
                &&& success && !(allow_empty && body@.len() == 0) ==> match json_of_bytes(body@) {
                    Some(json) => if json is Object {
                        value == Ok::<_, ErrorView>(json)
                    } else {
                        value matches Err(error) && error.code == "google_response_invalid"@
                            && error.http_status is None
                    },
                    None => value matches Err(error) && error.code == "google_response_invalid"@
                        && error.http_status is None,
                }
                &&& success && allow_empty && body@.len() == 0 ==> value == Ok::<_, ErrorView>(
                    JsonView::Object(Map::empty()),
                )
            },
        },
{
}

/// A character stands for itself in the address of what is read exactly where it is a letter, a
/// digit, or one of `-`, `.`, `_` and `~`; any other byte is written as a percent sign and two
/// hexadecimal digits.
pub proof fn only_plain_characters_stand_for_themselves(c: char, byte: u8)
    ensures
        is_plain(c) <==> ('0' <= c <= '9') || ('A' <= c <= 'Z') || ('a' <= c <= 'z') || c == '-' || c
            == '.' || c == '_' || c == '~',
        is_segment_char(c) <==> c == '%' || is_plain(c),
        !is_plain(byte as char) ==> escaped(byte).len() == 3 && escaped(byte)[0] == '%',
        is_plain(byte as char) ==> escaped(byte) == seq![byte as char],
{
}

} // verus!
