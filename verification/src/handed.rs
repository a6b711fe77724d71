//! What a link goes through on its way to the browser.
use vstd::prelude::*;
use vstd::utf8::encode_utf8;

use crate::browser::{
    address_error, begin_opening, brave_discovered, build_singleton_message,
    classify_default_browser, connect_step, default_known, discover_brave, effective_uid_in,
    handed_over, inspect_brave_executable, inspect_process_role, is_acknowledged, is_bound,
    is_open, is_safe, is_switch, labelled, launched, message_reads_back, name_in, not_empty,
    one_unsafe_process_is_enough, ownership, parse_pid, parse_socket_inode, peer_matches,
    poll_step, poll_timeout, process_effective_uid, process_name, process_state, state_in,
    switch_argument, target_is_main_and_bound, targets_among, validate_socket_binding,
    validate_socket_target, verdict, AddressError, BindingFacts, BraveDiscovery, BraveFacts,
    BraveTarget, BrowserOpenResult, CommandLineFact, ConnectOutcome, ConnectStep,
    DefaultBrowser, DirectoryFact, DiscoveryView, ExecutableFact, Handoff, OpenNext,
    OwnershipView, PlaceFacts, PollOutcome, PollStep, ProcessFacts, ProcessInspection,
    ProcessRole, ProcessRoleInspection, SocketView, TargetFacts, TargetView, UnixSocketEntry,
};
use crate::bytes::{file_name, is_absolute, is_same_path, pieces};
use crate::link::is_https;
use crate::table::{any, first_at, rows};
use crate::text::{lines_of, optional_view, trimmed, trimmed_start, unsigned_value, words};

verus! {

/// A link is opened only where it is an HTTPS link without a zero byte. Then the default browser is
/// asked for: where that is Brave, a running one is searched for, else the default browser is
/// started. A link goes to a running Brave where one was found, and the default browser is started
/// only where none runs: not where the search was unsafe, nor where handing the link over failed.
pub proof fn links_are_opened_safely(
    url: &str,
    begun: OpenNext,
    identifier: &str,
    browser: DefaultBrowser,
    known: OpenNext,
    found: BraveDiscovery,
    discovered: OpenNext,
    success: bool,
    given: BrowserOpenResult,
    started: BrowserOpenResult,
)
    requires
        call_ensures(begin_opening, (url,), begun),
        call_ensures(classify_default_browser, (identifier,), browser),
        call_ensures(default_known, (browser,), known),
        call_ensures(brave_discovered, (found,), discovered),
        call_ensures(handed_over, (success,), given),
        call_ensures(launched, (success,), started),
    ensures
        begun is AskDefault <==> is_https(url@) && !encode_utf8(url@).contains(0u8),
        !(begun is AskDefault) ==> begun == (OpenNext::Done { result: BrowserOpenResult::Failed }),
        known is Discover <==> trimmed(identifier@) == "brave-browser.desktop"@,
        !(known is Discover) ==> known is Launch,
        browser is Unknown ==> trimmed(identifier@).len() == 0,
        discovered is Launch <==> found is Absent,
        found matches BraveDiscovery::Target { target } ==> discovered == (OpenNext::Handoff {
            target,
        }),
        found is Unsafe ==> discovered == (OpenNext::Done {
            result: BrowserOpenResult::BraveHandoffFailed,
        }),
        given is Opened <==> success,
        !success ==> given is BraveHandoffFailed && started is Failed,
        started is Opened <==> success,
{
    reveal_strlit("brave-browser.desktop");
    assert("brave-browser.desktop"@.len() == 21);
}

/// A process is taken for Brave exactly where it belongs to the user, bears that name, lives, has the
/// user as its effective user, and runs the executable that is meant. Where all of this holds but
/// the last two, or they cannot be found out, it is not safe.
pub proof fn brave_is_known_by_its_executable(
    facts: &ProcessFacts,
    uid: u32,
    executable: &[u8],
    result: ProcessInspection,
)
    requires
        call_ensures(inspect_brave_executable, (facts, uid, executable), result),
    ensures
        ({
            let own = facts.directory == (DirectoryFact::Owner { uid });
            let named = facts.status matches Some(status) && name_in(status@) == Some("brave"@)
                && state_in(status@) != Some('Z');
            let sound = facts.status matches Some(status) && state_in(status@) is Some
                && effective_uid_in(status@) == Some(uid as nat);
            let running = facts.executable matches ExecutableFact::Path { path } && is_same_path(
                path@,
                executable@,
            );
            &&& result is Brave <==> own && named && sound && running
            &&& result is Unsafe <==> facts.directory is Unreadable || (own && named && (!sound || (
            !running && !(facts.executable is Missing))))
        }),
{
}

/// The role of a process whose command line begins with the executable, with its arguments apart:
/// one with another profile directory is of no use, one with a type is a helper, and any other is
/// the main process. A switch counts alone or with a value after an equals sign.
pub proof fn roles_are_told_by_switches(
    bytes: Vec<u8>,
    executable: &[u8],
    result: ProcessRoleInspection,
)
    requires
        call_ensures(
            inspect_process_role,
            (&CommandLineFact::Read { bytes }, executable),
            result,
        ),
        pieces(bytes@, 0).filter(not_empty()).len() > 0,
        pieces(bytes@, 0).filter(not_empty())[0] == executable@,
    ensures
        ({
            let words = pieces(bytes@, 0).filter(not_empty());
            let profile = exists|i: int|
                1 <= i < words.len() && is_argument(
                    #[trigger] words[i],
                    encode_utf8("--user-data-dir"@),
                );
            let helper = exists|i: int|
                1 <= i < words.len() && is_argument(#[trigger] words[i], encode_utf8("--type"@));
            result == (ProcessRoleInspection::Role {
                role: if profile {
                    ProcessRole::CustomProfile
                } else if helper {
                    ProcessRole::Child
                } else {
                    ProcessRole::DefaultMain
                },
            })
        }),
{
    let words = pieces(bytes@, 0).filter(not_empty());
    any_later(words, encode_utf8("--user-data-dir"@));
    any_later(words, encode_utf8("--type"@));
}

/// Whether an argument is a switch, alone or with a value after an equals sign.
pub open spec fn is_argument(argument: Seq<u8>, switch: Seq<u8>) -> bool {
    argument == switch || (argument.len() > switch.len() && argument.take(switch.len() as int)
        == switch && argument[switch.len() as int] == 61)
}

proof fn any_later(words: Seq<Seq<u8>>, switch: Seq<u8>)
    requires
        words.len() > 0,
    ensures
        any(words.drop_first(), switch_argument(switch)) <==> exists|i: int|
            1 <= i < words.len() && is_argument(#[trigger] words[i], switch),
{
    let rest = words.drop_first();
    assert forall|argument: Seq<u8>| is_switch(argument, switch) == is_argument(
        argument,
        switch,
    ) by {
        if is_switch(argument, switch) {
            assert(argument.take(switch.len() as int) =~= switch);
            if argument.len() == switch.len() {
                assert(argument =~= switch);
            }
        }
        if argument.len() > switch.len() && argument.take(switch.len() as int) == switch {
            assert forall|i: int| 0 <= i < switch.len() implies argument[i] == switch[i] by {
                assert(argument.take(switch.len() as int)[i] == argument[i]);
            }
            assert(switch =~= argument.subrange(0, switch.len() as int));
        }
        if argument == switch {
            assert(switch =~= argument.subrange(0, switch.len() as int));
        }
    }
    if any(rest, switch_argument(switch)) {
        let k = choose|k: int| 0 <= k < rest.len() && switch_argument(switch)(#[trigger] rest[k]);
        assert(words[k + 1] == rest[k]);
    }
    if exists|i: int| 1 <= i < words.len() && is_argument(#[trigger] words[i], switch) {
        let i = choose|i: int| 1 <= i < words.len() && is_argument(#[trigger] words[i], switch);
        assert(rest[i - 1] == words[i]);
        assert(switch_argument(switch)(rest[i - 1]));
    }
}

/// Whether a row is the only one of a list with a property.
pub open spec fn is_sole<A>(list: Seq<A>, property: spec_fn(A) -> bool, at: int) -> bool {
    &&& 0 <= at < list.len()
    &&& property(list[at])
    &&& forall|i: int| 0 <= i < list.len() && i != at ==> !property(#[trigger] list[i])
}

proof fn one_is_left<A>(list: Seq<A>, property: spec_fn(A) -> bool)
    ensures
        list.filter(property).len() == 0 <==> forall|i: int|
            0 <= i < list.len() ==> !property(#[trigger] list[i]),
        list.filter(property).len() == 1 <==> exists|at: int| #[trigger] is_sole(list, property, at),
    decreases list.len(),
{
    reveal(Seq::filter);
    if list.len() > 0 {
        let front = list.drop_last();
        let last = list.len() - 1;
        one_is_left(front, property);
        assert(forall|i: int| 0 <= i < front.len() ==> front[i] == #[trigger] list[i]);
        if list.filter(property).len() == 0 {
            assert forall|i: int| 0 <= i < list.len() implies !property(#[trigger] list[i]) by {
                if i < last {
                    assert(front[i] == list[i]);
                }
            }
        }
        if forall|i: int| 0 <= i < list.len() ==> !property(#[trigger] list[i]) {
            assert forall|i: int| 0 <= i < front.len() implies !property(#[trigger] front[i]) by {
                assert(list[i] == front[i]);
            }
            assert(!property(list[last]));
        }
        if list.filter(property).len() == 1 {
            if property(list[last]) {
                assert(is_sole(list, property, last));
            } else {
                let at = choose|at: int| #[trigger] is_sole(front, property, at);
                assert forall|i: int| 0 <= i < list.len() && i != at implies !property(
                    #[trigger] list[i],
                ) by {
                    if i < last {
                        assert(front[i] == list[i]);
                    }
                }
                assert(is_sole(list, property, at));
            }
        }
        if exists|at: int| #[trigger] is_sole(list, property, at) {
            let at = choose|at: int| #[trigger] is_sole(list, property, at);
            if at == last {
                assert forall|i: int| 0 <= i < front.len() implies !property(
                    #[trigger] front[i],
                ) by {
                    assert(list[i] == front[i]);
                }
            } else {
                assert(!property(list[last]));
                assert forall|i: int| 0 <= i < front.len() && i != at implies !property(
                    #[trigger] front[i],
                ) by {
                    assert(list[i] == front[i]);
                }
                assert(is_sole(front, property, at));
            }
        }
    }
}

/// Whether a socket is in a directory that only the user may enter: an absolute path with the name
/// of Brave's socket, in a directory of the user with mode 0700, and a socket of the user.
pub open spec fn only_the_user_reaches(path: Seq<u8>, uid: u32, place: PlaceFacts) -> bool {
    &&& is_absolute(path) && file_name(path) == Some(encode_utf8("SingletonSocket"@))
    &&& place.directory matches Some(directory) && directory.is_directory && directory.uid == uid
        && directory.mode % 4096 == 448
    &&& place.socket matches Some(socket) && socket.is_socket && socket.uid == uid
}

/// A target is bound to its socket exactly where its process has the socket open, exactly one line of
/// the kernel's list has both the number and the path of the socket, and only the user can have put
/// the socket there. It is still what it was found to be exactly where it is bound so, and is the
/// main process of the Brave that is meant.
pub proof fn targets_are_checked_whole(
    target: &BraveTarget,
    facts: &BindingFacts,
    bound: bool,
    all: &TargetFacts,
    holds: bool,
    process: ProcessInspection,
    role: ProcessRoleInspection,
    executable: &[u8],
)
    requires
        call_ensures(validate_socket_binding, (target, facts), bound),
        call_ensures(validate_socket_target, (target, all), holds),
        all.binding == *facts,
        executable@ == target@.executable,
        call_ensures(inspect_brave_executable, (&all.process, target@.uid, executable), process),
        call_ensures(inspect_process_role, (&all.command_line, executable), role),
    ensures
        bound <==> {
            &&& facts.inodes matches Some(inodes) && inodes@.contains(target@.socket_inode)
            &&& facts.entries matches Some(entries) && exists|at: int|
                {
                    &&& 0 <= at < entries@.len()
                    &&& (#[trigger] entries@[at])@.inode == target@.socket_inode
                    &&& is_same_path(entries@[at]@.path, target@.socket_path)
                    &&& forall|i: int|
                        0 <= i < entries@.len() && i != at ==> (#[trigger] entries@[i])@.inode
                            != target@.socket_inode || !is_same_path(
                            entries@[i]@.path,
                            target@.socket_path,
                        )
                }
            &&& only_the_user_reaches(target@.socket_path, target@.uid, facts.place)
        },
        holds <==> bound && process is Brave && role == (ProcessRoleInspection::Role {
            role: ProcessRole::DefaultMain,
        }),
{
    if let Some(entries) = facts.entries {
        let listed = rows(entries@);
        let property = is_bound(target@);
        one_is_left(listed, property);
        assert forall|i: int| 0 <= i < entries@.len() implies property(#[trigger] listed[i]) == (
        entries@[i]@.inode == target@.socket_inode && is_same_path(
            entries@[i]@.path,
            target@.socket_path,
        )) by {}
        if exists|at: int| #[trigger] is_sole(listed, property, at) {
            let at = choose|at: int| #[trigger] is_sole(listed, property, at);
            assert(property(listed[at]));
            assert forall|i: int| 0 <= i < entries@.len() && i != at implies (
            #[trigger] entries@[i])@.inode != target@.socket_inode || !is_same_path(
                entries@[i]@.path,
                target@.socket_path,
            ) by {
                assert(!property(listed[i]));
            }
            assert(entries@[at]@.inode == target@.socket_inode);
        }
        if exists|at: int|
            {
                &&& 0 <= at < entries@.len()
                &&& (#[trigger] entries@[at])@.inode == target@.socket_inode
                &&& is_same_path(entries@[at]@.path, target@.socket_path)
                &&& forall|i: int|
                    0 <= i < entries@.len() && i != at ==> (#[trigger] entries@[i])@.inode
                        != target@.socket_inode || !is_same_path(
                        entries@[i]@.path,
                        target@.socket_path,
                    )
            } {
            let at = choose|at: int|
                {
                    &&& 0 <= at < entries@.len()
                    &&& (#[trigger] entries@[at])@.inode == target@.socket_inode
                    &&& is_same_path(entries@[at]@.path, target@.socket_path)
                    &&& forall|i: int|
                        0 <= i < entries@.len() && i != at ==> (#[trigger] entries@[i])@.inode
                            != target@.socket_inode || !is_same_path(
                            entries@[i]@.path,
                            target@.socket_path,
                        )
                };
            assert(property(listed[at]));
            assert forall|i: int| 0 <= i < listed.len() && i != at implies !property(
                #[trigger] listed[i],
            ) by {
                assert(entries@[i]@.inode != target@.socket_inode || !is_same_path(
                    entries@[i]@.path,
                    target@.socket_path,
                ));
            }
            assert(is_sole(listed, property, at));
        }
    }
}

/// The message that hands a link over is made exactly where the link is safe, nothing in it has a
/// zero byte, and it is shorter than what Brave reads; between its zero bytes it reads as the word
/// to start, the working directory, the executable and the link.
pub proof fn messages_hold_the_link(
    cwd: &[u8],
    executable: &[u8],
    url: &str,
    message: Option<Vec<u8>>,
)
    requires
        call_ensures(build_singleton_message, (cwd, executable, url), message),
    ensures
        ({
            let length = 5 + 1 + cwd@.len() + 1 + executable@.len() + 1 + encode_utf8(url@).len();
            &&& message is Some <==> is_https(url@) && !encode_utf8(url@).contains(0u8)
                && !cwd@.contains(0u8) && !executable@.contains(0u8) && length < 32768
            &&& message matches Some(message) ==> message@.len() == length && pieces(message@, 0)
                == seq![seq![83u8, 84u8, 65u8, 82u8, 84u8], cwd@, executable@, encode_utf8(url@)]
        }),
{
    start_bytes();
    if is_safe(url@) && !cwd@.contains(0u8) && !executable@.contains(0u8) {
        message_reads_back(cwd@, executable@, url@);
    }
}

proof fn start_bytes()
    ensures
        encode_utf8("START"@) == seq![83u8, 84u8, 65u8, 82u8, 84u8],
        encode_utf8("ACK"@) == seq![65u8, 67u8, 75u8],
{
    reveal_strlit("START");
    reveal_strlit("ACK");
    vstd::utf8::is_ascii_chars_encode_utf8("START"@);
    vstd::utf8::is_ascii_chars_encode_utf8("ACK"@);
    assert(encode_utf8("START"@) =~= seq![83u8, 84u8, 65u8, 82u8, 84u8]);
    assert(encode_utf8("ACK"@) =~= seq![65u8, 67u8, 75u8]);
}

/// Handing a link over goes through its stages one by one: the target is looked at, connected to,
/// its process checked, and looked at again before the message is sent, and only an answer ends it
/// well. What fails stays failed, and what is done stays done; the message is given out only when it
/// is to be sent, and never changes.
pub proof fn handing_over_goes_step_by_step(
    handoff: &mut Handoff,
    success: bool,
    after: &Handoff,
    message: Option<&Vec<u8>>,
)
    requires
        call_ensures(Handoff::proceed, (handoff, success), ()),
        *after == *final(handoff),
        call_ensures(Handoff::message, (after,), message),
    ensures
        ({
            let from = old(handoff).at();
            let to = final(handoff).at();
            &&& final(handoff).bytes() == old(handoff).bytes()
            &&& to is Connect <==> success && from is Validate
            &&& to is Peer <==> success && from is Connect
            &&& to is Revalidate <==> success && from is Peer
            &&& to is Send <==> success && from is Revalidate
            &&& to is Acknowledge <==> success && from is Send
            &&& to is Done <==> from is Done || (success && from is Acknowledge)
            &&& !(to is Validate)
            &&& message is Some <==> to is Send
            &&& message matches Some(message) ==> message@ == old(handoff).bytes()
        }),
{
}

/// A handing-over begins by looking at the target, with the message for the link from the root
/// directory.
pub proof fn handing_over_begins_with_a_look(
    target: &BraveTarget,
    url: &str,
    handoff: Option<Handoff>,
)
    requires
        call_ensures(Handoff::begin, (target, url), handoff),
    ensures
        handoff matches Some(begun) ==> begun.at() is Validate && is_https(url@) && pieces(
            begun.bytes(),
            0,
        ) == seq![
            seq![83u8, 84u8, 65u8, 82u8, 84u8],
            seq![47u8],
            target@.executable,
            encode_utf8(url@),
        ],
        handoff is None ==> !is_https(url@) || encode_utf8(url@).contains(0u8)
            || target@.executable.contains(0u8) || 9 + target@.executable.len() + encode_utf8(
            url@,
        ).len() >= 32768,
{
    start_bytes();
    if is_safe(url@) && !target@.executable.contains(0u8) {
        let root = seq![47u8];
        assert(!root.contains(0u8));
        message_reads_back(root, target@.executable, url@);
    }
}

/// The other end is the target exactly where both its process and its user are; Brave took a link
/// exactly where it answers with the three letters `ACK`.
pub proof fn the_other_end_is_checked(
    pid: i32,
    uid: u32,
    target: &BraveTarget,
    same: bool,
    response: &[u8],
    taken: bool,
)
    requires
        call_ensures(peer_matches, (pid, uid, target), same),
        call_ensures(is_acknowledged, (response,), taken),
    ensures
        same <==> pid == target@.pid && uid == target@.uid,
        taken <==> response@ == seq![65u8, 67u8, 75u8],
{
    start_bytes();
}

/// Connecting is given up only when it failed or the time is up, and is tried again where it was
/// interrupted or the other end was busy.
pub proof fn connecting_is_tried_until_the_time_is_up(
    outcome: ConnectOutcome,
    expired: bool,
    step: ConnectStep,
    polled: PollOutcome,
    poll: PollStep,
)
    requires
        call_ensures(connect_step, (outcome, expired), step),
        call_ensures(poll_step, (polled,), poll),
    ensures
        step is Connected <==> outcome is Connected || outcome is AlreadyConnected,
        step is Await <==> outcome is InProgress || outcome is AlreadyInProgress,
        step is Failed <==> outcome is Failed,
        step is TimedOut <==> expired && (outcome is Interrupted || outcome is TryAgain),
        step is Retry <==> !expired && outcome is Interrupted,
        step is RetryLater <==> !expired && outcome is TryAgain,
        poll is Settle <==> polled == (PollOutcome::Ready { settled: true }),
        poll is Retry <==> polled is Interrupted,
        poll is TimedOut <==> polled is TimedOut,
{
}

/// Waiting takes as many whole milliseconds as are left, but at least one while any time is left; an
/// address holds a path that is neither empty, nor too long with its end, nor has a zero byte.
pub proof fn waiting_and_addresses_are_bounded(
    remaining: u128,
    milliseconds: Option<i32>,
    path: &[u8],
    capacity: usize,
    error: Option<AddressError>,
)
    requires
        call_ensures(poll_timeout, (remaining,), milliseconds),
        call_ensures(address_error, (path, capacity), error),
    ensures
        milliseconds is None <==> remaining == 0,
        milliseconds matches Some(wait) ==> {
            &&& wait >= 1
            &&& remaining >= 1000000 && remaining < 2147483648000000 ==> wait * 1000000 <= remaining
                && remaining < (wait + 1) * 1000000
            &&& remaining < 1000000 ==> wait == 1
            &&& remaining >= 2147483648000000 ==> wait == 2147483647
        },
        error is None <==> 0 < path@.len() < capacity && !path@.contains(0u8),
        error == Some(AddressError::TooLong) <==> path@.len() > 0 && !path@.contains(0u8)
            && path@.len() >= capacity,
{
}

/// What a Brave process means for the search. One that is gone means nothing. The main process of
/// the default profile is a target where it owns a socket, and unsafe where it does not; of any
/// other process a socket that is not what it should be is unsafe, and so is a helper that owns one.
pub proof fn processes_are_judged(
    facts: BraveFacts,
    uid: u32,
    executable: &[u8],
    sockets: Seq<SocketView>,
    role: ProcessRoleInspection,
)
    requires
        call_ensures(inspect_process_role, (&facts.command_line, executable), role),
    ensures
        ({
            let judged = verdict(facts, uid, executable@, sockets);
            let owned = ownership(facts, uid, executable@, sockets);
            &&& judged is Target <==> role == (ProcessRoleInspection::Role {
                role: ProcessRole::DefaultMain,
            }) && owned is Target
            &&& judged is Target ==> judged == owned
            &&& judged is Nothing <==> role is Gone || (owned is Nothing && role
                == (ProcessRoleInspection::Role { role: ProcessRole::Child })) || (!(
            owned is Unsafe) && role == (ProcessRoleInspection::Role {
                role: ProcessRole::CustomProfile,
            }))
        }),
{
}

/// A process owns a singleton socket exactly where it has one of the list open, all of the list that
/// it has open are that one, and it is bound to it; where its files cannot be read, it is unsafe if
/// it is still there.
pub proof fn sockets_are_owned_alone(
    facts: BraveFacts,
    uid: u32,
    executable: Seq<u8>,
    sockets: Seq<SocketView>,
)
    ensures
        ownership(facts, uid, executable, sockets) matches OwnershipView::Target { target } ==> {
            &&& facts.inodes matches Some(inodes) && inodes@.contains(target.socket_inode)
                && forall|i: int|
                0 <= i < sockets.len() && inodes@.contains((#[trigger] sockets[i]).inode)
                    ==> sockets[i].inode == target.socket_inode && is_same_path(
                    sockets[i].path,
                    target.socket_path,
                )
            &&& target.pid == facts.pid && target.uid == uid && target.executable == executable
            &&& only_the_user_reaches(target.socket_path, uid, facts.binding.place)
        },
        facts.inodes is None ==> (ownership(facts, uid, executable, sockets) is Unsafe
            <==> facts.exists),
        facts.inodes is None ==> (ownership(facts, uid, executable, sockets) is Nothing
            <==> !facts.exists),
        facts.inodes matches Some(inodes) ==> (ownership(
            facts,
            uid,
            executable,
            sockets,
        ) is Nothing <==> forall|i: int|
            0 <= i < sockets.len() ==> !inodes@.contains((#[trigger] sockets[i]).inode)),
{
    if let Some(inodes) = facts.inodes {
        let property = is_open(inodes@);
        let open = sockets.filter(property);
        one_is_left(sockets, property);
        crate::table::filter_rows(sockets, property);
        assert(forall|i: int|
            0 <= i < sockets.len() ==> property(#[trigger] sockets[i]) == inodes@.contains(
                sockets[i].inode,
            ));
        if open.len() > 0 {
            assert(open.contains(open[0]));
            assert forall|i: int|
                0 <= i < sockets.len() && inodes@.contains(
                    (#[trigger] sockets[i]).inode,
                ) && !crate::browser::differ(open) implies sockets[i].inode == open[0].inode
                && is_same_path(sockets[i].path, open[0].path) by {
                assert(sockets.contains(sockets[i]));
                assert(open.contains(sockets[i]));
                let k = choose|k: int| 0 <= k < open.len() && open[k] == sockets[i];
                assert(crate::browser::is_same_socket(open[k], open[0]));
            }
        }
        if ownership(facts, uid, executable, sockets) is Nothing {
            assert forall|i: int| 0 <= i < sockets.len() implies !inodes@.contains(
                (#[trigger] sockets[i]).inode,
            ) by {
                assert(!property(sockets[i]));
            }
        }
    }
}

proof fn targets_found(
    found: Seq<BraveFacts>,
    uid: u32,
    executable: Seq<u8>,
    sockets: Seq<SocketView>,
    at: int,
)
    requires
        0 <= at < found.len(),
        verdict(found[at], uid, executable, sockets) is Target,
        forall|i: int|
            0 <= i < found.len() && i != at ==> verdict(
                #[trigger] found[i],
                uid,
                executable,
                sockets,
            ) is Nothing,
    ensures
        targets_among(found, uid, executable, sockets) == Some(
            seq![verdict(found[at], uid, executable, sockets)->target],
        ),
    decreases found.len(),
{
    let front = found.drop_last();
    assert(forall|i: int| 0 <= i < front.len() ==> front[i] == #[trigger] found[i]);
    if at == found.len() - 1 {
        assert forall|i: int| 0 <= i < front.len() implies verdict(
            #[trigger] front[i],
            uid,
            executable,
            sockets,
        ) is Nothing by {
            assert(front[i] == found[i]);
        }
        none_found(front, uid, executable, sockets);
        assert(Seq::<TargetView>::empty().push(
            verdict(found[at], uid, executable, sockets)->target,
        ) =~= seq![verdict(found[at], uid, executable, sockets)->target]);
    } else {
        assert forall|i: int| 0 <= i < front.len() && i != at implies verdict(
            #[trigger] front[i],
            uid,
            executable,
            sockets,
        ) is Nothing by {
            assert(front[i] == found[i]);
        }
        targets_found(front, uid, executable, sockets, at);
        assert(verdict(found[found.len() - 1], uid, executable, sockets) is Nothing);
    }
}

proof fn none_found(
    found: Seq<BraveFacts>,
    uid: u32,
    executable: Seq<u8>,
    sockets: Seq<SocketView>,
)
    requires
        forall|i: int|
            0 <= i < found.len() ==> verdict(#[trigger] found[i], uid, executable, sockets) is Nothing,
    ensures
        targets_among(found, uid, executable, sockets) == Some(Seq::<TargetView>::empty()),
    decreases found.len(),
{
    if found.len() > 0 {
        let front = found.drop_last();
        assert forall|i: int| 0 <= i < front.len() implies verdict(
            #[trigger] front[i],
            uid,
            executable,
            sockets,
        ) is Nothing by {
            assert(front[i] == found[i]);
        }
        none_found(front, uid, executable, sockets);
        assert(verdict(found[found.len() - 1], uid, executable, sockets) is Nothing);
    }
}

/// A search settles on a process that is a target where all others mean nothing, comes to none where
/// all mean nothing, and is unsafe where one process is, or the list of sockets cannot be read.
pub proof fn searches_settle_on_the_only_target(
    found: &Vec<BraveFacts>,
    sockets: &Option<Vec<UnixSocketEntry>>,
    uid: u32,
    executable: &[u8],
    result: BraveDiscovery,
    at: int,
)
    requires
        call_ensures(discover_brave, (found, sockets, uid, executable), result),
    ensures
        found@.len() == 0 ==> result is Absent,
        found@.len() > 0 && sockets is None ==> result is Unsafe,
        sockets matches Some(list) ==> {
            let listed = rows(list@);
            &&& 0 <= at < found@.len() && verdict(found@[at], uid, executable@, listed) is Unsafe
                ==> result is Unsafe
            &&& (forall|i: int|
                0 <= i < found@.len() ==> verdict(
                    #[trigger] found@[i],
                    uid,
                    executable@,
                    listed,
                ) is Nothing) ==> result is Absent
            &&& 0 <= at < found@.len() && verdict(found@[at], uid, executable@, listed) is Target && (
            forall|i: int|
                0 <= i < found@.len() && i != at ==> verdict(
                    #[trigger] found@[i],
                    uid,
                    executable@,
                    listed,
                ) is Nothing) ==> result@ == (DiscoveryView::Target {
                target: verdict(found@[at], uid, executable@, listed)->target,
            })
            &&& result@ matches DiscoveryView::Target { target } ==> exists|i: int|
                0 <= i < found@.len() && verdict(#[trigger] found@[i], uid, executable@, listed) == (
                OwnershipView::Target { target }) && forall|j: int|
                    0 <= j < found@.len() && j != i ==> verdict(
                        #[trigger] found@[j],
                        uid,
                        executable@,
                        listed,
                    ) is Nothing
        },
{
    if let Some(list) = *sockets {
        let listed = rows(list@);
        if 0 <= at < found@.len() && verdict(found@[at], uid, executable@, listed) is Unsafe {
            one_unsafe_process_is_enough(found@, listed, uid, executable@, at);
        }
        if forall|i: int|
            0 <= i < found@.len() ==> verdict(#[trigger] found@[i], uid, executable@, listed) is Nothing {
            none_found(found@, uid, executable@, listed);
        }
        if 0 <= at < found@.len() && verdict(found@[at], uid, executable@, listed) is Target && (
        forall|i: int|
            0 <= i < found@.len() && i != at ==> verdict(
                #[trigger] found@[i],
                uid,
                executable@,
                listed,
            ) is Nothing) {
            targets_found(found@, uid, executable@, listed, at);
        }
        if let DiscoveryView::Target { target } = result@ {
            target_is_main_and_bound(found@, listed, uid, executable@, target);
            let i = choose|i: int|
                #[trigger] crate::browser::sole_target(found@, uid, executable@, listed, i, target);
            assert(verdict(found@[i], uid, executable@, listed) == (OwnershipView::Target { target }));
        }
    }
}

/// The file descriptor of a process stands for a socket exactly where it reads as the word for one
/// with a number in brackets; the directory of a process has a number without a sign for its name.
pub proof fn sockets_and_processes_are_numbered(
    target: &[u8],
    inode: Option<u64>,
    number: Seq<u8>,
    name: &[u8],
    pid: Option<i32>,
)
    requires
        call_ensures(parse_socket_inode, (target,), inode),
        call_ensures(parse_pid, (name,), pid),
    ensures
        target@ == encode_utf8("socket:["@) + number + seq![93u8] ==> match inode {
            Some(inode) => unsigned_value(number, 10, u64::MAX as nat) == Some(inode as nat),
            None => unsigned_value(number, 10, u64::MAX as nat) is None,
        },
        inode is Some ==> exists|within: Seq<u8>|
            target@ == #[trigger] (encode_utf8("socket:["@) + within + seq![93u8]),
        pid matches Some(pid) ==> name@[0] != 43 && unsigned_value(name@, 10, i32::MAX as nat)
            == Some(pid as nat),
        name@.len() > 0 && name@[0] != 43 && unsigned_value(name@, 10, i32::MAX as nat) is Some
            ==> pid is Some,
{
    let prefix = encode_utf8("socket:["@);
    let n = prefix.len() as int;
    if target@ == prefix + number + seq![93u8] {
        assert(prefix =~= target@.subrange(0, n));
        assert(target@.subrange(n, target@.len() - 1) =~= number);
    }
    if inode is Some {
        let within = target@.subrange(n, target@.len() - 1);
        assert(target@ =~= prefix + within + seq![93u8]) by {
            assert(prefix =~= target@.subrange(0, n));
            assert forall|i: int| 0 <= i < n implies target@[i] == prefix[i] by {
                assert(target@.subrange(0, n)[i] == target@[i]);
            }
        }
    }
}

/// What the kernel tells of a process is read from the first line with its label: its name without
/// white space around it, the first letter of its state, and of its users the effective one, which
/// comes second.
pub proof fn processes_are_read_by_their_lines(
    status: &str,
    name: Option<String>,
    state: Option<char>,
    uid: Option<u32>,
    at: int,
)
    requires
        call_ensures(process_name, (status,), name),
        call_ensures(process_state, (status,), state),
        call_ensures(process_effective_uid, (status,), uid),
    ensures
        is_first_with(lines_of(status@), "Name:"@, at) ==> optional_view(name) == Some(
            trimmed(lines_of(status@)[at].skip(5)),
        ),
        is_first_with(lines_of(status@), "State:"@, at) ==> {
            let rest = trimmed_start(lines_of(status@)[at].skip(6));
            state == if rest.len() > 0 {
                Some(rest[0])
            } else {
                None
            }
        },
        is_first_with(lines_of(status@), "Uid:"@, at) ==> {
            let fields = words(lines_of(status@)[at]);
            let effective = if fields.len() > 2 {
                unsigned_value(encode_utf8(fields[2]), 10, u32::MAX as nat)
            } else {
                None
            };
            match uid {
                Some(uid) => effective == Some(uid as nat),
                None => effective is None,
            }
        },
{
    reveal_strlit("Name:");
    reveal_strlit("State:");
    let lines = lines_of(status@);
    if is_first_with(lines, "Name:"@, at) {
        first_at(lines, labelled("Name:"@), at);
    }
    if is_first_with(lines, "State:"@, at) {
        first_at(lines, labelled("State:"@), at);
    }
    if is_first_with(lines, "Uid:"@, at) {
        first_at(lines, labelled("Uid:"@), at);
    }
}

/// Whether a line is the first of some that begins with a label.
pub open spec fn is_first_with(lines: Seq<Seq<char>>, label: Seq<char>, at: int) -> bool {
    &&& 0 <= at < lines.len()
    &&& label.is_prefix_of(lines[at])
    &&& forall|i: int| 0 <= i < at ==> !label.is_prefix_of(#[trigger] lines[i])
}

} // verus!
