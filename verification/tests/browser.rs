use omarchy_calendar::browser::{
    address_error, begin_opening, brave_discovered, brave_processes, build_singleton_message,
    classify_default_browser, command_line_contains_switch, connect_step, default_known,
    discover_brave, handed_over, inspect_brave_executable, is_acknowledged, launched,
    parse_listening_singleton_sockets, parse_pid, parse_socket_inode, peer_matches, poll_step,
    poll_timeout, process_effective_uid, process_name, process_state,
    rewritten_title_contains_switch, validate_socket_path,
    validate_socket_target, AddressError, BindingFacts, BraveDiscovery, BraveFacts, BraveTarget,
    BrowserOpenResult, CommandLineFact, ConnectOutcome, ConnectStep, DefaultBrowser, DirectoryFact,
    DirectoryPlace, ExecutableFact, Handoff, HandoffStage, OpenNext, PlaceFacts, PollOutcome,
    PollStep, ProcessFacts, ProcessInspection, ProcessSeen, SocketPlace, TargetFacts,
    UnixSocketEntry, BRAVE_EXECUTABLE,
};
use omarchy_calendar::bytes::same_path;

const UID: u32 = 1000;
const SOCKET: &str = "/tmp/chromium/SingletonSocket";

struct FakeBackend {
    default: DefaultBrowser,
    discovery: Option<BraveDiscovery>,
    handoff_success: bool,
    launch_success: bool,
    discoveries: usize,
    handoffs: usize,
    launches: usize,
}

fn open_with_backend(url: &str, backend: &mut FakeBackend) -> BrowserOpenResult {
    let mut next = begin_opening(url);
    loop {
        next = match next {
            OpenNext::Done { result } => return result,
            OpenNext::AskDefault => default_known(backend.default),
            OpenNext::Discover => {
                backend.discoveries += 1;
                brave_discovered(backend.discovery.take().unwrap())
            }
            OpenNext::Handoff { .. } => {
                backend.handoffs += 1;
                return handed_over(backend.handoff_success);
            }
            OpenNext::Launch => {
                backend.launches += 1;
                return launched(backend.launch_success);
            }
        };
    }
}

fn fake_target() -> BraveTarget {
    BraveTarget {
        pid: 42,
        uid: UID,
        executable: BRAVE_EXECUTABLE.as_bytes().to_vec(),
        socket_inode: 99,
        socket_path: b"/tmp/fake/SingletonSocket".to_vec(),
    }
}

fn fake_backend(discovery: BraveDiscovery) -> FakeBackend {
    FakeBackend {
        default: DefaultBrowser::Brave,
        discovery: Some(discovery),
        handoff_success: false,
        launch_success: true,
        discoveries: 0,
        handoffs: 0,
        launches: 0,
    }
}

#[test]
fn only_native_brave_desktop_id_uses_direct_handoff() {
    assert_eq!(
        classify_default_browser("brave-browser.desktop\n"),
        DefaultBrowser::Brave
    );
    assert_eq!(
        classify_default_browser("com.brave.Browser.desktop"),
        DefaultBrowser::Other
    );
    assert_eq!(
        classify_default_browser("brave-browser-beta.desktop"),
        DefaultBrowser::Other
    );
    assert_eq!(
        classify_default_browser("Brave-Browser.desktop"),
        DefaultBrowser::Other
    );
    assert_eq!(classify_default_browser(""), DefaultBrowser::Unknown);
}

#[test]
fn non_native_browser_ids_use_default_launcher() {
    for desktop_id in [
        "firefox.desktop",
        "google-chrome.desktop",
        "chromium.desktop",
        "com.brave.Browser.desktop",
    ] {
        let mut backend = FakeBackend {
            default: classify_default_browser(desktop_id),
            ..fake_backend(BraveDiscovery::Unsafe)
        };
        assert_eq!(
            open_with_backend("https://accounts.google.com/authorize", &mut backend),
            BrowserOpenResult::Opened,
            "{desktop_id}"
        );
        assert_eq!(backend.discoveries, 0, "{desktop_id}");
        assert_eq!(backend.handoffs, 0, "{desktop_id}");
        assert_eq!(backend.launches, 1, "{desktop_id}");
    }
}

#[test]
fn brave_handoff_failure_never_launches_fallback() {
    let mut backend = fake_backend(BraveDiscovery::Target { target: fake_target() });
    assert_eq!(
        open_with_backend("https://accounts.google.com/authorize", &mut backend),
        BrowserOpenResult::BraveHandoffFailed
    );
    assert_eq!(backend.handoffs, 1);
    assert_eq!(backend.launches, 0);

    let mut unsafe_backend = fake_backend(BraveDiscovery::Unsafe);
    assert_eq!(
        open_with_backend("https://accounts.google.com/authorize", &mut unsafe_backend),
        BrowserOpenResult::BraveHandoffFailed
    );
    assert_eq!(unsafe_backend.handoffs, 0);
    assert_eq!(unsafe_backend.launches, 0);
}

#[test]
fn missing_brave_or_other_default_uses_fallback() {
    let mut no_brave = fake_backend(BraveDiscovery::Absent);
    assert_eq!(
        open_with_backend("https://example.com", &mut no_brave),
        BrowserOpenResult::Opened
    );
    assert_eq!(no_brave.launches, 1);

    let mut other = FakeBackend {
        default: DefaultBrowser::Other,
        ..fake_backend(BraveDiscovery::Unsafe)
    };
    assert_eq!(
        open_with_backend("https://example.com", &mut other),
        BrowserOpenResult::Opened
    );
    assert_eq!(other.launches, 1);
    assert_eq!(other.handoffs, 0);
}

#[test]
fn unknown_default_uses_fallback() {
    let mut backend = FakeBackend {
        default: DefaultBrowser::Unknown,
        ..fake_backend(BraveDiscovery::Unsafe)
    };
    assert_eq!(
        open_with_backend("https://accounts.google.com/authorize", &mut backend),
        BrowserOpenResult::Opened
    );
    assert_eq!(backend.discoveries, 0);
    assert_eq!(backend.launches, 1);
    assert_eq!(backend.handoffs, 0);
}

#[test]
fn unsafe_urls_are_never_opened() {
    let mut backend = fake_backend(BraveDiscovery::Absent);
    assert_eq!(
        open_with_backend("javascript:alert(1)", &mut backend),
        BrowserOpenResult::Failed
    );
    assert_eq!(backend.launches, 0);
    assert_eq!(backend.handoffs, 0);
}

/// A process in a listing, with the socket that it has open.
struct FakeProcess {
    pid: i32,
    inode: u64,
    status: Option<String>,
    executable: Option<Vec<u8>>,
    command_line: Vec<u8>,
}

fn status_of(name: &str, state: &str) -> String {
    format!("Name:\t{name}\nState:\t{state}\nUid:\t{UID}\t{UID}\t{UID}\t{UID}\n")
}

fn fake_brave_process(pid: i32, inode: u64, child: bool) -> FakeProcess {
    FakeProcess {
        pid,
        inode,
        status: Some(status_of("brave", "S (sleeping)")),
        executable: Some(BRAVE_EXECUTABLE.as_bytes().to_vec()),
        command_line: if child {
            b"/opt/brave-bin/brave --type=renderer --renderer-client-id=7\0".to_vec()
        } else {
            b"/opt/brave-bin/brave\0".to_vec()
        },
    }
}

impl FakeProcess {
    fn facts(&self) -> ProcessFacts {
        ProcessFacts {
            directory: DirectoryFact::Owner { uid: UID },
            status: self.status.clone(),
            executable: match &self.executable {
                Some(path) => ExecutableFact::Path { path: path.clone() },
                None => ExecutableFact::Missing,
            },
        }
    }

    fn command_line(&self) -> CommandLineFact {
        CommandLineFact::Read { bytes: self.command_line.clone() }
    }

    fn binding(&self, net_unix: &str, place: PlaceFacts) -> BindingFacts {
        BindingFacts {
            inodes: Some(vec![self.inode]),
            entries: Some(parse_listening_singleton_sockets(net_unix.as_bytes())),
            place,
        }
    }
}

fn private_place() -> PlaceFacts {
    PlaceFacts {
        directory: Some(DirectoryPlace { is_directory: true, uid: UID, mode: 0o40700 }),
        socket: Some(SocketPlace { is_socket: true, uid: UID }),
    }
}

fn listening(inode: u64) -> String {
    format!(
        "Num RefCount Protocol Flags Type St Inode Path\n0000: 2 0 00010000 0001 01 {inode} {SOCKET}\n"
    )
}

fn discover(processes: &[FakeProcess], net_unix: Option<&str>) -> BraveDiscovery {
    let executable = BRAVE_EXECUTABLE.as_bytes();
    let seen: Vec<Option<ProcessSeen>> = processes
        .iter()
        .map(|process| {
            Some(ProcessSeen {
                name: process.pid.to_string().into_bytes(),
                facts: process.facts(),
            })
        })
        .collect();
    let Some(pids) = brave_processes(&seen, UID, executable) else {
        return BraveDiscovery::Unsafe;
    };
    let found: Vec<BraveFacts> = processes
        .iter()
        .filter(|process| pids.contains(&process.pid))
        .map(|process| BraveFacts {
            pid: process.pid,
            inodes: Some(vec![process.inode]),
            exists: true,
            command_line: process.command_line(),
            binding: process.binding(net_unix.unwrap_or(""), private_place()),
        })
        .collect();
    let sockets = net_unix.map(|content| parse_listening_singleton_sockets(content.as_bytes()));
    discover_brave(&found, &sockets, UID, executable)
}

/// Hands a link over to a process that listens, and gives what was sent to it.
fn notify(reply: &[u8], peer: i32) -> (bool, Option<Vec<u8>>) {
    let url = "https://accounts.google.com/o/oauth2/v2/auth?state=opaque";
    let process = fake_brave_process(4242, 41, false);
    let target = BraveTarget {
        pid: 4242,
        uid: UID,
        executable: BRAVE_EXECUTABLE.as_bytes().to_vec(),
        socket_inode: 41,
        socket_path: SOCKET.as_bytes().to_vec(),
    };
    let facts = TargetFacts {
        process: process.facts(),
        command_line: process.command_line(),
        binding: process.binding(&listening(41), private_place()),
    };
    let mut handoff = Handoff::begin(&target, url).unwrap();
    let mut sent = None;
    loop {
        let success = match handoff.stage() {
            HandoffStage::Validate | HandoffStage::Revalidate => {
                validate_socket_target(&target, &facts)
            }
            HandoffStage::Connect => true,
            HandoffStage::Peer => peer_matches(peer, UID, &target),
            HandoffStage::Send => {
                sent = handoff.message().cloned();
                true
            }
            HandoffStage::Acknowledge => is_acknowledged(reply),
            HandoffStage::Done => return (true, sent),
            HandoffStage::Failed => return (false, sent),
        };
        handoff.proceed(success);
    }
}

#[test]
fn chromium_framing_is_exact_and_ack_is_required() {
    let (opened, sent) = notify(b"ACK", 4242);
    assert!(opened);
    assert_eq!(
        sent.unwrap(),
        [
            b"START\0/\0".as_slice(),
            BRAVE_EXECUTABLE.as_bytes(),
            b"\0",
            b"https://accounts.google.com/o/oauth2/v2/auth?state=opaque",
        ]
        .concat()
    );
}

#[test]
fn shutdown_and_bad_ack_are_rejected() {
    for reply in [b"SHUTDOWN".as_slice(), b"NOPE".as_slice()] {
        assert!(!notify(reply, 4242).0);
    }
    assert!(!is_acknowledged(b"ACK\n"));
    assert!(!is_acknowledged(b""));
}

#[test]
fn discovery_requires_one_default_profile_main_process() {
    let first = fake_brave_process(4242, 41, false);
    let BraveDiscovery::Target { target } = discover(&[first], Some(&listening(41))) else {
        panic!("expected one safe Brave target");
    };
    assert_eq!(target.pid, 4242);
    assert_eq!(target.socket_inode, 41);
    assert_eq!(target.socket_path, SOCKET.as_bytes());

    assert_eq!(
        discover(
            &[fake_brave_process(4242, 41, false), fake_brave_process(4243, 41, false)],
            Some(&listening(41))
        ),
        BraveDiscovery::Unsafe
    );
}

#[test]
fn discovery_ignores_children_and_custom_user_data_dirs() {
    let child = fake_brave_process(11, 42, true);
    let custom = FakeProcess {
        command_line:
            b"/opt/brave-bin/brave --user-data-dir=/tmp/isolated --ozone-platform=wayland\0"
                .to_vec(),
        ..fake_brave_process(12, 41, false)
    };
    assert_eq!(
        discover(&[child, custom], Some(&listening(41))),
        BraveDiscovery::Absent
    );
}

#[test]
fn rewritten_chromium_titles_detect_boundary_delimited_switches() {
    let executable = BRAVE_EXECUTABLE.as_bytes();
    assert_eq!(
        command_line_contains_switch(
            b"/opt/brave-bin/brave --type=zygote --no-zygote-sandbox\0",
            executable,
            b"--type"
        ),
        Some(true)
    );
    assert_eq!(
        command_line_contains_switch(
            b"/opt/brave-bin/brave --user-data-dir=/tmp/custom --type=renderer\0",
            executable,
            b"--user-data-dir"
        ),
        Some(true)
    );
    assert_eq!(
        command_line_contains_switch(
            b"/opt/brave-bin/brave --label=\"safe --type=word\" --typewriter\0",
            executable,
            b"--type"
        ),
        Some(false)
    );
    assert_eq!(
        command_line_contains_switch(
            b"/opt/brave-bin/brave\0--type=renderer\0",
            executable,
            b"--type"
        ),
        Some(true)
    );
}

#[test]
fn default_main_without_singleton_listener_fails_closed() {
    assert_eq!(
        discover(
            &[fake_brave_process(20, 999, false)],
            Some("Num RefCount Protocol Flags Type St Inode Path\n")
        ),
        BraveDiscovery::Unsafe
    );
}

#[test]
fn deleted_or_mismatched_brave_executable_fails_closed() {
    let deleted = FakeProcess {
        executable: Some(format!("{BRAVE_EXECUTABLE} (deleted)").into_bytes()),
        ..fake_brave_process(30, 1, false)
    };
    assert_eq!(discover(&[deleted], None), BraveDiscovery::Unsafe);

    let mismatched = FakeProcess {
        executable: Some(b"/tmp/not-the-brave-executable".to_vec()),
        ..fake_brave_process(31, 1, false)
    };
    assert_eq!(discover(&[mismatched], None), BraveDiscovery::Unsafe);
}

#[test]
fn non_zombie_brave_whose_executable_vanished_is_ignored() {
    let vanished = FakeProcess { executable: None, ..fake_brave_process(35, 1, false) };
    assert_eq!(discover(&[vanished], None), BraveDiscovery::Absent);
}

#[test]
fn zombie_brave_without_executable_is_ignored() {
    let zombie = FakeProcess {
        executable: None,
        status: Some(status_of("brave", "Z (zombie)")),
        ..fake_brave_process(32, 1, false)
    };
    assert_eq!(discover(&[zombie], None), BraveDiscovery::Absent);
}

#[test]
fn unrelated_same_uid_process_races_are_ignored() {
    let unrelated = FakeProcess {
        executable: None,
        status: Some(status_of("short-lived", "S (sleeping)")),
        ..fake_brave_process(33, 1, false)
    };
    let gone = FakeProcess {
        executable: None,
        status: None,
        ..fake_brave_process(34, 1, false)
    };
    assert_eq!(discover(&[unrelated, gone], None), BraveDiscovery::Absent);
}

#[test]
fn insecure_singleton_parent_is_rejected() {
    let open = PlaceFacts {
        directory: Some(DirectoryPlace { is_directory: true, uid: UID, mode: 0o40755 }),
        ..private_place()
    };
    assert!(!validate_socket_path(SOCKET.as_bytes(), UID, &open));
    assert!(validate_socket_path(SOCKET.as_bytes(), UID, &private_place()));
    assert!(!validate_socket_path(SOCKET.as_bytes(), UID + 1, &private_place()));
    assert!(!validate_socket_path(b"/tmp/chromium/Other", UID, &private_place()));
    assert!(!validate_socket_path(b"SingletonSocket", UID, &private_place()));
}

#[test]
fn wrong_peer_pid_is_rejected_before_payload_is_sent() {
    let (opened, sent) = notify(b"ACK", 4243);
    assert!(!opened);
    assert_eq!(sent, None);
}

#[test]
fn parser_accepts_only_listening_singleton_stream_sockets() {
    let entries = parse_listening_singleton_sockets(
        b"Num RefCount Protocol Flags Type St Inode Path\n\
         0: 2 0 00010000 0001 01 41 /tmp/a/SingletonSocket\n\
         1: 2 0 00000000 0001 01 42 /tmp/b/SingletonSocket\n\
         2: 2 0 00010000 0001 03 43 /tmp/c/SingletonSocket\n\
         3: 2 0 00010000 0002 01 44 /tmp/d/SingletonSocket\n\
         4: 2 0 00010000 0001 01 45 /tmp/e/not-the-browser\n",
    );
    assert_eq!(
        entries,
        vec![UnixSocketEntry { inode: 41, path: b"/tmp/a/SingletonSocket".to_vec() }]
    );
}

#[test]
fn parser_does_not_require_unrelated_socket_paths_to_be_utf8() {
    let entries = parse_listening_singleton_sockets(
        b"Num RefCount Protocol Flags Type St Inode Path\n\
         0: 2 0 00010000 0001 01 40 /tmp/\xff/not-brave\n\
         1: 2 0 00010000 0001 01 41 /tmp/a/SingletonSocket\n",
    );
    assert_eq!(
        entries,
        vec![UnixSocketEntry { inode: 41, path: b"/tmp/a/SingletonSocket".to_vec() }]
    );
}

#[test]
fn process_files_are_read_field_by_field() {
    let status = status_of("brave", "S (sleeping)");
    assert_eq!(process_name(&status), Some("brave".to_string()));
    assert_eq!(process_state(&status), Some('S'));
    assert_eq!(process_effective_uid(&status), Some(UID));
    assert_eq!(process_name("State:\tS\n"), None);
    assert_eq!(process_effective_uid("Uid:\t1\n"), None);
    assert_eq!(parse_pid(b"4242"), Some(4242));
    assert_eq!(parse_pid(b"self"), None);
    assert_eq!(parse_pid(b"99999999999"), None);
    assert_eq!(parse_socket_inode(b"socket:[41]"), Some(41));
    assert_eq!(parse_socket_inode(b"pipe:[41]"), None);
    assert_eq!(parse_socket_inode(b"socket:[]"), None);
}

#[test]
fn processes_of_other_users_are_not_brave() {
    let executable = BRAVE_EXECUTABLE.as_bytes();
    let facts = fake_brave_process(7, 1, false).facts();
    assert_eq!(inspect_brave_executable(&facts, UID, executable), ProcessInspection::Brave);
    assert_eq!(
        inspect_brave_executable(&facts, UID + 1, executable),
        ProcessInspection::NotBrave
    );
    let missing = ProcessFacts { directory: DirectoryFact::Missing, ..facts };
    assert_eq!(
        inspect_brave_executable(&missing, UID, executable),
        ProcessInspection::NotBrave
    );
    let unreadable = ProcessFacts { directory: DirectoryFact::Unreadable, ..missing };
    assert_eq!(
        inspect_brave_executable(&unreadable, UID, executable),
        ProcessInspection::Unsafe
    );
    assert_eq!(brave_processes(&vec![None], UID, executable), None);
}

#[test]
fn one_unsafe_process_spoils_a_search() {
    let good = fake_brave_process(4242, 41, false);
    let child_with_the_socket = fake_brave_process(4243, 41, true);
    assert_eq!(
        discover(&[good, child_with_the_socket], Some(&listening(41))),
        BraveDiscovery::Unsafe
    );
}

#[test]
fn messages_that_do_not_fit_are_not_built() {
    let url = "https://example.com/";
    assert_eq!(
        build_singleton_message(b"/", b"/b", url),
        Some(b"START\0/\0/b\0https://example.com/".to_vec())
    );
    assert_eq!(build_singleton_message(b"/", b"/b\0", url), None);
    assert_eq!(build_singleton_message(b"/", b"/b", "http://example.com/"), None);
    let long = format!("https://example.com/{}", "a".repeat(32768));
    assert_eq!(build_singleton_message(b"/", b"/b", &long), None);
}

#[test]
fn socket_addresses_have_to_fit() {
    assert_eq!(address_error(b"", 108), Some(AddressError::Invalid));
    assert_eq!(address_error(b"/a\0b", 108), Some(AddressError::Invalid));
    assert_eq!(address_error(&[b'a'; 108], 108), Some(AddressError::TooLong));
    assert_eq!(address_error(&[b'a'; 107], 108), None);
}

#[test]
fn connecting_waits_retries_and_gives_up() {
    assert_eq!(connect_step(ConnectOutcome::Connected, true), ConnectStep::Connected);
    assert_eq!(connect_step(ConnectOutcome::AlreadyConnected, true), ConnectStep::Connected);
    assert_eq!(connect_step(ConnectOutcome::InProgress, false), ConnectStep::Await);
    assert_eq!(connect_step(ConnectOutcome::AlreadyInProgress, false), ConnectStep::Await);
    assert_eq!(connect_step(ConnectOutcome::Interrupted, false), ConnectStep::Retry);
    assert_eq!(connect_step(ConnectOutcome::Interrupted, true), ConnectStep::TimedOut);
    assert_eq!(connect_step(ConnectOutcome::TryAgain, false), ConnectStep::RetryLater);
    assert_eq!(connect_step(ConnectOutcome::TryAgain, true), ConnectStep::TimedOut);
    assert_eq!(connect_step(ConnectOutcome::Failed, false), ConnectStep::Failed);
    assert_eq!(poll_timeout(1), Some(1));
    assert_eq!(poll_timeout(5_000_000), Some(5));
    assert_eq!(poll_timeout(0), None);
    assert_eq!(poll_step(PollOutcome::TimedOut), PollStep::TimedOut);
    assert_eq!(poll_step(PollOutcome::Interrupted), PollStep::Retry);
    assert_eq!(poll_step(PollOutcome::Failed), PollStep::Failed);
}

#[test]
fn paths_are_compared_by_their_components() {
    assert!(same_path(b"/opt/brave-bin/brave", b"/opt//brave-bin/./brave/"));
    assert!(same_path(b"brave", b"brave/."));
    assert!(!same_path(b"/opt/brave-bin/brave", b"opt/brave-bin/brave"));
    assert!(!same_path(b"brave", b"./brave"));
    assert!(!same_path(b"/opt/brave", b"/opt/../brave"));
    assert!(!same_path(b"/opt/brave", b"/opt/brave/helper"));
}

#[test]
fn plain_titles_are_searched_word_by_word() {
    let has = |title: &[u8]| rewritten_title_contains_switch(title, b"--type");
    assert!(has(b"a --type=renderer b"));
    assert!(has(b"--type"));
    assert!(has(b"a\t--type\nb"));
    assert!(!has(b"x--type"));
    assert!(!has(b"--typewriter"));
    assert!(!has(b""));
    assert!(!has(b"a '--type' b"));
}
