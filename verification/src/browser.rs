//! Opening links in the browser of the user. Brave, where it is the default browser and runs, is
//! handed the link directly, over the socket by which it keeps to one instance.
use vstd::prelude::*;
use vstd::utf8::encode_utf8;

use crate::bytes::{
    byte_strings, continues_with, file_name, has_byte, has_number, is_absolute, is_same_path,
    is_space, leading, names_file, part, pieces, run_end, same_bytes, same_path, space, split,
};
use crate::link::{https_link, is_https};
use crate::table::{first, first_at, first_none, made_of};
use crate::text::{
    lines, lines_of, parse_unsigned, split_whitespace, starts_with, strip_prefix, text_eq, texts,
    trim, trim_start, trimmed, trimmed_start, unsigned_value, words,
};

verus! {

/// Where Brave is installed.
pub const BRAVE_EXECUTABLE: &'static str = "/opt/brave-bin/brave";

/// The most that Brave reads of a message.
pub const CHROMIUM_SINGLETON_LIMIT: usize = 32768;

/// What came of opening a link.
#[derive(Clone, Copy, Debug, PartialEq, Eq, Structural)]
pub enum BrowserOpenResult {
    Opened,
    BraveHandoffFailed,
    Failed,
}

/// The default browser of the user.
#[derive(Clone, Copy, Debug, PartialEq, Eq, Structural)]
pub enum DefaultBrowser {
    Brave,
    Other,
    Unknown,
}

/// The default browser that a desktop identifier names. Only the native package of Brave is known.
pub open spec fn browser_named(value: Seq<char>) -> DefaultBrowser {
    let name = trimmed(value);
    if name == "brave-browser.desktop"@ {
        DefaultBrowser::Brave
    } else if name.len() == 0 {
        DefaultBrowser::Unknown
    } else {
        DefaultBrowser::Other
    }
}

/// Reads a desktop identifier.
pub fn classify_default_browser(value: &str) -> (browser: DefaultBrowser)
    ensures
        browser == browser_named(value@),
{
    let name: String = trim(value);
    if text_eq(name.as_str(), "brave-browser.desktop") {
        DefaultBrowser::Brave
    } else if name.as_str().is_empty() {
        DefaultBrowser::Unknown
    } else {
        DefaultBrowser::Other
    }
}

/// Whether a link may be opened: HTTPS, with a host, and without a zero byte.
pub open spec fn is_safe(url: Seq<char>) -> bool {
    !encode_utf8(url).contains(0u8) && is_https(url)
}

/// Tests a link.
pub fn is_safe_browser_url(url: &str) -> (safe: bool)
    ensures
        safe == is_safe(url@),
{
    !has_byte(url.as_bytes(), 0) && https_link(url)
}

/// A running Brave that takes links.
#[derive(Debug, PartialEq, Eq)]
pub struct BraveTarget {
    pub pid: i32,
    pub uid: u32,
    pub executable: Vec<u8>,
    pub socket_inode: u64,
    pub socket_path: Vec<u8>,
}

/// What is known of a running Brave.
pub struct TargetView {
    pub pid: i32,
    pub uid: u32,
    pub executable: Seq<u8>,
    pub socket_inode: u64,
    pub socket_path: Seq<u8>,
}

impl View for BraveTarget {
    type V = TargetView;

    open spec fn view(&self) -> TargetView {
        TargetView {
            pid: self.pid,
            uid: self.uid,
            executable: self.executable@,
            socket_inode: self.socket_inode,
            socket_path: self.socket_path@,
        }
    }
}

/// What a search for a running Brave came to.
#[derive(Debug, PartialEq, Eq)]
pub enum BraveDiscovery {
    Absent,
    Target { target: BraveTarget },
    Unsafe,
}

/// What a search for a running Brave came to.
pub enum DiscoveryView {
    Absent,
    Target { target: TargetView },
    Unsafe,
}

impl View for BraveDiscovery {
    type V = DiscoveryView;

    open spec fn view(&self) -> DiscoveryView {
        match self {
            BraveDiscovery::Absent => DiscoveryView::Absent,
            BraveDiscovery::Target { target } => DiscoveryView::Target { target: target@ },
            BraveDiscovery::Unsafe => DiscoveryView::Unsafe,
        }
    }
}

/// What comes next in opening a link.
#[derive(Debug, PartialEq, Eq)]
pub enum OpenNext {
    /// It is settled.
    Done { result: BrowserOpenResult },
    /// The default browser is to be found out.
    AskDefault,
    /// A running Brave is to be searched for.
    Discover,
    /// The link is to be handed over to a running Brave.
    Handoff { target: BraveTarget },
    /// The default browser is to be started with the link.
    Launch,
}

/// How opening a link begins: one that is not safe is never opened.
pub fn begin_opening(url: &str) -> (next: OpenNext)
    ensures
        next == if is_safe(url@) {
            OpenNext::AskDefault
        } else {
            OpenNext::Done { result: BrowserOpenResult::Failed }
        },
{
    if is_safe_browser_url(url) {
        OpenNext::AskDefault
    } else {
        OpenNext::Done { result: BrowserOpenResult::Failed }
    }
}

/// How opening goes on with the default browser: only Brave is searched for.
pub fn default_known(browser: DefaultBrowser) -> (next: OpenNext)
    ensures
        next == if browser is Brave {
            OpenNext::Discover
        } else {
            OpenNext::Launch
        },
{
    match browser {
        DefaultBrowser::Brave => OpenNext::Discover,
        _ => OpenNext::Launch,
    }
}

/// How opening goes on with what the search came to. Where Brave may run, but not safely, nothing
/// is started in its place.
pub fn brave_discovered(discovery: BraveDiscovery) -> (next: OpenNext)
    ensures
        next == match discovery {
            BraveDiscovery::Absent => OpenNext::Launch,
            BraveDiscovery::Target { target } => OpenNext::Handoff { target },
            BraveDiscovery::Unsafe => OpenNext::Done {
                result: BrowserOpenResult::BraveHandoffFailed,
            },
        },
{
    match discovery {
        BraveDiscovery::Absent => OpenNext::Launch,
        BraveDiscovery::Target { target } => OpenNext::Handoff { target },
        BraveDiscovery::Unsafe => OpenNext::Done { result: BrowserOpenResult::BraveHandoffFailed },
    }
}

/// What handing a link over came to. Where it failed, nothing is started in its place.
pub fn handed_over(success: bool) -> (result: BrowserOpenResult)
    ensures
        result == if success {
            BrowserOpenResult::Opened
        } else {
            BrowserOpenResult::BraveHandoffFailed
        },
{
    if success {
        BrowserOpenResult::Opened
    } else {
        BrowserOpenResult::BraveHandoffFailed
    }
}

/// What starting the default browser came to.
pub fn launched(success: bool) -> (result: BrowserOpenResult)
    ensures
        result == if success {
            BrowserOpenResult::Opened
        } else {
            BrowserOpenResult::Failed
        },
{
    if success {
        BrowserOpenResult::Opened
    } else {
        BrowserOpenResult::Failed
    }
}

/// The process that the name of a directory stands for.
pub open spec fn pid_named(name: Seq<u8>) -> Option<nat> {
    if name.len() > 0 && name[0] != 43 {
        unsigned_value(name, 10, i32::MAX as nat)
    } else {
        None
    }
}

/// Reads the name of a process directory.
pub fn parse_pid(name: &[u8]) -> (pid: Option<i32>)
    ensures
        match pid {
            Some(pid) => pid_named(name@) == Some(pid as nat) && pid >= 0,
            None => pid_named(name@) is None,
        },
{
    if name.len() == 0 || name[0] == 43 {
        return None;
    }
    match parse_unsigned(name, 10, 2147483647) {
        Some(pid) => Some(pid as i32),
        None => None,
    }
}

/// A line that begins with a label.
pub open spec fn labelled(label: Seq<char>) -> spec_fn(Seq<char>) -> bool {
    |line: Seq<char>| label.is_prefix_of(line)
}

/// The rest of the first line with a label.
pub open spec fn status_field(status: Seq<char>, label: Seq<char>) -> Option<Seq<char>> {
    match first(lines_of(status), labelled(label)) {
        Some(line) => Some(line.skip(label.len() as int)),
        None => None,
    }
}

fn labelled_line(status: &str, label: &str) -> (line: Option<String>)
    ensures
        match line {
            Some(line) => first(lines_of(status@), labelled(label@)) == Some(line@)
                && label@.is_prefix_of(line@),
            None => first(lines_of(status@), labelled(label@)) is None,
        },
{
    let list: Vec<String> = lines(status);
    let ghost all = lines_of(status@);
    for i in 0..list.len()
        invariant
            texts(list@) == all,
            all == lines_of(status@),
            forall|j: int| 0 <= j < i ==> !labelled(label@)(#[trigger] all[j]),
    {
        assert(all[i as int] == list@[i as int]@);
        if starts_with(list[i].as_str(), label) {
            proof {
                first_at(all, labelled(label@), i as int);
            }
            return Some(list[i].clone());
        }
    }
    proof {
        first_none(all, labelled(label@));
    }
    None
}

fn status_value(status: &str, label: &str) -> (value: Option<String>)
    ensures
        crate::text::optional_view(value) == status_field(status@, label@),
{
    match labelled_line(status, label) {
        Some(line) => strip_prefix(line.as_str(), label),
        None => None,
    }
}

/// The name of a process.
pub open spec fn name_in(status: Seq<char>) -> Option<Seq<char>> {
    match status_field(status, "Name:"@) {
        Some(value) => Some(trimmed(value)),
        None => None,
    }
}

/// Reads the name of a process.
pub fn process_name(status: &str) -> (name: Option<String>)
    ensures
        crate::text::optional_view(name) == name_in(status@),
{
    match status_value(status, "Name:") {
        Some(value) => Some(trim(value.as_str())),
        None => None,
    }
}

/// The state of a process: one letter.
pub open spec fn state_in(status: Seq<char>) -> Option<char> {
    match status_field(status, "State:"@) {
        Some(value) => if trimmed_start(value).len() > 0 {
            Some(trimmed_start(value)[0])
        } else {
            None
        },
        None => None,
    }
}

/// Reads the state of a process.
pub fn process_state(status: &str) -> (state: Option<char>)
    ensures
        state == state_in(status@),
{
    match status_value(status, "State:") {
        Some(value) => {
            let chars: Vec<char> = crate::text::chars_of(trim_start(value.as_str()).as_str());
            if chars.len() > 0 {
                Some(chars[0])
            } else {
                None
            }
        },
        None => None,
    }
}

/// The effective user of a process: the third word of its line.
pub open spec fn effective_uid_in(status: Seq<char>) -> Option<nat> {
    match first(lines_of(status), labelled("Uid:"@)) {
        Some(line) => if words(line).len() > 2 {
            unsigned_value(encode_utf8(words(line)[2]), 10, u32::MAX as nat)
        } else {
            None
        },
        None => None,
    }
}

/// Reads the effective user of a process.
pub fn process_effective_uid(status: &str) -> (uid: Option<u32>)
    ensures
        match uid {
            Some(uid) => effective_uid_in(status@) == Some(uid as nat),
            None => effective_uid_in(status@) is None,
        },
{
    let line: String = match labelled_line(status, "Uid:") {
        Some(line) => line,
        None => return None,
    };
    let list: Vec<String> = split_whitespace(line.as_str());
    if list.len() < 3 {
        return None;
    }
    assert(texts(list@)[2] == list@[2]@);
    match parse_unsigned(list[2].as_str().as_bytes(), 10, 4294967295) {
        Some(uid) => Some(uid as u32),
        None => None,
    }
}

/// Who owns the directory of a process.
#[derive(Clone, Copy, Debug, PartialEq, Eq, Structural)]
pub enum DirectoryFact {
    Missing,
    Unreadable,
    Owner { uid: u32 },
}

/// Where the executable of a process is.
#[derive(Debug, PartialEq, Eq)]
pub enum ExecutableFact {
    Missing,
    Unreadable,
    Path { path: Vec<u8> },
}

/// What was seen of a process: its directory, its status where it can be read, its executable.
#[derive(Debug, PartialEq, Eq)]
pub struct ProcessFacts {
    pub directory: DirectoryFact,
    pub status: Option<String>,
    pub executable: ExecutableFact,
}

/// Whether a process is Brave.
#[derive(Clone, Copy, Debug, PartialEq, Eq, Structural)]
pub enum ProcessInspection {
    Brave,
    NotBrave,
    Unsafe,
}

/// Whether a process is Brave. A process of the user with that name whose state, user or executable
/// is not as it has to be is not safe; one that is gone, or dead, is none.
pub open spec fn inspection(
    facts: ProcessFacts,
    uid: u32,
    executable: Seq<u8>,
) -> ProcessInspection {
    match facts.directory {
        DirectoryFact::Missing => ProcessInspection::NotBrave,
        DirectoryFact::Unreadable => ProcessInspection::Unsafe,
        DirectoryFact::Owner { uid: owner } => if owner != uid {
            ProcessInspection::NotBrave
        } else {
            match facts.status {
                None => ProcessInspection::NotBrave,
                Some(status) => if name_in(status@) != Some("brave"@) || state_in(status@) == Some(
                    'Z',
                ) {
                    ProcessInspection::NotBrave
                } else if state_in(status@) is None || effective_uid_in(status@) != Some(
                    uid as nat,
                ) {
                    ProcessInspection::Unsafe
                } else {
                    match facts.executable {
                        ExecutableFact::Missing => ProcessInspection::NotBrave,
                        ExecutableFact::Unreadable => ProcessInspection::Unsafe,
                        ExecutableFact::Path { path } => if is_same_path(path@, executable) {
                            ProcessInspection::Brave
                        } else {
                            ProcessInspection::Unsafe
                        },
                    }
                },
            }
        },
    }
}

/// Decides whether a process is Brave.
pub fn inspect_brave_executable(facts: &ProcessFacts, uid: u32, executable: &[u8]) -> (result:
    ProcessInspection)
    ensures
        result == inspection(*facts, uid, executable@),
{
    match facts.directory {
        DirectoryFact::Missing => return ProcessInspection::NotBrave,
        DirectoryFact::Unreadable => return ProcessInspection::Unsafe,
        DirectoryFact::Owner { uid: owner } => {
            if owner != uid {
                return ProcessInspection::NotBrave;
            }
        },
    }
    let status: &String = match &facts.status {
        Some(status) => status,
        None => return ProcessInspection::NotBrave,
    };
    let named: bool = match process_name(status.as_str()) {
        Some(name) => text_eq(name.as_str(), "brave"),
        None => false,
    };
    if !named {
        return ProcessInspection::NotBrave;
    }
    match process_state(status.as_str()) {
        Some(state) => {
            if state == 'Z' {
                return ProcessInspection::NotBrave;
            }
        },
        None => return ProcessInspection::Unsafe,
    }
    match process_effective_uid(status.as_str()) {
        Some(effective) => {
            if effective != uid {
                return ProcessInspection::Unsafe;
            }
        },
        None => return ProcessInspection::Unsafe,
    }
    match &facts.executable {
        ExecutableFact::Missing => ProcessInspection::NotBrave,
        ExecutableFact::Unreadable => ProcessInspection::Unsafe,
        ExecutableFact::Path { path } => if same_path(path.as_slice(), executable) {
            ProcessInspection::Brave
        } else {
            ProcessInspection::Unsafe
        },
    }
}

/// Whether an argument is a switch, alone or with a value.
pub open spec fn is_switch(argument: Seq<u8>, switch: Seq<u8>) -> bool {
    switch.is_prefix_of(argument) && (argument.len() == switch.len() || argument[switch.len() as int]
        == 61)
}

fn argument_is_switch(argument: &[u8], switch: &[u8]) -> (result: bool)
    ensures
        result == is_switch(argument@, switch@),
{
    assert(argument@.skip(0) =~= argument@);
    continues_with(argument, 0, switch) && (argument.len() == switch.len()
        || argument[switch.len()] == 61)
}

/// Whether a command line that a process wrote over as one text has a switch at the start of a word,
/// outside quotes: with a value, or up to the end of the word.
pub open spec fn title_has(
    title: Seq<u8>,
    switch: Seq<u8>,
    quote: Option<u8>,
    escaped: bool,
    word_start: bool,
) -> bool
    decreases title.len(),
{
    if title.len() == 0 {
        false
    } else {
        let byte = title[0];
        let rest = title.drop_first();
        if escaped {
            title_has(rest, switch, quote, false, false)
        } else if byte == 92 {
            title_has(rest, switch, quote, true, false)
        } else if quote is Some {
            title_has(
                rest,
                switch,
                if quote == Some(byte) {
                    None
                } else {
                    quote
                },
                false,
                word_start,
            )
        } else if byte == 39 || byte == 34 {
            title_has(rest, switch, Some(byte), false, false)
        } else if is_space(byte) {
            title_has(rest, switch, None, false, true)
        } else {
            (word_start && switch.is_prefix_of(title) && (title.len() == switch.len()
                || title[switch.len() as int] == 61 || is_space(title[switch.len() as int])))
                || title_has(rest, switch, None, false, false)
        }
    }
}

/// Searches for a switch in a command line that a process wrote over as one text.
pub fn rewritten_title_contains_switch(title: &[u8], switch: &[u8]) -> (result: bool)
    ensures
        result == title_has(title@, switch@, None, false, true),
{
    let mut quote: Option<u8> = None;
    let mut escaped: bool = false;
    let mut word_start: bool = true;
    let mut index: usize = 0;
    assert(title@.skip(0) =~= title@);
    while index < title.len()
        invariant
            index <= title@.len(),
            title_has(title@, switch@, None, false, true) == title_has(
                title@.skip(index as int),
                switch@,
                quote,
                escaped,
                word_start,
            ),
        decreases title@.len() - index,
    {
        let byte: u8 = title[index];
        let ghost rest = title@.skip(index as int);
        assert(rest[0] == byte);
        assert(rest.drop_first() =~= title@.skip(index + 1));
        if escaped {
            escaped = false;
            word_start = false;
        } else if byte == 92 {
            escaped = true;
            word_start = false;
        } else if let Some(delimiter) = quote {
            if byte == delimiter {
                quote = None;
            }
        } else if byte == 39 || byte == 34 {
            quote = Some(byte);
            word_start = false;
        } else if space(byte) {
            word_start = true;
        } else {
            if word_start && continues_with(title, index, switch) {
                assert(rest.len() >= switch@.len());
                if title.len() - index == switch.len() {
                    return true;
                }
                assert(rest[switch@.len() as int] == title@[index + switch@.len()]);
                let next: u8 = title[index + switch.len()];
                if next == 61 || space(next) {
                    return true;
                }
            }
            word_start = false;
        }
        index = index + 1;
    }
    assert(title@.skip(index as int).len() == 0);
    false
}

/// The words of a text: its longest runs without white space.
pub open spec fn words_in(bytes: Seq<u8>) -> Seq<Seq<u8>>
    decreases bytes.len(),
{
    let rest = bytes.skip(leading(bytes, true) as int);
    let n = leading(rest, false);
    if 0 < n <= rest.len() <= bytes.len() {
        seq![rest.take(n as int)] + words_in(rest.skip(n as int))
    } else {
        Seq::empty()
    }
}

/// Whether a text has neither a quote nor a backslash.
pub open spec fn is_unquoted(bytes: Seq<u8>) -> bool {
    forall|i: int| 0 <= i < bytes.len() ==> bytes[i] != 34 && bytes[i] != 39 && bytes[i] != 92
}

/// Whether a switch is not empty and has no white space.
pub open spec fn is_one_word(switch: Seq<u8>) -> bool {
    switch.len() > 0 && forall|i: int| 0 <= i < switch.len() ==> !is_space(#[trigger] switch[i])
}

proof fn leading_bounds(bytes: Seq<u8>, white: bool)
    ensures
        leading(bytes, white) <= bytes.len(),
        forall|i: int|
            0 <= i < leading(bytes, white) ==> is_space(#[trigger] bytes[i]) == white,
        leading(bytes, white) < bytes.len() ==> is_space(bytes[leading(bytes, white) as int])
            != white,
    decreases bytes.len(),
{
    if bytes.len() > 0 && is_space(bytes[0]) == white {
        let rest = bytes.drop_first();
        leading_bounds(rest, white);
        assert forall|i: int| 0 <= i < leading(bytes, white) implies is_space(#[trigger] bytes[i])
            == white by {
            if i > 0 {
                assert(bytes[i] == rest[i - 1]);
            }
        }
    }
}

proof fn first_word(bytes: Seq<u8>)
    requires
        bytes.len() > 0,
    ensures
        is_space(bytes[0]) ==> words_in(bytes) == words_in(bytes.drop_first()),
        !is_space(bytes[0]) ==> {
            let n = leading(bytes, false) as int;
            &&& 0 < n <= bytes.len()
            &&& words_in(bytes) == seq![bytes.take(n)] + words_in(bytes.skip(n))
        },
{
    let tail = bytes.drop_first();
    leading_bounds(bytes, true);
    leading_bounds(bytes, false);
    leading_bounds(tail, true);
    if is_space(bytes[0]) {
        assert(bytes.skip(leading(bytes, true) as int) =~= tail.skip(leading(tail, true) as int));
        let rest = tail.skip(leading(tail, true) as int);
        leading_bounds(rest, false);
    } else {
        assert(bytes.skip(0) =~= bytes);
    }
}

proof fn any_first<A>(head: A, tail: Seq<A>, property: spec_fn(A) -> bool)
    ensures
        crate::table::any(seq![head] + tail, property) <==> property(head) || crate::table::any(
            tail,
            property,
        ),
{
    let whole = seq![head] + tail;
    if property(head) {
        assert(property(whole[0]));
    }
    if crate::table::any(tail, property) {
        let i = choose|i: int| 0 <= i < tail.len() && property(#[trigger] tail[i]);
        assert(property(whole[i + 1]));
    }
    if crate::table::any(whole, property) {
        let i = choose|i: int| 0 <= i < whole.len() && property(#[trigger] whole[i]);
        if i > 0 {
            assert(property(tail[i - 1]));
        }
    }
}

proof fn switch_at_word(title: Seq<u8>, switch: Seq<u8>)
    requires
        title.len() > 0,
        !is_space(title[0]),
        is_one_word(switch),
    ensures
        is_switch(title.take(leading(title, false) as int), switch) <==> (switch.is_prefix_of(title)
            && (title.len() == switch.len() || title[switch.len() as int] == 61 || is_space(
            title[switch.len() as int],
        ))),
{
    let n = leading(title, false) as int;
    let word = title.take(n);
    leading_bounds(title, false);
    if switch.is_prefix_of(title) {
        assert(switch =~= title.take(switch.len() as int));
        if n < switch.len() {
            assert(is_space(title[n]));
            assert(switch[n] == title[n]);
        }
        assert(word.take(switch.len() as int) =~= switch);
        assert(switch.len() < n ==> word[switch.len() as int] == title[switch.len() as int]);
        if switch.len() < title.len() && is_space(title[switch.len() as int]) {
            assert(n == switch.len());
        }
    }
    if switch.is_prefix_of(word) {
        assert(switch =~= word.take(switch.len() as int));
        assert(title.take(switch.len() as int) =~= switch);
    }
}

proof fn title_follows_words(title: Seq<u8>, switch: Seq<u8>, word_start: bool)
    requires
        is_unquoted(title),
        is_one_word(switch),
    ensures
        title_has(title, switch, None, false, word_start) == crate::table::any(
            words_in(
                if word_start {
                    title
                } else {
                    title.skip(leading(title, false) as int)
                },
            ),
            switch_argument(switch),
        ),
    decreases title.len(),
{
    leading_bounds(title, false);
    if title.len() == 0 {
        assert(title.skip(0) =~= title);
        assert(title.skip(leading(title, true) as int).len() == 0);
        assert(words_in(title).len() == 0);
    } else {
        let rest = title.drop_first();
        assert(is_unquoted(rest)) by {
            assert forall|i: int| 0 <= i < rest.len() implies rest[i] != 34 && rest[i] != 39
                && rest[i] != 92 by {
                assert(rest[i] == title[i + 1]);
            }
        }
        assert(title[0] != 34 && title[0] != 39 && title[0] != 92);
        first_word(title);
        if is_space(title[0]) {
            title_follows_words(rest, switch, true);
            assert(title.skip(0) =~= title);
        } else {
            title_follows_words(rest, switch, false);
            let n = leading(title, false) as int;
            assert(title.skip(n) =~= rest.skip(leading(rest, false) as int));
            if word_start {
                switch_at_word(title, switch);
                any_first(title.take(n), words_in(title.skip(n)), switch_argument(switch));
            }
        }
    }
}

/// Without quotes and backslashes, a switch is in such a command line exactly where one of its words
/// is the switch, alone or with a value.
pub proof fn plain_titles_are_words(title: Seq<u8>, switch: Seq<u8>)
    requires
        is_unquoted(title),
        is_one_word(switch),
    ensures
        title_has(title, switch, None, false, true) == crate::table::any(
            words_in(title),
            switch_argument(switch),
        ),
{
    title_follows_words(title, switch, true);
}

/// A piece that is not empty.
pub open spec fn not_empty() -> spec_fn(Seq<u8>) -> bool {
    |piece: Seq<u8>| piece.len() > 0
}

/// An argument that is a switch.
pub open spec fn switch_argument(switch: Seq<u8>) -> spec_fn(Seq<u8>) -> bool {
    |argument: Seq<u8>| is_switch(argument, switch)
}

/// Whether a command line has a switch; nothing is known where it does not begin with the
/// executable. A process may have written over its command line with one text.
pub open spec fn command_line_has(
    command_line: Seq<u8>,
    executable: Seq<u8>,
    switch: Seq<u8>,
) -> Option<bool> {
    let components = pieces(command_line, 0).filter(not_empty());
    if components.len() == 0 {
        None
    } else {
        let head = components[0];
        let others = crate::table::any(components.drop_first(), switch_argument(switch));
        if head == executable {
            Some(others)
        } else if executable.is_prefix_of(head) && is_space(head[executable.len() as int]) {
            Some(title_has(head.skip(executable.len() as int), switch, None, false, true) || others)
        } else {
            None
        }
    }
}

/// Reads a command line.
pub fn command_line_contains_switch(
    command_line: &[u8],
    executable: &[u8],
    switch: &[u8],
) -> (result: Option<bool>)
    ensures
        result == command_line_has(command_line@, executable@, switch@),
{
    let list: Vec<Vec<u8>> = split(command_line, 0);
    let ghost all = byte_strings(list@);
    let ghost components = all.filter(not_empty());
    let mut head: Option<usize> = None;
    let mut found: bool = false;
    assert(all.take(0).filter(not_empty()) =~= Seq::<Seq<u8>>::empty()) by {
        reveal(Seq::filter);
    }
    for i in 0..list.len()
        invariant
            all == byte_strings(list@),
            match head {
                Some(at) => at < list@.len() && all.take(i as int).filter(not_empty()).len() > 0
                    && all.take(i as int).filter(not_empty())[0] == list@[at as int]@ && found
                    == crate::table::any(
                    all.take(i as int).filter(not_empty()).drop_first(),
                    switch_argument(switch@),
                ),
                None => all.take(i as int).filter(not_empty()).len() == 0 && !found,
            },
    {
        let ghost before = all.take(i as int).filter(not_empty());
        let ghost after = all.take(i + 1).filter(not_empty());
        proof {
            crate::table::filter_step(all, not_empty(), i as int);
        }
        if list[i].len() > 0 {
            match head {
                None => {
                    head = Some(i);
                    assert(after.drop_first() =~= Seq::<Seq<u8>>::empty());
                },
                Some(_) => {
                    let ghost rest = before.drop_first();
                    assert(after.drop_first() =~= rest.push(all[i as int]));
                    let now: bool = argument_is_switch(list[i].as_slice(), switch);
                    proof {
                        let longer = rest.push(all[i as int]);
                        if found {
                            let k = choose|k: int|
                                0 <= k < rest.len() && switch_argument(switch@)(#[trigger] rest[k]);
                            assert(switch_argument(switch@)(longer[k]));
                        }
                        if now {
                            assert(switch_argument(switch@)(longer[rest.len() as int]));
                        }
                        if crate::table::any(longer, switch_argument(switch@)) {
                            let k = choose|k: int|
                                0 <= k < longer.len() && switch_argument(switch@)(
                                    #[trigger] longer[k],
                                );
                            if k < rest.len() {
                                assert(switch_argument(switch@)(rest[k]));
                            }
                        }
                    }
                    found = found || now;
                },
            }
        }
    }
    assert(all.take(all.len() as int) =~= all);
    let at: usize = match head {
        Some(at) => at,
        None => return None,
    };
    let text: &[u8] = list[at].as_slice();
    if same_bytes(text, executable) {
        return Some(found);
    }
    assert(text@.skip(0) =~= text@);
    if !continues_with(text, 0, executable) {
        return None;
    }
    assert(text@.len() > executable@.len()) by {
        if text@.len() == executable@.len() {
            assert(text@ =~= executable@);
        }
    }
    if !space(text[executable.len()]) {
        return None;
    }
    let tail: Vec<u8> = part(text, executable.len(), text.len());
    assert(tail@ =~= text@.skip(executable@.len() as int));
    Some(rewritten_title_contains_switch(tail.as_slice(), switch) || found)
}

/// What a Brave process does.
#[derive(Clone, Copy, Debug, PartialEq, Eq, Structural)]
pub enum ProcessRole {
    /// The main process of the default profile.
    DefaultMain,
    /// A helper of a main process.
    Child,
    /// A process of another profile directory.
    CustomProfile,
}

/// What was seen of the command line of a process.
#[derive(Debug, PartialEq, Eq)]
pub enum CommandLineFact {
    /// The process is gone.
    Gone,
    /// It cannot be read.
    Unreadable,
    /// It was read.
    Read { bytes: Vec<u8> },
}

/// What a process does, as far as it is known.
#[derive(Clone, Copy, Debug, PartialEq, Eq, Structural)]
pub enum ProcessRoleInspection {
    Role { role: ProcessRole },
    Gone,
    Unsafe,
}

/// What a process does, by its command line.
pub open spec fn role_of(fact: CommandLineFact, executable: Seq<u8>) -> ProcessRoleInspection {
    match fact {
        CommandLineFact::Gone => ProcessRoleInspection::Gone,
        CommandLineFact::Unreadable => ProcessRoleInspection::Unsafe,
        CommandLineFact::Read { bytes } => match (
            command_line_has(bytes@, executable, encode_utf8("--user-data-dir"@)),
            command_line_has(bytes@, executable, encode_utf8("--type"@)),
        ) {
            (Some(true), _) => ProcessRoleInspection::Role { role: ProcessRole::CustomProfile },
            (Some(false), Some(true)) => ProcessRoleInspection::Role { role: ProcessRole::Child },
            (Some(false), Some(false)) => ProcessRoleInspection::Role {
                role: ProcessRole::DefaultMain,
            },
            _ => ProcessRoleInspection::Unsafe,
        },
    }
}

/// Decides what a process does.
pub fn inspect_process_role(fact: &CommandLineFact, executable: &[u8]) -> (result:
    ProcessRoleInspection)
    ensures
        result == role_of(*fact, executable@),
{
    match fact {
        CommandLineFact::Gone => ProcessRoleInspection::Gone,
        CommandLineFact::Unreadable => ProcessRoleInspection::Unsafe,
        CommandLineFact::Read { bytes } => {
            let custom: Option<bool> = command_line_contains_switch(
                bytes.as_slice(),
                executable,
                "--user-data-dir".as_bytes(),
            );
            let child: Option<bool> = command_line_contains_switch(
                bytes.as_slice(),
                executable,
                "--type".as_bytes(),
            );
            match (custom, child) {
                (Some(true), _) => ProcessRoleInspection::Role { role: ProcessRole::CustomProfile },
                (Some(false), Some(true)) => ProcessRoleInspection::Role {
                    role: ProcessRole::Child,
                },
                (Some(false), Some(false)) => ProcessRoleInspection::Role {
                    role: ProcessRole::DefaultMain,
                },
                _ => ProcessRoleInspection::Unsafe,
            }
        },
    }
}

/// The socket by which Brave keeps to one instance, as the kernel lists it.
#[derive(Debug, PartialEq, Eq)]
pub struct UnixSocketEntry {
    pub inode: u64,
    pub path: Vec<u8>,
}

/// What the kernel lists of a socket.
pub struct SocketView {
    pub inode: u64,
    pub path: Seq<u8>,
}

impl View for UnixSocketEntry {
    type V = SocketView;

    open spec fn view(&self) -> SocketView {
        SocketView { inode: self.inode, path: self.path@ }
    }
}

impl Clone for UnixSocketEntry {
    fn clone(&self) -> (copy: UnixSocketEntry)
        ensures
            copy@ == self@,
    {
        let path: Vec<u8> = part(self.path.as_slice(), 0, self.path.len());
        assert(path@ =~= self.path@);
        UnixSocketEntry { inode: self.inode, path }
    }
}

/// The socket that a file descriptor stands for.
pub open spec fn inode_in(target: Seq<u8>) -> Option<nat> {
    let prefix = encode_utf8("socket:["@);
    if prefix.is_prefix_of(target) && target.len() > prefix.len() && target.last() == 93 {
        unsigned_value(
            target.subrange(prefix.len() as int, target.len() - 1),
            10,
            u64::MAX as nat,
        )
    } else {
        None
    }
}

/// Reads what a file descriptor stands for.
pub fn parse_socket_inode(target: &[u8]) -> (inode: Option<u64>)
    ensures
        match inode {
            Some(inode) => inode_in(target@) == Some(inode as nat),
            None => inode_in(target@) is None,
        },
{
    let prefix: &[u8] = "socket:[".as_bytes();
    assert(target@.skip(0) =~= target@);
    if !continues_with(target, 0, prefix) || target.len() == prefix.len() || target[target.len()
        - 1] != 93 {
        return None;
    }
    let number: Vec<u8> = part(target, prefix.len(), target.len() - 1);
    parse_unsigned(number.as_slice(), 10, u64::MAX)
}

/// The first fields of a line, and what follows them.
pub open spec fn fields_of(line: Seq<u8>, count: nat) -> Option<(Seq<Seq<u8>>, Seq<u8>)>
    decreases count,
{
    if count == 0 {
        Some((Seq::empty(), line.skip(leading(line, true) as int)))
    } else {
        let rest = line.skip(leading(line, true) as int);
        let n = leading(rest, false);
        if n == 0 {
            None
        } else {
            match fields_of(rest.skip(n as int), (count - 1) as nat) {
                Some((fields, tail)) => Some((seq![rest.take(n as int)] + fields, tail)),
                None => None,
            }
        }
    }
}

fn split_unix_socket_line(line: &[u8]) -> (result: Option<(Vec<Vec<u8>>, Vec<u8>)>)
    ensures
        match result {
            Some((fields, tail)) => fields_of(line@, 7) == Some((byte_strings(fields@), tail@))
                && fields@.len() == 7 && tail@.len() > 0,
            None => match fields_of(line@, 7) {
                Some((fields, tail)) => tail.len() == 0,
                None => true,
            },
        },
{
    let mut fields: Vec<Vec<u8>> = Vec::new();
    let mut offset: usize = 0;
    let mut left: usize = 7;
    assert(line@.skip(0) =~= line@);
    assert(byte_strings(fields@) =~= Seq::<Seq<u8>>::empty());
    proof {
        if let Some((f, t)) = fields_of(line@, 7) {
            assert(byte_strings(fields@) + f =~= f);
        }
    }
    while left > 0
        invariant
            left <= 7,
            fields@.len() == 7 - left,
            offset <= line@.len(),
            fields_of(line@, 7) == match fields_of(line@.skip(offset as int), left as nat) {
                Some((rest, tail)) => Some((byte_strings(fields@) + rest, tail)),
                None => None,
            },
        decreases left,
    {
        let ghost here = line@.skip(offset as int);
        let start: usize = run_end(line, offset, true);
        let end: usize = run_end(line, start, false);
        let ghost rest = here.skip(leading(here, true) as int);
        assert(rest =~= line@.skip(start as int));
        if start == end {
            return None;
        }
        let field: Vec<u8> = part(line, start, end);
        let ghost done = byte_strings(fields@);
        fields.push(field);
        proof {
            assert(field@ =~= rest.take(end - start));
            assert(rest.skip(end - start) =~= line@.skip(end as int));
            assert(byte_strings(fields@) =~= done.push(field@));
            if let Some((f, t)) = fields_of(line@.skip(end as int), (left - 1) as nat) {
                assert(done + (seq![field@] + f) =~= done.push(field@) + f);
            }
        }
        offset = end;
        left = left - 1;
    }
    let start: usize = run_end(line, offset, true);
    let tail: Vec<u8> = part(line, start, line.len());
    proof {
        let here = line@.skip(offset as int);
        assert(here.skip(leading(here, true) as int) =~= line@.skip(start as int));
        assert(tail@ =~= line@.skip(start as int));
        assert(byte_strings(fields@) + Seq::<Seq<u8>>::empty() =~= byte_strings(fields@));
    }
    if tail.len() == 0 {
        return None;
    }
    Some((fields, tail))
}

/// A stream socket that listens, bound to a singleton socket of Brave, in the list of the kernel.
pub open spec fn socket_in() -> spec_fn(Seq<u8>) -> Option<SocketView> {
    |line: Seq<u8>|
        match fields_of(line, 7) {
            None => None,
            Some((fields, path)) => match (
                unsigned_value(fields[3], 16, u64::MAX as nat),
                unsigned_value(fields[4], 16, u64::MAX as nat),
                unsigned_value(fields[6], 10, u64::MAX as nat),
            ) {
                (Some(flags), Some(kind), Some(inode)) => if (flags / 65536) % 2 == 1 && kind
                    % 4294967296 == 1 && fields[5] == encode_utf8("01"@) && is_absolute(path)
                    && file_name(path) == Some(encode_utf8("SingletonSocket"@)) {
                    Some(SocketView { inode: inode as u64, path })
                } else {
                    None
                },
                _ => None,
            },
        }
}

proof fn singleton_name()
    ensures
        encode_utf8("SingletonSocket"@).len() > 2,
{
    reveal_strlit("SingletonSocket");
    let name = "SingletonSocket"@;
    assert(name.len() == 15);
    assert(vstd::utf8::is_ascii_chars(name));
    vstd::utf8::is_ascii_chars_encode_utf8(name);
}

fn is_singleton(path: &[u8]) -> (result: bool)
    ensures
        result == (is_absolute(path@) && file_name(path@) == Some(
            encode_utf8("SingletonSocket"@),
        )),
{
    let name: &[u8] = "SingletonSocket".as_bytes();
    proof {
        singleton_name();
        assert(seq![46u8].len() == 1 && seq![46u8, 46u8].len() == 2);
    }
    names_file(path, name)
}

fn read_socket(line: &[u8]) -> (entry: Option<UnixSocketEntry>)
    ensures
        match entry {
            Some(entry) => socket_in()(line@) == Some(entry@),
            None => socket_in()(line@) is None,
        },
{
    let (fields, path): (Vec<Vec<u8>>, Vec<u8>) = match split_unix_socket_line(line) {
        Some(result) => result,
        None => return None,
    };
    let ghost views = byte_strings(fields@);
    assert(views[3] == fields@[3]@ && views[4] == fields@[4]@ && views[5] == fields@[5]@ && views[6]
        == fields@[6]@);
    let flags: u64 = match parse_unsigned(fields[3].as_slice(), 16, u64::MAX) {
        Some(flags) => flags,
        None => return None,
    };
    let kind: u64 = match parse_unsigned(fields[4].as_slice(), 16, u64::MAX) {
        Some(kind) => kind,
        None => return None,
    };
    let inode: u64 = match parse_unsigned(fields[6].as_slice(), 10, u64::MAX) {
        Some(inode) => inode,
        None => return None,
    };
    if (flags / 65536) % 2 != 1 || kind % 4294967296 != 1 || !same_bytes(
        fields[5].as_slice(),
        "01".as_bytes(),
    ) || !is_singleton(path.as_slice()) {
        return None;
    }
    Some(UnixSocketEntry { inode, path })
}

/// Reads the list of the kernel. Other lines are passed over, whatever they hold.
pub fn parse_listening_singleton_sockets(content: &[u8]) -> (entries: Vec<UnixSocketEntry>)
    ensures
        crate::table::rows(entries@) == made_of(pieces(content@, 10), socket_in()),
{
    let list: Vec<Vec<u8>> = split(content, 10);
    let ghost all = byte_strings(list@);
    let mut entries: Vec<UnixSocketEntry> = Vec::new();
    assert(all.take(0) =~= Seq::<Seq<u8>>::empty());
    assert(crate::table::rows(entries@) =~= made_of(all.take(0), socket_in()));
    for i in 0..list.len()
        invariant
            all == byte_strings(list@),
            crate::table::rows(entries@) == made_of(all.take(i as int), socket_in()),
    {
        let ghost before = crate::table::rows(entries@);
        assert(all.take(i + 1).drop_last() =~= all.take(i as int));
        assert(all.take(i + 1).last() == list@[i as int]@);
        if let Some(entry) = read_socket(list[i].as_slice()) {
            entries.push(entry);
            assert(crate::table::rows(entries@) =~= before.push(entry@));
        }
    }
    assert(all.take(all.len() as int) =~= all);
    entries
}

/// What was seen of the place of a socket: its directory, and the socket itself.
#[derive(Clone, Copy, Debug, PartialEq, Eq, Structural)]
pub struct PlaceFacts {
    pub directory: Option<DirectoryPlace>,
    pub socket: Option<SocketPlace>,
}

/// What was seen of a directory, without following links.
#[derive(Clone, Copy, Debug, PartialEq, Eq, Structural)]
pub struct DirectoryPlace {
    pub is_directory: bool,
    pub uid: u32,
    pub mode: u32,
}

/// What was seen of a socket, without following links.
#[derive(Clone, Copy, Debug, PartialEq, Eq, Structural)]
pub struct SocketPlace {
    pub is_socket: bool,
    pub uid: u32,
}

/// Whether a socket is where nobody but the user can have put it.
pub open spec fn is_private(path: Seq<u8>, uid: u32, place: PlaceFacts) -> bool {
    &&& is_absolute(path)
    &&& file_name(path) == Some(encode_utf8("SingletonSocket"@))
    &&& place.directory matches Some(directory) && directory.is_directory && directory.uid == uid
        && directory.mode % 4096 == 448
    &&& place.socket matches Some(socket) && socket.is_socket && socket.uid == uid
}

/// Decides whether a socket is where nobody but the user can have put it.
pub fn validate_socket_path(path: &[u8], uid: u32, place: &PlaceFacts) -> (result: bool)
    ensures
        result == is_private(path@, uid, *place),
{
    if !is_singleton(path) {
        return false;
    }
    let directory: bool = match place.directory {
        Some(directory) => directory.is_directory && directory.uid == uid && directory.mode % 4096
            == 448,
        None => false,
    };
    let socket: bool = match place.socket {
        Some(socket) => socket.is_socket && socket.uid == uid,
        None => false,
    };
    directory && socket
}

/// What was seen of the sockets of a process: those that it has open, those that the kernel lists,
/// and the place of the one in question.
#[derive(Debug)]
pub struct BindingFacts {
    pub inodes: Option<Vec<u64>>,
    pub entries: Option<Vec<UnixSocketEntry>>,
    pub place: PlaceFacts,
}

/// A socket of the list that is the one of a target.
pub open spec fn is_bound(target: TargetView) -> spec_fn(SocketView) -> bool {
    |entry: SocketView|
        entry.inode == target.socket_inode && is_same_path(entry.path, target.socket_path)
}

/// Whether a target is bound to its socket: it has the socket open, the kernel lists it exactly
/// once, and it is in a private place.
pub open spec fn binding_holds(target: TargetView, facts: BindingFacts) -> bool {
    &&& facts.inodes matches Some(inodes) && inodes@.contains(target.socket_inode)
    &&& facts.entries matches Some(entries) && crate::table::rows(entries@).filter(
        is_bound(target),
    ).len() == 1
    &&& is_private(target.socket_path, target.uid, facts.place)
}

/// Decides whether a target is bound to its socket.
pub fn validate_socket_binding(target: &BraveTarget, facts: &BindingFacts) -> (result: bool)
    ensures
        result == binding_holds(target@, *facts),
{
    match &facts.inodes {
        Some(inodes) => {
            if !has_number(inodes, target.socket_inode) {
                return false;
            }
        },
        None => return false,
    }
    let entries: &Vec<UnixSocketEntry> = match &facts.entries {
        Some(entries) => entries,
        None => return false,
    };
    let ghost all = crate::table::rows(entries@);
    let mut count: usize = 0;
    assert(all.take(0).filter(is_bound(target@)).len() == 0) by {
        reveal(Seq::filter);
    }
    for i in 0..entries.len()
        invariant
            all == crate::table::rows(entries@),
            count <= i,
            count == all.take(i as int).filter(is_bound(target@)).len(),
    {
        proof {
            crate::table::filter_step(all, is_bound(target@), i as int);
        }
        if entries[i].inode == target.socket_inode && same_path(
            entries[i].path.as_slice(),
            target.socket_path.as_slice(),
        ) {
            count = count + 1;
        }
    }
    assert(all.take(all.len() as int) =~= all);
    count == 1 && validate_socket_path(target.socket_path.as_slice(), target.uid, &facts.place)
}

/// What was seen of a target just before it is used: the process, its command line, its sockets.
#[derive(Debug)]
pub struct TargetFacts {
    pub process: ProcessFacts,
    pub command_line: CommandLineFact,
    pub binding: BindingFacts,
}

/// Whether a target still is what it was found to be.
pub open spec fn target_holds(target: TargetView, facts: TargetFacts) -> bool {
    &&& inspection(facts.process, target.uid, target.executable) is Brave
    &&& role_of(facts.command_line, target.executable) == (ProcessRoleInspection::Role {
        role: ProcessRole::DefaultMain,
    })
    &&& binding_holds(target, facts.binding)
}

/// Decides whether a target still is what it was found to be.
pub fn validate_socket_target(target: &BraveTarget, facts: &TargetFacts) -> (result: bool)
    ensures
        result == target_holds(target@, *facts),
{
    let executable: &[u8] = target.executable.as_slice();
    let brave: bool = match inspect_brave_executable(&facts.process, target.uid, executable) {
        ProcessInspection::Brave => true,
        _ => false,
    };
    let main: bool = match inspect_process_role(&facts.command_line, executable) {
        ProcessRoleInspection::Role { role: ProcessRole::DefaultMain } => true,
        _ => false,
    };
    brave && main && validate_socket_binding(target, &facts.binding)
}

/// What was seen of a Brave process during the search: the sockets that it has open, whether it is
/// still there, its command line, and its sockets once more for each that it may own.
#[derive(Debug)]
pub struct BraveFacts {
    pub pid: i32,
    pub inodes: Option<Vec<u64>>,
    pub exists: bool,
    pub command_line: CommandLineFact,
    pub binding: BindingFacts,
}

/// Which socket a Brave process owns.
#[derive(Debug, PartialEq, Eq)]
pub enum SocketOwnership {
    Nothing,
    Target { target: BraveTarget },
    Unsafe,
}

/// Which socket a Brave process owns.
pub enum OwnershipView {
    Nothing,
    Target { target: TargetView },
    Unsafe,
}

impl View for SocketOwnership {
    type V = OwnershipView;

    open spec fn view(&self) -> OwnershipView {
        match self {
            SocketOwnership::Nothing => OwnershipView::Nothing,
            SocketOwnership::Target { target } => OwnershipView::Target { target: target@ },
            SocketOwnership::Unsafe => OwnershipView::Unsafe,
        }
    }
}

/// A socket that a process has open.
pub open spec fn is_open(inodes: Seq<u64>) -> spec_fn(SocketView) -> bool {
    |entry: SocketView| inodes.contains(entry.inode)
}

/// Whether two entries stand for the same socket.
pub open spec fn is_same_socket(left: SocketView, right: SocketView) -> bool {
    left.inode == right.inode && is_same_path(left.path, right.path)
}

/// Whether there are different sockets in a list.
pub open spec fn differ(list: Seq<SocketView>) -> bool {
    exists|i: int| 0 <= i < list.len() && !is_same_socket(#[trigger] list[i], list[0])
}

proof fn differ_push(list: Seq<SocketView>, entry: SocketView)
    ensures
        differ(list.push(entry)) <==> differ(list) || (list.len() > 0 && !is_same_socket(
            entry,
            list[0],
        )),
{
    let longer = list.push(entry);
    if differ(list) {
        let i = choose|i: int| 0 <= i < list.len() && !is_same_socket(#[trigger] list[i], list[0]);
        assert(!is_same_socket(longer[i], longer[0]));
    }
    if list.len() > 0 && !is_same_socket(entry, list[0]) {
        assert(!is_same_socket(longer[list.len() as int], longer[0]));
    }
    if differ(longer) {
        let i = choose|i: int|
            0 <= i < longer.len() && !is_same_socket(#[trigger] longer[i], longer[0]);
        if i < list.len() {
            assert(!is_same_socket(list[i], list[0]));
        }
    }
}

/// The target that a process and a socket make.
pub open spec fn target_of(
    pid: i32,
    uid: u32,
    executable: Seq<u8>,
    entry: SocketView,
) -> TargetView {
    TargetView { pid, uid, executable, socket_inode: entry.inode, socket_path: entry.path }
}

/// Which singleton socket a Brave process owns: the only one of the list that it has open, where it
/// is bound to it.
pub open spec fn ownership(
    facts: BraveFacts,
    uid: u32,
    executable: Seq<u8>,
    sockets: Seq<SocketView>,
) -> OwnershipView {
    match facts.inodes {
        None => if facts.exists {
            OwnershipView::Unsafe
        } else {
            OwnershipView::Nothing
        },
        Some(inodes) => {
            let open = sockets.filter(is_open(inodes@));
            if open.len() == 0 {
                OwnershipView::Nothing
            } else if differ(open) {
                OwnershipView::Unsafe
            } else if binding_holds(target_of(facts.pid, uid, executable, open[0]), facts.binding) {
                OwnershipView::Target { target: target_of(facts.pid, uid, executable, open[0]) }
            } else {
                OwnershipView::Unsafe
            }
        },
    }
}

/// The only singleton socket that a process has open, and whether there are different ones.
pub fn open_socket(inodes: &Vec<u64>, sockets: &Vec<UnixSocketEntry>) -> (result: (
    Option<UnixSocketEntry>,
    bool,
))
    ensures
        ({
            let open = crate::table::rows(sockets@).filter(is_open(inodes@));
            &&& match result.0 {
                Some(entry) => open.len() > 0 && entry@ == open[0],
                None => open.len() == 0,
            }
            &&& result.1 == differ(open)
        }),
{
    let ghost all = crate::table::rows(sockets@);
    let ghost property = is_open(inodes@);
    let mut chosen: Option<UnixSocketEntry> = None;
    let mut several: bool = false;
    assert(all.take(0).filter(property).len() == 0) by {
        reveal(Seq::filter);
    }
    for i in 0..sockets.len()
        invariant
            all == crate::table::rows(sockets@),
            property == is_open(inodes@),
            match chosen {
                Some(entry) => all.take(i as int).filter(property).len() > 0 && entry@ == all.take(
                    i as int,
                ).filter(property)[0],
                None => all.take(i as int).filter(property).len() == 0,
            },
            several == differ(all.take(i as int).filter(property)),
    {
        let ghost before = all.take(i as int).filter(property);
        proof {
            crate::table::filter_step(all, property, i as int);
        }
        if has_number(inodes, sockets[i].inode) {
            match &chosen {
                None => {
                    chosen = Some(sockets[i].clone());
                    proof {
                        differ_push(before, all[i as int]);
                    }
                },
                Some(entry) => {
                    let same: bool = sockets[i].inode == entry.inode && same_path(
                        sockets[i].path.as_slice(),
                        entry.path.as_slice(),
                    );
                    proof {
                        assert(same == is_same_socket(all[i as int], before[0]));
                        differ_push(before, all[i as int]);
                    }
                    several = several || !same;
                },
            }
        }
    }
    assert(all.take(all.len() as int) =~= all);
    (chosen, several)
}

fn derive_socket_target(
    facts: &BraveFacts,
    uid: u32,
    executable: &[u8],
    sockets: &Vec<UnixSocketEntry>,
) -> (result: SocketOwnership)
    ensures
        result@ == ownership(*facts, uid, executable@, crate::table::rows(sockets@)),
{
    let inodes: &Vec<u64> = match &facts.inodes {
        Some(inodes) => inodes,
        None => return if facts.exists {
            SocketOwnership::Unsafe
        } else {
            SocketOwnership::Nothing
        },
    };
    let (chosen, several): (Option<UnixSocketEntry>, bool) = open_socket(inodes, sockets);
    let entry: UnixSocketEntry = match chosen {
        Some(entry) => entry,
        None => return SocketOwnership::Nothing,
    };
    if several {
        return SocketOwnership::Unsafe;
    }
    let target = BraveTarget {
        pid: facts.pid,
        uid,
        executable: part(executable, 0, executable.len()),
        socket_inode: entry.inode,
        socket_path: entry.path,
    };
    assert(target@.executable =~= executable@);
    if validate_socket_binding(&target, &facts.binding) {
        SocketOwnership::Target { target }
    } else {
        SocketOwnership::Unsafe
    }
}

/// What a Brave process means for the search: nothing, a target, or that it is not safe.
pub open spec fn verdict(
    facts: BraveFacts,
    uid: u32,
    executable: Seq<u8>,
    sockets: Seq<SocketView>,
) -> OwnershipView {
    let owned = ownership(facts, uid, executable, sockets);
    match role_of(facts.command_line, executable) {
        ProcessRoleInspection::Gone => OwnershipView::Nothing,
        ProcessRoleInspection::Unsafe => OwnershipView::Unsafe,
        ProcessRoleInspection::Role { role } => match (role, owned) {
            (ProcessRole::DefaultMain, OwnershipView::Target { target }) => OwnershipView::Target {
                target,
            },
            (ProcessRole::DefaultMain, _) => OwnershipView::Unsafe,
            (_, OwnershipView::Unsafe) => OwnershipView::Unsafe,
            (ProcessRole::Child, OwnershipView::Target { target }) => OwnershipView::Unsafe,
            _ => OwnershipView::Nothing,
        },
    }
}

fn judge(
    facts: &BraveFacts,
    uid: u32,
    executable: &[u8],
    sockets: &Vec<UnixSocketEntry>,
) -> (result: SocketOwnership)
    ensures
        result@ == verdict(*facts, uid, executable@, crate::table::rows(sockets@)),
{
    let owned: SocketOwnership = derive_socket_target(facts, uid, executable, sockets);
    match inspect_process_role(&facts.command_line, executable) {
        ProcessRoleInspection::Gone => SocketOwnership::Nothing,
        ProcessRoleInspection::Unsafe => SocketOwnership::Unsafe,
        ProcessRoleInspection::Role { role } => match (role, owned) {
            (ProcessRole::DefaultMain, SocketOwnership::Target { target }) => {
                SocketOwnership::Target { target }
            },
            (ProcessRole::DefaultMain, _) => SocketOwnership::Unsafe,
            (_, SocketOwnership::Unsafe) => SocketOwnership::Unsafe,
            (ProcessRole::Child, SocketOwnership::Target { target }) => SocketOwnership::Unsafe,
            _ => SocketOwnership::Nothing,
        },
    }
}

/// The targets among Brave processes, unless one of them is not safe.
pub open spec fn targets_among(
    found: Seq<BraveFacts>,
    uid: u32,
    executable: Seq<u8>,
    sockets: Seq<SocketView>,
) -> Option<Seq<TargetView>>
    decreases found.len(),
{
    if found.len() == 0 {
        Some(Seq::empty())
    } else {
        match (
            targets_among(found.drop_last(), uid, executable, sockets),
            verdict(found.last(), uid, executable, sockets),
        ) {
            (Some(targets), OwnershipView::Nothing) => Some(targets),
            (Some(targets), OwnershipView::Target { target }) => Some(targets.push(target)),
            _ => None,
        }
    }
}

/// What a search comes to, with the Brave processes that were found and the sockets that the kernel
/// lists: one target, none, or that it is not safe to go by it.
pub open spec fn discovery(
    found: Seq<BraveFacts>,
    sockets: Option<Seq<SocketView>>,
    uid: u32,
    executable: Seq<u8>,
) -> DiscoveryView {
    if found.len() == 0 {
        DiscoveryView::Absent
    } else {
        match sockets {
            None => DiscoveryView::Unsafe,
            Some(sockets) => match targets_among(found, uid, executable, sockets) {
                None => DiscoveryView::Unsafe,
                Some(targets) => if targets.len() == 0 {
                    DiscoveryView::Absent
                } else if targets.len() == 1 {
                    DiscoveryView::Target { target: targets[0] }
                } else {
                    DiscoveryView::Unsafe
                },
            },
        }
    }
}

/// The sockets that the kernel lists, where the list can be read.
pub open spec fn sockets_view(sockets: Option<Vec<UnixSocketEntry>>) -> Option<Seq<SocketView>> {
    match sockets {
        Some(sockets) => Some(crate::table::rows(sockets@)),
        None => None,
    }
}

proof fn unsafe_spreads(
    found: Seq<BraveFacts>,
    uid: u32,
    executable: Seq<u8>,
    sockets: Seq<SocketView>,
    upto: int,
)
    requires
        0 <= upto <= found.len(),
        targets_among(found.take(upto), uid, executable, sockets) is None,
    ensures
        targets_among(found, uid, executable, sockets) is None,
    decreases found.len(),
{
    if upto == found.len() {
        assert(found.take(upto) =~= found);
    } else {
        assert(found.drop_last().take(upto) =~= found.take(upto));
        unsafe_spreads(found.drop_last(), uid, executable, sockets, upto);
    }
}

/// Decides what a search comes to.
pub fn discover_brave(
    found: &Vec<BraveFacts>,
    sockets: &Option<Vec<UnixSocketEntry>>,
    uid: u32,
    executable: &[u8],
) -> (result: BraveDiscovery)
    ensures
        result@ == discovery(found@, sockets_view(*sockets), uid, executable@),
{
    if found.len() == 0 {
        return BraveDiscovery::Absent;
    }
    let list: &Vec<UnixSocketEntry> = match sockets {
        Some(list) => list,
        None => return BraveDiscovery::Unsafe,
    };
    let ghost listed = crate::table::rows(list@);
    let mut targets: Vec<BraveTarget> = Vec::new();
    assert(found@.take(0) =~= Seq::<BraveFacts>::empty());
    assert(crate::table::rows(targets@) =~= Seq::<TargetView>::empty());
    for i in 0..found.len()
        invariant
            found@.len() > 0,
            listed == crate::table::rows(list@),
            sockets_view(*sockets) == Some(listed),
            targets_among(found@.take(i as int), uid, executable@, listed) == Some(
                crate::table::rows(targets@),
            ),
    {
        let ghost before = crate::table::rows(targets@);
        assert(found@.take(i + 1).drop_last() =~= found@.take(i as int));
        assert(found@.take(i + 1).last() == found@[i as int]);
        match judge(&found[i], uid, executable, list) {
            SocketOwnership::Nothing => {},
            SocketOwnership::Target { target } => {
                targets.push(target);
                assert(crate::table::rows(targets@) =~= before.push(target@));
            },
            SocketOwnership::Unsafe => {
                proof {
                    unsafe_spreads(found@, uid, executable@, listed, i as int + 1);
                }
                return BraveDiscovery::Unsafe;
            },
        }
    }
    assert(found@.take(found@.len() as int) =~= found@);
    if targets.len() == 0 {
        BraveDiscovery::Absent
    } else if targets.len() == 1 {
        let ghost all = crate::table::rows(targets@);
        let target: BraveTarget = targets.remove(0);
        assert(target@ == all[0]);
        BraveDiscovery::Target { target }
    } else {
        BraveDiscovery::Unsafe
    }
}

/// Whether one process of a search is a target, and all others mean nothing for it.
pub open spec fn sole_target(
    found: Seq<BraveFacts>,
    uid: u32,
    executable: Seq<u8>,
    sockets: Seq<SocketView>,
    i: int,
    target: TargetView,
) -> bool {
    &&& 0 <= i < found.len()
    &&& verdict(found[i], uid, executable, sockets) == (OwnershipView::Target { target })
    &&& forall|j: int|
        0 <= j < found.len() && j != i ==> verdict(#[trigger] found[j], uid, executable, sockets)
            == OwnershipView::Nothing
}

proof fn targets_come_from(
    found: Seq<BraveFacts>,
    uid: u32,
    executable: Seq<u8>,
    sockets: Seq<SocketView>,
)
    ensures
        targets_among(found, uid, executable, sockets) matches Some(targets) ==> {
            &&& targets.len() == 0 ==> forall|j: int|
                0 <= j < found.len() ==> verdict(#[trigger] found[j], uid, executable, sockets)
                    == OwnershipView::Nothing
            &&& targets.len() == 1 ==> exists|i: int|
                #[trigger] sole_target(found, uid, executable, sockets, i, targets[0])
        },
    decreases found.len(),
{
    if found.len() > 0 && targets_among(found, uid, executable, sockets) is Some {
        let before = found.drop_last();
        targets_come_from(before, uid, executable, sockets);
        let targets = targets_among(found, uid, executable, sockets)->0;
        let earlier = targets_among(before, uid, executable, sockets)->0;
        let last = found.len() - 1;
        assert forall|j: int| 0 <= j < last implies #[trigger] found[j] == before[j] by {}
        if targets.len() == 1 {
            if earlier.len() == 1 {
                let i = choose|i: int|
                    #[trigger] sole_target(before, uid, executable, sockets, i, earlier[0]);
                assert(sole_target(found, uid, executable, sockets, i, targets[0]));
            } else {
                assert(sole_target(found, uid, executable, sockets, last, targets[0]));
            }
        }
    }
}

/// Whether a process is the main one of the default profile, and bound to the socket of a target
/// that it is.
pub open spec fn is_main_and_bound(
    facts: BraveFacts,
    uid: u32,
    executable: Seq<u8>,
    target: TargetView,
) -> bool {
    &&& role_of(facts.command_line, executable) == (ProcessRoleInspection::Role {
        role: ProcessRole::DefaultMain,
    })
    &&& binding_holds(target, facts.binding)
    &&& target.pid == facts.pid
    &&& target.uid == uid
    &&& target.executable == executable
}

/// A search settles only on the main process of the default profile, only where that process is
/// bound to its socket, and only where no other process could be meant.
pub proof fn target_is_main_and_bound(
    found: Seq<BraveFacts>,
    sockets: Seq<SocketView>,
    uid: u32,
    executable: Seq<u8>,
    target: TargetView,
)
    requires
        discovery(found, Some(sockets), uid, executable) == (DiscoveryView::Target { target }),
    ensures
        exists|i: int|
            #[trigger] sole_target(found, uid, executable, sockets, i, target) && is_main_and_bound(
                found[i],
                uid,
                executable,
                target,
            ),
{
    targets_come_from(found, uid, executable, sockets);
    let i = choose|i: int| #[trigger] sole_target(found, uid, executable, sockets, i, target);
    assert(verdict(found[i], uid, executable, sockets) == (OwnershipView::Target { target }));
    assert(is_main_and_bound(found[i], uid, executable, target));
}

/// What follows from one process of the search that is not safe: the whole search is not.
pub proof fn one_unsafe_process_is_enough(
    found: Seq<BraveFacts>,
    sockets: Seq<SocketView>,
    uid: u32,
    executable: Seq<u8>,
    i: int,
)
    requires
        0 <= i < found.len(),
        verdict(found[i], uid, executable, sockets) is Unsafe,
    ensures
        discovery(found, Some(sockets), uid, executable) is Unsafe,
{
    assert(found.take(i + 1).last() == found[i]);
    unsafe_spreads(found, uid, executable, sockets, i + 1);
}

/// A directory of the process list, with what was seen of the process where it stands for one.
#[derive(Debug)]
pub struct ProcessSeen {
    pub name: Vec<u8>,
    pub facts: ProcessFacts,
}

/// The Brave processes in the process list, unless one of them is not safe, or an entry could not be
/// read.
pub open spec fn brave_among(
    seen: Seq<Option<ProcessSeen>>,
    uid: u32,
    executable: Seq<u8>,
) -> Option<Seq<nat>>
    decreases seen.len(),
{
    if seen.len() == 0 {
        Some(Seq::empty())
    } else {
        match (brave_among(seen.drop_last(), uid, executable), seen.last()) {
            (Some(pids), Some(process)) => match pid_named(process.name@) {
                None => Some(pids),
                Some(pid) => match inspection(process.facts, uid, executable) {
                    ProcessInspection::Brave => Some(pids.push(pid)),
                    ProcessInspection::NotBrave => Some(pids),
                    ProcessInspection::Unsafe => None,
                },
            },
            _ => None,
        }
    }
}

/// The numbers of processes.
pub open spec fn pids_view(pids: Seq<i32>) -> Seq<nat> {
    pids.map_values(|pid: i32| pid as nat)
}

proof fn unsafe_list_spreads(
    seen: Seq<Option<ProcessSeen>>,
    uid: u32,
    executable: Seq<u8>,
    upto: int,
)
    requires
        0 <= upto <= seen.len(),
        brave_among(seen.take(upto), uid, executable) is None,
    ensures
        brave_among(seen, uid, executable) is None,
    decreases seen.len(),
{
    if upto == seen.len() {
        assert(seen.take(upto) =~= seen);
    } else {
        assert(seen.drop_last().take(upto) =~= seen.take(upto));
        unsafe_list_spreads(seen.drop_last(), uid, executable, upto);
    }
}

/// Picks the Brave processes out of the process list.
pub fn brave_processes(
    seen: &Vec<Option<ProcessSeen>>,
    uid: u32,
    executable: &[u8],
) -> (pids: Option<Vec<i32>>)
    ensures
        match pids {
            Some(pids) => brave_among(seen@, uid, executable@) == Some(pids_view(pids@)),
            None => brave_among(seen@, uid, executable@) is None,
        },
{
    let mut pids: Vec<i32> = Vec::new();
    assert(seen@.take(0) =~= Seq::<Option<ProcessSeen>>::empty());
    assert(pids_view(pids@) =~= Seq::<nat>::empty());
    for i in 0..seen.len()
        invariant
            brave_among(seen@.take(i as int), uid, executable@) == Some(pids_view(pids@)),
    {
        let ghost before = pids_view(pids@);
        assert(seen@.take(i + 1).drop_last() =~= seen@.take(i as int));
        assert(seen@.take(i + 1).last() == seen@[i as int]);
        match &seen[i] {
            None => {
                proof {
                    unsafe_list_spreads(seen@, uid, executable@, i as int + 1);
                }
                return None;
            },
            Some(process) => {
                if let Some(pid) = parse_pid(process.name.as_slice()) {
                    match inspect_brave_executable(&process.facts, uid, executable) {
                        ProcessInspection::Brave => {
                            pids.push(pid);
                            assert(pids_view(pids@) =~= before.push(pid as nat));
                        },
                        ProcessInspection::NotBrave => {},
                        ProcessInspection::Unsafe => {
                            proof {
                                unsafe_list_spreads(seen@, uid, executable@, i as int + 1);
                            }
                            return None;
                        },
                    }
                }
            },
        }
    }
    assert(seen@.take(seen@.len() as int) =~= seen@);
    Some(pids)
}

/// The message that hands a link over: the working directory, the executable and the link, each
/// ended by a zero byte but the last.
pub open spec fn singleton_message(cwd: Seq<u8>, executable: Seq<u8>, url: Seq<char>) -> Seq<u8> {
    encode_utf8("START"@) + seq![0u8] + cwd + seq![0u8] + executable + seq![0u8] + encode_utf8(url)
}

/// Writes the message that hands a link over. There is none for a link that is not safe, for a path
/// with a zero byte, nor where it would be too long.
pub fn build_singleton_message(cwd: &[u8], executable: &[u8], url: &str) -> (message: Option<
    Vec<u8>,
>)
    ensures
        match message {
            Some(message) => is_safe(url@) && !cwd@.contains(0u8) && !executable@.contains(0u8)
                && message@ == singleton_message(cwd@, executable@, url@) && message@.len()
                < CHROMIUM_SINGLETON_LIMIT,
            None => !is_safe(url@) || cwd@.contains(0u8) || executable@.contains(0u8)
                || singleton_message(cwd@, executable@, url@).len() >= CHROMIUM_SINGLETON_LIMIT,
        },
{
    if !is_safe_browser_url(url) || has_byte(cwd, 0) || has_byte(executable, 0) {
        return None;
    }
    let mut message: Vec<u8> = Vec::new();
    message.extend_from_slice("START".as_bytes());
    message.push(0);
    message.extend_from_slice(cwd);
    message.push(0);
    message.extend_from_slice(executable);
    message.push(0);
    message.extend_from_slice(url.as_bytes());
    assert(message@ =~= singleton_message(cwd@, executable@, url@));
    if message.len() < CHROMIUM_SINGLETON_LIMIT {
        Some(message)
    } else {
        None
    }
}

/// The pieces of a message between zero bytes are its parts again: the link that Brave reads is the
/// one that was written.
pub proof fn message_reads_back(cwd: Seq<u8>, executable: Seq<u8>, url: Seq<char>)
    requires
        is_safe(url),
        !cwd.contains(0u8),
        !executable.contains(0u8),
    ensures
        pieces(singleton_message(cwd, executable, url), 0) == seq![
            encode_utf8("START"@),
            cwd,
            executable,
            encode_utf8(url),
        ],
{
    let start = encode_utf8("START"@);
    let link = encode_utf8(url);
    assert(!start.contains(0u8)) by {
        reveal_strlit("START");
        assert(vstd::utf8::is_ascii_chars("START"@));
        vstd::utf8::is_ascii_chars_encode_utf8("START"@);
        if start.contains(0u8) {
            let i = choose|i: int| 0 <= i < start.len() && start[i] == 0u8;
            assert("START"@[i] as u8 == start[i]);
        }
    }
    let third = executable + seq![0u8] + link;
    let second = cwd + seq![0u8] + third;
    assert(singleton_message(cwd, executable, url) =~= start + seq![0u8] + second);
    crate::bytes::pieces_first(start, second, 0);
    crate::bytes::pieces_first(cwd, third, 0);
    crate::bytes::pieces_first(executable, link, 0);
    crate::bytes::pieces_whole(link, 0);
    assert(seq![start] + (seq![cwd] + (seq![executable] + seq![link])) =~= seq![
        start,
        cwd,
        executable,
        link,
    ]);
}

/// How far handing a link over has come.
#[derive(Clone, Copy, Debug, PartialEq, Eq, Structural)]
pub enum HandoffStage {
    /// The target is to be looked at again.
    Validate,
    /// Its socket is to be connected to.
    Connect,
    /// The process at the other end is to be checked.
    Peer,
    /// The target is to be looked at once more.
    Revalidate,
    /// The message is to be sent.
    Send,
    /// The answer is to be read.
    Acknowledge,
    /// The link was handed over.
    Done,
    /// It was not.
    Failed,
}

/// Where a stage that succeeds leads to.
pub open spec fn stage_after(stage: HandoffStage) -> HandoffStage {
    match stage {
        HandoffStage::Validate => HandoffStage::Connect,
        HandoffStage::Connect => HandoffStage::Peer,
        HandoffStage::Peer => HandoffStage::Revalidate,
        HandoffStage::Revalidate => HandoffStage::Send,
        HandoffStage::Send => HandoffStage::Acknowledge,
        HandoffStage::Acknowledge => HandoffStage::Done,
        HandoffStage::Done => HandoffStage::Done,
        HandoffStage::Failed => HandoffStage::Failed,
    }
}

/// The stage that some outcomes lead to.
pub open spec fn stage_from(outcomes: Seq<bool>) -> HandoffStage
    decreases outcomes.len(),
{
    if outcomes.len() == 0 {
        HandoffStage::Validate
    } else {
        let stage = stage_from(outcomes.drop_last());
        if outcomes.last() {
            stage_after(stage)
        } else if stage is Done {
            HandoffStage::Done
        } else {
            HandoffStage::Failed
        }
    }
}

/// Nothing is sent before the target was looked at, connected to, checked, and looked at again, each
/// with success.
pub proof fn nothing_is_sent_unchecked(outcomes: Seq<bool>)
    requires
        stage_from(outcomes) is Send,
    ensures
        outcomes.len() == 4,
        outcomes[0] && outcomes[1] && outcomes[2] && outcomes[3],
{
    assert(outcomes.len() > 0);
    let a = outcomes.drop_last();
    assert(stage_from(a) is Revalidate);
    let b = a.drop_last();
    assert(stage_from(b) is Peer);
    let c = b.drop_last();
    assert(stage_from(c) is Connect);
    let d = c.drop_last();
    assert(stage_from(d) is Validate);
    assert(d.len() == 0);
    assert(outcomes[3] == outcomes.last() && outcomes[2] == a.last() && outcomes[1] == b.last()
        && outcomes[0] == c.last());
}

/// A link that is being handed over.
#[derive(Debug)]
pub struct Handoff {
    message: Vec<u8>,
    stage: HandoffStage,
}

impl Handoff {
    /// How far it has come.
    pub closed spec fn at(&self) -> HandoffStage {
        self.stage
    }

    /// The message that hands the link over.
    pub closed spec fn bytes(&self) -> Seq<u8> {
        self.message@
    }

    /// Begins to hand a link over to a target. The working directory is the root.
    pub fn begin(target: &BraveTarget, url: &str) -> (handoff: Option<Handoff>)
        ensures
            match handoff {
                Some(handoff) => handoff.at() is Validate && is_safe(url@)
                    && !target@.executable.contains(0u8) && handoff.bytes() == singleton_message(
                    seq![47u8],
                    target@.executable,
                    url@,
                ) && handoff.bytes().len() < CHROMIUM_SINGLETON_LIMIT,
                None => !is_safe(url@) || target@.executable.contains(0u8) || singleton_message(
                    seq![47u8],
                    target@.executable,
                    url@,
                ).len() >= CHROMIUM_SINGLETON_LIMIT,
            },
    {
        let mut root: Vec<u8> = Vec::new();
        root.push(47);
        assert(root@ =~= seq![47u8]);
        match build_singleton_message(root.as_slice(), target.executable.as_slice(), url) {
            Some(message) => Some(Handoff { message, stage: HandoffStage::Validate }),
            None => None,
        }
    }

    /// How far it has come.
    pub fn stage(&self) -> (stage: HandoffStage)
        ensures
            stage == self.at(),
    {
        self.stage
    }

    /// The message, when it is to be sent, and at no other time.
    pub fn message(&self) -> (message: Option<&Vec<u8>>)
        ensures
            match message {
                Some(message) => self.at() is Send && message@ == self.bytes(),
                None => !(self.at() is Send),
            },
    {
        match self.stage {
            HandoffStage::Send => Some(&self.message),
            _ => None,
        }
    }

    /// Notes how a stage went.
    pub fn proceed(&mut self, success: bool)
        ensures
            final(self).bytes() == old(self).bytes(),
            final(self).at() == if success {
                stage_after(old(self).at())
            } else if old(self).at() is Done {
                HandoffStage::Done
            } else {
                HandoffStage::Failed
            },
    {
        self.stage = match self.stage {
            HandoffStage::Done => HandoffStage::Done,
            stage => if !success {
                HandoffStage::Failed
            } else {
                match stage {
                    HandoffStage::Validate => HandoffStage::Connect,
                    HandoffStage::Connect => HandoffStage::Peer,
                    HandoffStage::Peer => HandoffStage::Revalidate,
                    HandoffStage::Revalidate => HandoffStage::Send,
                    HandoffStage::Send => HandoffStage::Acknowledge,
                    HandoffStage::Acknowledge => HandoffStage::Done,
                    other => other,
                }
            },
        };
    }
}

/// Whether the answer of Brave means that it took the link.
pub fn is_acknowledged(response: &[u8]) -> (result: bool)
    ensures
        result == (response@ == encode_utf8("ACK"@)),
{
    same_bytes(response, "ACK".as_bytes())
}

/// Whether the process at the other end of a socket is the target.
pub fn peer_matches(pid: i32, uid: u32, target: &BraveTarget) -> (result: bool)
    ensures
        result == (pid == target@.pid && uid == target@.uid),
{
    pid == target.pid && uid == target.uid
}

/// What is wrong with the path of a socket.
#[derive(Clone, Copy, Debug, PartialEq, Eq, Structural)]
pub enum AddressError {
    Invalid,
    TooLong,
}

/// What is wrong with the path of a socket, where an address holds only so many bytes.
pub open spec fn address_error_of(path: Seq<u8>, capacity: nat) -> Option<AddressError> {
    if path.len() == 0 || path.contains(0u8) {
        Some(AddressError::Invalid)
    } else if path.len() >= capacity {
        Some(AddressError::TooLong)
    } else {
        None
    }
}

/// Tests the path of a socket.
pub fn address_error(path: &[u8], capacity: usize) -> (error: Option<AddressError>)
    ensures
        error == address_error_of(path@, capacity as nat),
{
    if path.len() == 0 || has_byte(path, 0) {
        Some(AddressError::Invalid)
    } else if path.len() >= capacity {
        Some(AddressError::TooLong)
    } else {
        None
    }
}

/// What came of an attempt to connect.
#[derive(Clone, Copy, Debug, PartialEq, Eq, Structural)]
pub enum ConnectOutcome {
    Connected,
    InProgress,
    AlreadyInProgress,
    AlreadyConnected,
    Interrupted,
    /// The other end has too many waiting; nothing was queued.
    TryAgain,
    Failed,
}

/// What to do about an attempt to connect.
#[derive(Clone, Copy, Debug, PartialEq, Eq, Structural)]
pub enum ConnectStep {
    Connected,
    /// Wait until the connection is made, or not.
    Await,
    /// Try again at once.
    Retry,
    /// Try again a little later.
    RetryLater,
    TimedOut,
    Failed,
}

/// What to do about an attempt to connect.
pub open spec fn connect_step_of(outcome: ConnectOutcome, expired: bool) -> ConnectStep {
    match outcome {
        ConnectOutcome::Connected | ConnectOutcome::AlreadyConnected => ConnectStep::Connected,
        ConnectOutcome::InProgress | ConnectOutcome::AlreadyInProgress => ConnectStep::Await,
        ConnectOutcome::Interrupted => if expired {
            ConnectStep::TimedOut
        } else {
            ConnectStep::Retry
        },
        ConnectOutcome::TryAgain => if expired {
            ConnectStep::TimedOut
        } else {
            ConnectStep::RetryLater
        },
        ConnectOutcome::Failed => ConnectStep::Failed,
    }
}

/// Decides what to do about an attempt to connect.
pub fn connect_step(outcome: ConnectOutcome, expired: bool) -> (step: ConnectStep)
    ensures
        step == connect_step_of(outcome, expired),
{
    match outcome {
        ConnectOutcome::Connected | ConnectOutcome::AlreadyConnected => ConnectStep::Connected,
        ConnectOutcome::InProgress | ConnectOutcome::AlreadyInProgress => ConnectStep::Await,
        ConnectOutcome::Interrupted => if expired {
            ConnectStep::TimedOut
        } else {
            ConnectStep::Retry
        },
        ConnectOutcome::TryAgain => if expired {
            ConnectStep::TimedOut
        } else {
            ConnectStep::RetryLater
        },
        ConnectOutcome::Failed => ConnectStep::Failed,
    }
}

/// How long to wait for a connection, in milliseconds: at least one, unless the time is up.
pub open spec fn wait_milliseconds(remaining: nat) -> Option<int> {
    if remaining == 0 {
        None
    } else if remaining / 1000000 < 1 {
        Some(1)
    } else if remaining / 1000000 > i32::MAX {
        Some(i32::MAX as int)
    } else {
        Some((remaining / 1000000) as int)
    }
}

/// Turns the nanoseconds that remain into the time to wait.
pub fn poll_timeout(remaining: u128) -> (milliseconds: Option<i32>)
    ensures
        match milliseconds {
            Some(milliseconds) => wait_milliseconds(remaining as nat) == Some(milliseconds as int),
            None => wait_milliseconds(remaining as nat) is None,
        },
{
    if remaining == 0 {
        return None;
    }
    let whole: u128 = remaining / 1000000;
    if whole < 1 {
        Some(1)
    } else if whole > 2147483647 {
        Some(2147483647)
    } else {
        Some(whole as i32)
    }
}

/// What came of waiting for a connection.
#[derive(Clone, Copy, Debug, PartialEq, Eq, Structural)]
pub enum PollOutcome {
    TimedOut,
    Interrupted,
    Failed,
    /// Something happened, and whether it settles the connection.
    Ready { settled: bool },
}

/// What to do after waiting for a connection.
#[derive(Clone, Copy, Debug, PartialEq, Eq, Structural)]
pub enum PollStep {
    /// Find out how the connection was settled.
    Settle,
    /// Wait on.
    Retry,
    TimedOut,
    Failed,
}

/// Decides what to do after waiting for a connection.
pub fn poll_step(outcome: PollOutcome) -> (step: PollStep)
    ensures
        step == match outcome {
            PollOutcome::TimedOut => PollStep::TimedOut,
            PollOutcome::Interrupted => PollStep::Retry,
            PollOutcome::Failed => PollStep::Failed,
            PollOutcome::Ready { settled } => if settled {
                PollStep::Settle
            } else {
                PollStep::Failed
            },
        },
{
    match outcome {
        PollOutcome::TimedOut => PollStep::TimedOut,
        PollOutcome::Interrupted => PollStep::Retry,
        PollOutcome::Failed => PollStep::Failed,
        PollOutcome::Ready { settled } => if settled {
            PollStep::Settle
        } else {
            PollStep::Failed
        },
    }
}

} // verus!
