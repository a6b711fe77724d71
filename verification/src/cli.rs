//! The command line: what its words ask for, and how an answer of the daemon is shown.
use vstd::prelude::*;

use crate::error::{failure, CalendarError, ErrorView, Result};
use crate::json::{array_view, Json, JsonObject, JsonView};
use crate::link::pairs_view;
use crate::normalize::str_views;
use crate::table::{any, filter_rows, first, first_at, first_none, retain, rows};
use crate::text::{join, joined, optional_view, starts_with, text_eq, texts};
use crate::time::{are_days_at, is_offset, local_days, Timestamp};

verus! {

broadcast use crate::json::group_json;

/// A command: what the user writes, what it is called here, and what follows it.
#[derive(Debug)]
pub struct Command {
    pub name: String,
    pub internal: String,
    pub options: String,
}

/// What is known of a command.
pub struct CommandView {
    pub name: Seq<char>,
    pub internal: Seq<char>,
    pub options: Seq<char>,
}

impl View for Command {
    type V = CommandView;

    open spec fn view(&self) -> CommandView {
        CommandView { name: self.name@, internal: self.internal@, options: self.options@ }
    }
}

/// A command with its names.
pub open spec fn entry(
    name: Seq<char>,
    internal: Seq<char>,
    options: Seq<char>,
) -> CommandView {
    CommandView { name, internal, options }
}

/// All commands.
pub open spec fn command_table() -> Seq<CommandView> {
    let range = "[--start DATE] [--end DATE] [--account ID]"@;
    seq![
        entry("account list"@, "accounts"@, ""@),
        entry("account add"@, "add"@, "[--label LABEL]"@),
        entry("account reconnect"@, "reconnect"@, "ACCOUNT_ID"@),
        entry("account cancel"@, "cancel"@, ""@),
        entry("account remove"@, "remove"@, "ACCOUNT_ID"@),
        entry("event list"@, "events"@, range),
        entry("event open"@, "event-open"@, "ITEM_ID"@),
        entry("task list"@, "tasks"@, range),
        entry("task open"@, "task-open"@, "ITEM_ID"@),
        entry("agenda list"@, "list"@, range),
        entry("service status"@, "status"@, ""@),
        entry("service refresh"@, "refresh"@, "[--account ID]"@),
        entry("service run"@, "daemon"@, ""@),
    ]
}

fn make(name: &str, internal: &str, options: &str) -> (command: Command)
    ensures
        command@ == entry(name@, internal@, options@),
{
    Command { name: name.to_owned(), internal: internal.to_owned(), options: options.to_owned() }
}

/// Lists all commands.
pub fn commands() -> (list: Vec<Command>)
    ensures
        rows(list@) == command_table(),
{
    let range: &str = "[--start DATE] [--end DATE] [--account ID]";
    let mut list: Vec<Command> = Vec::new();
    list.push(make("account list", "accounts", ""));
    list.push(make("account add", "add", "[--label LABEL]"));
    list.push(make("account reconnect", "reconnect", "ACCOUNT_ID"));
    list.push(make("account cancel", "cancel", ""));
    list.push(make("account remove", "remove", "ACCOUNT_ID"));
    list.push(make("event list", "events", range));
    list.push(make("event open", "event-open", "ITEM_ID"));
    list.push(make("task list", "tasks", range));
    list.push(make("task open", "task-open", "ITEM_ID"));
    list.push(make("agenda list", "list", range));
    list.push(make("service status", "status", ""));
    list.push(make("service refresh", "refresh", "[--account ID]"));
    list.push(make("service run", "daemon", ""));
    assert(rows(list@) =~= command_table());
    list
}

/// The command with a name.
pub open spec fn named(name: Seq<char>) -> spec_fn(CommandView) -> bool {
    |command: CommandView| command.name == name
}

/// A command that begins with a word.
pub open spec fn in_namespace(word: Seq<char>) -> spec_fn(CommandView) -> bool {
    |command: CommandView| (word + " "@).is_prefix_of(command.name)
}

/// A command that help on some words shows: all of them, the one with that name, or those that
/// begin with them.
pub open spec fn shown_for(prefix: Seq<char>) -> spec_fn(CommandView) -> bool {
    |command: CommandView|
        prefix.len() == 0 || command.name == prefix || (prefix + " "@).is_prefix_of(command.name)
}

/// The line of help on a command.
pub open spec fn help_line(command: CommandView) -> Seq<char> {
    "  "@ + command.name + " "@ + command.options + "\n"@
}

/// The lines of help on commands.
pub open spec fn help_lines(list: Seq<CommandView>, prefix: Seq<char>) -> Seq<char>
    decreases list.len(),
{
    if list.len() == 0 {
        Seq::empty()
    } else {
        let before = help_lines(list.drop_last(), prefix);
        if shown_for(prefix)(list.last()) {
            before + help_line(list.last())
        } else {
            before
        }
    }
}

/// The help on some words.
pub open spec fn help_for(prefix: Seq<char>) -> Seq<char> {
    "Omarchy calendar backend\n\nCommands:\n"@ + help_lines(command_table(), prefix)
}

/// Writes the help on some words.
pub fn help(prefix: &str) -> (text: String)
    ensures
        text@ == help_for(prefix@),
{
    let list: Vec<Command> = commands();
    let ghost all = command_table();
    let title: &str = "Omarchy calendar backend\n\nCommands:\n";
    let mut text: String = title.to_owned();
    let start: String = prefix.to_owned().concat(" ");
    assert(all.take(0) =~= Seq::<CommandView>::empty());
    assert(title@ + Seq::<char>::empty() =~= title@);
    for i in 0..list.len()
        invariant
            all == command_table(),
            rows(list@) == all,
            start@ == prefix@ + " "@,
            text@ == title@ + help_lines(all.take(i as int), prefix@),
    {
        assert(all.take(i + 1).drop_last() =~= all.take(i as int));
        assert(all.take(i + 1).last() == list@[i as int]@);
        let command: &Command = &list[i];
        if prefix.is_empty() || text_eq(command.name.as_str(), prefix) || starts_with(
            command.name.as_str(),
            start.as_str(),
        ) {
            let line: String = "  ".to_owned().concat(command.name.as_str()).concat(" ").concat(
                command.options.as_str(),
            ).concat("\n");
            let ghost before = help_lines(all.take(i as int), prefix@);
            text = text.concat(line.as_str());
            assert(title@ + before + line@ =~= title@ + (before + line@));
        }
    }
    assert(all.take(all.len() as int) =~= all);
    text
}

/// The first words of a command line, as the name of a command.
pub open spec fn command_name(arguments: Seq<Seq<char>>) -> Seq<char> {
    if arguments.len() == 0 {
        joined(Seq::empty(), " "@)
    } else if arguments.len() == 1 {
        joined(seq![arguments[0]], " "@)
    } else {
        joined(seq![arguments[0], arguments[1]], " "@)
    }
}

/// Says that there is no such command.
pub open spec fn unknown_command(name: Seq<char>) -> ErrorView {
    failure(
        "invalid_command"@,
        "Unknown command: "@ + name + ". Use omarchy-calendar --help"@,
    )
}

/// What a command line is called here: the command, and the words that follow it.
pub open spec fn routed(arguments: Seq<Seq<char>>) -> std::result::Result<
    Seq<Seq<char>>,
    ErrorView,
> {
    match first(command_table(), named(command_name(arguments))) {
        Some(command) => Ok(seq![command.internal] + arguments.skip(2)),
        None => Err(unknown_command(command_name(arguments))),
    }
}

fn find_command(name: &str) -> (command: Option<Command>)
    ensures
        match command {
            Some(command) => first(command_table(), named(name@)) == Some(command@),
            None => first(command_table(), named(name@)) is None,
        },
{
    let list: Vec<Command> = commands();
    let ghost all = command_table();
    for i in 0..list.len()
        invariant
            all == command_table(),
            rows(list@) == all,
            forall|j: int| 0 <= j < i ==> !named(name@)(#[trigger] all[j]),
    {
        assert(all[i as int] == list@[i as int]@);
        if text_eq(list[i].name.as_str(), name) {
            proof {
                first_at(all, named(name@), i as int);
            }
            return Some(
                Command {
                    name: list[i].name.clone(),
                    internal: list[i].internal.clone(),
                    options: list[i].options.clone(),
                },
            );
        }
    }
    proof {
        first_none(all, named(name@));
    }
    None
}

fn is_namespace(word: &str) -> (result: bool)
    ensures
        result == any(command_table(), in_namespace(word@)),
{
    let list: Vec<Command> = commands();
    let ghost all = command_table();
    let start: String = word.to_owned().concat(" ");
    for i in 0..list.len()
        invariant
            all == command_table(),
            rows(list@) == all,
            start@ == word@ + " "@,
            forall|j: int| 0 <= j < i ==> !in_namespace(word@)(#[trigger] all[j]),
    {
        assert(all[i as int] == list@[i as int]@);
        if starts_with(list[i].name.as_str(), start.as_str()) {
            assert(in_namespace(word@)(all[i as int]));
            return true;
        }
    }
    false
}

fn name_of(arguments: &Vec<String>) -> (name: String)
    ensures
        name@ == command_name(texts(arguments@)),
{
    let mut head: Vec<String> = Vec::new();
    if arguments.len() > 0 {
        head.push(arguments[0].clone());
    }
    if arguments.len() > 1 {
        head.push(arguments[1].clone());
    }
    assert(texts(head@) =~= (if arguments@.len() == 0 {
        Seq::empty()
    } else if arguments@.len() == 1 {
        seq![arguments@[0]@]
    } else {
        seq![arguments@[0]@, arguments@[1]@]
    }));
    join(&head, " ")
}

/// Whether a command line can be routed: one word that is a whole command, with the space in it,
/// cannot.
pub open spec fn can_route(arguments: Seq<Seq<char>>) -> bool {
    arguments.len() == 1 ==> first(command_table(), named(arguments[0])) is None
}

/// Whether a command line can be routed.
pub fn routable(arguments: &Vec<String>) -> (result: bool)
    ensures
        result == can_route(texts(arguments@)),
{
    assert(texts(arguments@).len() == arguments@.len());
    if arguments.len() != 1 {
        return true;
    }
    assert(texts(arguments@)[0] == arguments@[0]@);
    find_command(arguments[0].as_str()).is_none()
}

/// Finds out what a command line is called here.
pub fn route(arguments: &Vec<String>) -> (result: Result<Vec<String>>)
    requires
        can_route(texts(arguments@)),
    ensures
        match result {
            Ok(words) => routed(texts(arguments@)) == Ok::<_, ErrorView>(texts(words@))
                && words@.len() > 0,
            Err(error) => routed(texts(arguments@)) == Err::<Seq<Seq<char>>, _>(error@),
        },
{
    let name: String = name_of(arguments);
    match find_command(name.as_str()) {
        None => Err(
            CalendarError::new(
                "invalid_command",
                "Unknown command: ".to_owned().concat(name.as_str()).concat(
                    ". Use omarchy-calendar --help",
                ).as_str(),
            ),
        ),
        Some(command) => {
            let ghost all = texts(arguments@);
            proof {
                assert(all.len() == arguments@.len());
                assert(all.len() == 1 ==> joined(seq![all[0]], " "@) == all[0]);
                if all.len() == 0 {
                    first_none(command_table(), named(name@));
                    names_differ();
                }
            }
            let mut words: Vec<String> = Vec::new();
            words.push(command.internal);
            let mut i: usize = 2;
            assert(texts(words@) =~= seq![command@.internal] + all.subrange(2, 2));
            while i < arguments.len()
                invariant
                    2 <= i <= arguments@.len(),
                    all == texts(arguments@),
                    texts(words@) == seq![command@.internal] + all.subrange(2, i as int),
                decreases arguments@.len() - i,
            {
                let ghost before = texts(words@);
                words.push(arguments[i].clone());
                assert(texts(words@) =~= before.push(all[i as int]));
                assert(seq![command@.internal] + all.subrange(2, i + 1) =~= before.push(
                    all[i as int],
                ));
                i = i + 1;
            }
            assert(all.subrange(2, all.len() as int) =~= all.skip(2));
            assert(texts(words@).len() == words@.len());
            Ok(words)
        },
    }
}

/// What follows a command: options with their values, and other words.
#[derive(Debug)]
pub struct ParsedTail {
    pub options: Vec<(String, String)>,
    pub positional: Vec<String>,
}

/// What follows a command.
#[verifier::ext_equal]
pub struct TailView {
    pub options: Seq<(Seq<char>, Seq<char>)>,
    pub positional: Seq<Seq<char>>,
}

impl View for ParsedTail {
    type V = TailView;

    open spec fn view(&self) -> TailView {
        TailView {
            options: pairs_view(self.options@),
            positional: texts(self.positional@),
        }
    }
}

/// Whether a word is an option.
pub open spec fn is_option(word: Seq<char>) -> bool {
    word.len() > 0 && word[0] == '-'
}

/// Says that a command line makes no sense.
pub open spec fn invalid_command(message: Seq<char>) -> ErrorView {
    failure("invalid_command"@, message)
}

/// What the words from some position on say, after those before it.
pub open spec fn tail_from(
    words: Seq<Seq<char>>,
    from: int,
    allowed: Seq<Seq<char>>,
    seen: TailView,
) -> std::result::Result<TailView, ErrorView>
    decreases words.len() - from,
{
    if from < 0 || from >= words.len() {
        Ok(seen)
    } else {
        let word = words[from];
        if !is_option(word) {
            tail_from(
                words,
                from + 1,
                allowed,
                TailView { positional: seen.positional.push(word), ..seen },
            )
        } else if !allowed.contains(word) {
            Err(invalid_command("Unrecognized argument: "@ + word))
        } else if from + 1 >= words.len() || is_option(words[from + 1]) {
            Err(invalid_command(word + " requires a value"@))
        } else {
            tail_from(
                words,
                from + 2,
                allowed,
                TailView { options: seen.options.push((word, words[from + 1])), ..seen },
            )
        }
    }
}

/// What follows a command.
pub open spec fn tail_of(words: Seq<Seq<char>>, allowed: Seq<Seq<char>>) -> std::result::Result<
    TailView,
    ErrorView,
> {
    tail_from(
        words,
        1,
        allowed,
        TailView { options: Seq::empty(), positional: Seq::empty() },
    )
}

fn looks_like_option(word: &str) -> (result: bool)
    ensures
        result == is_option(word@),
{
    let dash: bool = starts_with(word, "-");
    proof {
        reveal_strlit("-");
        assert("-"@.len() == 1 && "-"@[0] == '-');
        if dash {
            assert(word@.subrange(0, 1)[0] == word@[0]);
        } else if is_option(word@) {
            assert("-"@ =~= word@.subrange(0, 1));
        }
    }
    dash
}

fn is_allowed(allowed: &[&str], word: &str) -> (result: bool)
    ensures
        result == str_views(allowed@).contains(word@),
{
    let ghost all = str_views(allowed@);
    for i in 0..allowed.len()
        invariant
            all == str_views(allowed@),
            forall|j: int| 0 <= j < i ==> all[j] != word@,
    {
        assert(all[i as int] == allowed@[i as int]@);
        if text_eq(allowed[i], word) {
            return true;
        }
    }
    false
}

/// Reads what follows a command.
pub fn parse_tail(arguments: &Vec<String>, allowed: &[&str]) -> (tail: Result<ParsedTail>)
    ensures
        match tail {
            Ok(tail) => tail_of(texts(arguments@), str_views(allowed@)) == Ok::<
                _,
                ErrorView,
            >(tail@),
            Err(error) => tail_of(texts(arguments@), str_views(allowed@))
                == Err::<TailView, _>(error@),
        },
{
    let ghost words = texts(arguments@);
    let ghost names = str_views(allowed@);
    let mut tail = ParsedTail { options: Vec::new(), positional: Vec::new() };
    assert(tail@ =~= TailView { options: Seq::empty(), positional: Seq::empty() });
    let mut index: usize = 1;
    while index < arguments.len()
        invariant
            words == texts(arguments@),
            names == str_views(allowed@),
            index >= 1,
            tail_of(words, names) == tail_from(words, index as int, names, tail@),
        decreases arguments@.len() + 1 - index,
    {
        let word: &String = &arguments[index];
        let ghost seen = tail@;
        assert(words[index as int] == word@);
        if !looks_like_option(word.as_str()) {
            tail.positional.push(word.clone());
            assert(tail@ =~= TailView { positional: seen.positional.push(word@), ..seen });
            index = index + 1;
        } else {
            if !is_allowed(allowed, word.as_str()) {
                return Err(
                    CalendarError::new(
                        "invalid_command",
                        "Unrecognized argument: ".to_owned().concat(word.as_str()).as_str(),
                    ),
                );
            }
            if arguments.len() - index < 2 || looks_like_option(arguments[index + 1].as_str()) {
                assert(index + 1 < words.len() ==> words[index + 1] == arguments@[index + 1]@);
                return Err(
                    CalendarError::new(
                        "invalid_command",
                        word.clone().concat(" requires a value").as_str(),
                    ),
                );
            }
            let value: &String = &arguments[index + 1];
            assert(words[index + 1] == value@);
            tail.options.push((word.clone(), value.clone()));
            assert(tail@ =~= TailView { options: seen.options.push((word@, value@)), ..seen });
            index = index + 2;
        }
    }
    Ok(tail)
}

impl TailView {
    /// The value of an option: the last one that was given.
    pub open spec fn option(self, name: Seq<char>) -> Option<Seq<char>>
        decreases self.options.len(),
    {
        if self.options.len() == 0 {
            None
        } else if self.options.last().0 == name {
            Some(self.options.last().1)
        } else {
            (TailView { options: self.options.drop_last(), ..self }).option(name)
        }
    }
}

impl ParsedTail {
    /// The value of an option: the last one that was given.
    pub fn option(&self, name: &str) -> (value: Option<String>)
        ensures
            optional_view(value) == self@.option(name@),
    {
        let ghost all = self@.options;
        let mut n: usize = self.options.len();
        assert(all.take(n as int) =~= all);
        assert((TailView { options: all.take(n as int), ..self@ }) =~= self@);
        while n > 0
            invariant
                n <= self.options@.len(),
                all == self@.options,
                self@.option(name@) == (TailView {
                    options: all.take(n as int),
                    ..self@
                }).option(name@),
            decreases n,
        {
            let ghost upto = all.take(n as int);
            assert(upto.last() == all[n - 1]);
            assert(upto.drop_last() =~= all.take(n - 1));
            if text_eq(self.options[n - 1].0.as_str(), name) {
                return Some(self.options[n - 1].1.clone());
            }
            n = n - 1;
        }
        None
    }
}

/// Says how a command is to be written.
pub open spec fn usage_error(usage: Seq<char>) -> ErrorView {
    invalid_command("Usage: "@ + usage)
}

/// Tests how many words follow a command.
pub fn require_positionals(parsed: &ParsedTail, expected: usize, usage: &str) -> (result: Result<
    (),
>)
    ensures
        match result {
            Ok(_) => parsed@.positional.len() == expected,
            Err(error) => parsed@.positional.len() != expected && error@ == usage_error(usage@),
        },
{
    assert(parsed@.positional.len() == parsed.positional@.len());
    if parsed.positional.len() != expected {
        return Err(
            CalendarError::new("invalid_command", "Usage: ".to_owned().concat(usage).as_str()),
        );
    }
    Ok(())
}

/// The kind of item that a command lists, where it lists only one kind.
pub open spec fn kind_of(command: Seq<char>) -> Option<Seq<char>> {
    if command == "events"@ {
        Some("event"@)
    } else if command == "tasks"@ {
        Some("task"@)
    } else {
        None
    }
}

/// An item of some kind.
pub open spec fn of_kind(kind: Seq<char>) -> spec_fn(JsonView) -> bool {
    |item: JsonView| item.field_text("type"@) == Some(kind)
}

/// The items of an answer, with those of one kind only where they are a list; null where it has
/// none.
pub open spec fn items_of_kind(fields: Map<Seq<char>, JsonView>, kind: Seq<char>) -> JsonView {
    if fields.contains_key("items"@) {
        match fields["items"@] {
            JsonView::Array(items) => JsonView::Array(items.filter(of_kind(kind))),
            other => other,
        }
    } else {
        JsonView::Null
    }
}

/// The fields of an object; none where it is no object.
pub open spec fn fields_of(value: JsonView) -> Map<Seq<char>, JsonView> {
    match value {
        JsonView::Object(fields) => fields,
        _ => Map::empty(),
    }
}

/// An answer with the items that a command lists.
pub open spec fn filtered(value: JsonView, command: Seq<char>) -> JsonView {
    match kind_of(command) {
        Some(kind) => JsonView::Object(
            fields_of(value).insert("items"@, items_of_kind(fields_of(value), kind)),
        ),
        None => value,
    }
}

fn kept_items(items: &Vec<Json>, kind: &str) -> (kept: Vec<Json>)
    ensures
        array_view(kept@) == array_view(items@).filter(of_kind(kind@)),
{
    let mut kept: Vec<Json> = Vec::new();
    for i in 0..items.len()
        invariant
            kept@.len() == i,
            forall|j: int| 0 <= j < i ==> (#[trigger] kept@[j])@ == items@[j]@,
    {
        kept.push(items[i].clone());
    }
    assert(rows(kept@) =~= array_view(items@));
    let test = |item: &Json| -> (answer: bool)
        ensures
            answer == of_kind(kind@)(item@)
        {
            match item.get_text("type") {
                Some(text) => text_eq(text.as_str(), kind),
                None => false,
            }
        };
    retain(&mut kept, test, Ghost(of_kind(kind@)));
    assert(rows(kept@) =~= array_view(kept@));
    kept
}

/// Keeps the items that a command lists. An answer that is neither an object nor null has no items
/// to keep.
pub fn filter_items(result: &mut Json, command: &str)
    requires
        kind_of(command@) is Some ==> old(result)@ is Object || old(result)@ is Null,
    ensures
        final(result)@ == filtered(old(result)@, command@),
{
    let kind: &str = if text_eq(command, "events") {
        "event"
    } else if text_eq(command, "tasks") {
        "task"
    } else {
        return;
    };
    let mut fields: JsonObject = match result {
        Json::Object(object) => object.clone(),
        _ => JsonObject::new(),
    };
    let items: Json = match fields.get("items") {
        Some(Json::Array(items)) => Json::Array(kept_items(items, kind)),
        Some(other) => other.clone(),
        None => Json::Null,
    };
    fields.insert("items", items);
    *result = Json::Object(fields);
}

/// How an answer of the daemon is shown.
#[derive(Clone, Copy, Debug, PartialEq, Eq, Structural)]
pub enum Shown {
    /// As it is.
    Whole,
    /// Its accounts only.
    Accounts,
    /// With its events only.
    Events,
    /// With its tasks only.
    Tasks,
}

/// What is shown of an answer.
pub open spec fn presented(value: JsonView, shown: Shown) -> JsonView {
    match shown {
        Shown::Whole => value,
        Shown::Accounts => JsonView::Object(
            Map::empty().insert(
                "accounts"@,
                match value.field("accounts"@) {
                    Some(accounts) => accounts,
                    None => JsonView::Null,
                },
            ),
        ),
        Shown::Events => filtered(value, "events"@),
        Shown::Tasks => filtered(value, "tasks"@),
    }
}

/// Whether an answer has the shape that is needed to show it.
pub open spec fn can_present(value: JsonView, shown: Shown) -> bool {
    shown is Events || shown is Tasks ==> value is Object || value is Null
}

/// Whether an answer has the shape that is needed to show it.
pub fn presentable(value: &Json, shown: Shown) -> (result: bool)
    ensures
        result == can_present(value@, shown),
{
    match shown {
        Shown::Events | Shown::Tasks => match value {
            Json::Object(_) | Json::Null => true,
            _ => false,
        },
        _ => true,
    }
}

/// Chooses what is shown of an answer.
pub fn present(value: Json, shown: Shown) -> (result: Json)
    requires
        can_present(value@, shown),
    ensures
        result@ == presented(value@, shown),
{
    let mut result: Json = value;
    match shown {
        Shown::Whole => {},
        Shown::Accounts => {
            let accounts: Json = match result.get("accounts") {
                Some(accounts) => accounts.clone(),
                None => Json::Null,
            };
            result = Json::Object(JsonObject::new().with("accounts", accounts));
        },
        Shown::Events => {
            filter_items(&mut result, "events");
        },
        Shown::Tasks => {
            filter_items(&mut result, "tasks");
        },
    }
    result
}

/// The report of an error on the command line.
pub open spec fn reported(error: ErrorView) -> JsonView {
    JsonView::Object(
        Map::empty().insert("ok"@, JsonView::Bool(false)).insert(
            "error"@,
            JsonView::Object(
                Map::empty().insert("code"@, JsonView::Text(error.code)).insert(
                    "message"@,
                    JsonView::Text(error.message),
                ),
            ),
        ),
    )
}

/// What a command prints, and with which status it ends. Null is not printed.
pub fn output(result: &Result<Json>) -> (printed: (Option<String>, i32))
    ensures
        match *result {
            Ok(value) => printed.1 == 0 && optional_view(printed.0) == if value@ is Null {
                None
            } else {
                Some(crate::json::pretty_text(value@))
            },
            Err(error) => printed.1 == 1 && optional_view(printed.0) == Some(
                crate::json::compact_text(reported(error@)),
            ),
        },
{
    match result {
        Ok(Json::Null) => (None, 0),
        Ok(value) => (Some(value.to_pretty()), 0),
        Err(error) => {
            let detail: JsonObject = JsonObject::new().with(
                "code",
                Json::text(error.code.as_str()),
            ).with("message", Json::text(error.message.as_str()));
            let report: JsonObject = JsonObject::new().with("ok", Json::Bool(false)).with(
                "error",
                Json::Object(detail),
            );
            (Some(Json::Object(report).to_line()), 1)
        },
    }
}

/// What a command line asks for.
#[derive(Debug)]
pub enum Plan {
    /// The help on some words.
    Help { prefix: String },
    /// To be the daemon.
    Daemon,
    /// To ask the daemon, and to show its answer.
    Ask { method: String, params: Json, shown: Shown },
}

/// What a command line asks for.
pub enum PlanView {
    Help { prefix: Seq<char> },
    Daemon,
    Ask { method: Seq<char>, params: JsonView, shown: Shown },
}

impl View for Plan {
    type V = PlanView;

    open spec fn view(&self) -> PlanView {
        match *self {
            Plan::Help { prefix } => PlanView::Help { prefix: prefix@ },
            Plan::Daemon => PlanView::Daemon,
            Plan::Ask { method, params, shown } => PlanView::Ask {
                method: method@,
                params: params@,
                shown,
            },
        }
    }
}

/// To ask the daemon, with the fields of the parameters.
pub open spec fn asks(
    method: Seq<char>,
    fields: Map<Seq<char>, JsonView>,
    shown: Shown,
) -> PlanView {
    PlanView::Ask { method, params: JsonView::Object(fields), shown }
}

/// Whether a word asks for help.
pub open spec fn asks_help(word: Seq<char>) -> bool {
    word == "--help"@ || word == "-h"@
}

/// What follows a command, where it has the options and the number of words that it may have.
pub open spec fn fitting_tail(
    words: Seq<Seq<char>>,
    allowed: Seq<Seq<char>>,
    expected: nat,
    usage: Seq<char>,
) -> std::result::Result<TailView, ErrorView> {
    match tail_of(words, allowed) {
        Ok(tail) => if tail.positional.len() == expected {
            Ok(tail)
        } else {
            Err(usage_error(usage))
        },
        Err(error) => Err(error),
    }
}

/// The value of an option, or a fallback where it was not given.
pub open spec fn option_or(tail: TailView, name: Seq<char>, fallback: Seq<char>) -> JsonView {
    JsonView::Text(
        match tail.option(name) {
            Some(value) => value,
            None => fallback,
        },
    )
}

/// A field with the value of an option, where it was given.
pub open spec fn option_field(
    tail: TailView,
    name: Seq<char>,
    key: Seq<char>,
) -> Map<Seq<char>, JsonView> {
    match tail.option(name) {
        Some(value) => Map::empty().insert(key, JsonView::Text(value)),
        None => Map::empty(),
    }
}

/// The parameters of a request for an agenda.
pub open spec fn agenda_params(
    tail: TailView,
    today: Seq<char>,
    tomorrow: Seq<char>,
) -> Map<Seq<char>, JsonView> {
    Map::empty().insert("start"@, option_or(tail, "--start"@, today)).insert(
        "end"@,
        option_or(tail, "--end"@, tomorrow),
    ).insert("account"@, option_or(tail, "--account"@, "all"@))
}

/// How a command lists an agenda.
pub open spec fn listing(command: Seq<char>) -> Shown {
    if command == "events"@ {
        Shown::Events
    } else if command == "tasks"@ {
        Shown::Tasks
    } else {
        Shown::Whole
    }
}

/// The start of the identifiers of the items that a command opens.
pub open spec fn opened_prefix(command: Seq<char>) -> Seq<char> {
    if command == "event-open"@ {
        "event:"@
    } else {
        "task:"@
    }
}

/// Says that an identifier is not of the kind that a command opens.
pub open spec fn other_kind(prefix: Seq<char>) -> ErrorView {
    failure("invalid_params"@, "Expected "@ + prefix + " item ID"@)
}

/// What a command and the words that follow it ask for.
pub open spec fn asked(
    words: Seq<Seq<char>>,
    usage: Seq<char>,
    today: Seq<char>,
    tomorrow: Seq<char>,
) -> std::result::Result<PlanView, ErrorView> {
    let command = words[0];
    let none = Seq::<Seq<char>>::empty();
    if command == "daemon"@ {
        match fitting_tail(words, none, 0, usage) {
            Ok(_) => Ok(PlanView::Daemon),
            Err(error) => Err(error),
        }
    } else if command == "status"@ || command == "accounts"@ {
        let shown = if command == "accounts"@ {
            Shown::Accounts
        } else {
            Shown::Whole
        };
        match fitting_tail(words, none, 0, usage) {
            Ok(_) => Ok(asks("get_state"@, Map::empty(), shown)),
            Err(error) => Err(error),
        }
    } else if command == "list"@ || command == "events"@ || command == "tasks"@ {
        match fitting_tail(words, seq!["--start"@, "--end"@, "--account"@], 0, usage) {
            Ok(tail) => Ok(
                asks("get_agenda"@, agenda_params(tail, today, tomorrow), listing(command)),
            ),
            Err(error) => Err(error),
        }
    } else if command == "add"@ {
        match fitting_tail(words, seq!["--label"@], 0, usage) {
            Ok(tail) => Ok(
                asks("add_account"@, option_field(tail, "--label"@, "label"@), Shown::Whole),
            ),
            Err(error) => Err(error),
        }
    } else if command == "cancel"@ {
        match fitting_tail(words, none, 0, usage) {
            Ok(_) => Ok(asks("cancel_add_account"@, Map::empty(), Shown::Whole)),
            Err(error) => Err(error),
        }
    } else if command == "reconnect"@ || command == "remove"@ {
        let method = if command == "reconnect"@ {
            "reconnect_account"@
        } else {
            "remove_account"@
        };
        match fitting_tail(words, none, 1, usage) {
            Ok(tail) => Ok(
                asks(
                    method,
                    Map::empty().insert("accountId"@, JsonView::Text(tail.positional[0])),
                    Shown::Whole,
                ),
            ),
            Err(error) => Err(error),
        }
    } else if command == "refresh"@ {
        match fitting_tail(words, seq!["--account"@], 0, usage) {
            Ok(tail) => Ok(
                asks("refresh"@, option_field(tail, "--account"@, "accountId"@), Shown::Whole),
            ),
            Err(error) => Err(error),
        }
    } else if command == "event-open"@ || command == "task-open"@ {
        match fitting_tail(words, none, 1, usage) {
            Ok(tail) => if opened_prefix(command).is_prefix_of(tail.positional[0]) {
                Ok(
                    asks(
                        "open_item"@,
                        Map::empty().insert("itemId"@, JsonView::Text(tail.positional[0])),
                        Shown::Whole,
                    ),
                )
            } else {
                Err(other_kind(opened_prefix(command)))
            },
            Err(error) => Err(error),
        }
    } else {
        Err(invalid_command("Unknown command: "@ + command))
    }
}

/// How a command is to be written.
pub open spec fn usage_of(arguments: Seq<Seq<char>>) -> Seq<char> {
    let public = command_name(arguments);
    "omarchy-calendar "@ + public + " "@ + match first(command_table(), named(public)) {
        Some(command) => command.options,
        None => ""@,
    }
}

/// Whether some word after the first asks for help.
pub open spec fn help_follows(words: Seq<Seq<char>>) -> bool {
    exists|i: int| 1 <= i < words.len() && asks_help(#[trigger] words[i])
}

/// What a command line asks for.
pub open spec fn planned(
    arguments: Seq<Seq<char>>,
    today: Seq<char>,
    tomorrow: Seq<char>,
) -> std::result::Result<PlanView, ErrorView> {
    if arguments.len() == 0 || arguments[0] == "help"@ || asks_help(arguments[0]) {
        Ok(PlanView::Help { prefix: ""@ })
    } else if (arguments.len() == 1 || (arguments.len() == 2 && asks_help(arguments[1]))) && any(
        command_table(),
        in_namespace(arguments[0]),
    ) {
        Ok(PlanView::Help { prefix: arguments[0] })
    } else {
        match routed(arguments) {
            Ok(words) => if help_follows(words) {
                Ok(PlanView::Help { prefix: command_name(arguments) })
            } else {
                asked(words, usage_of(arguments), today, tomorrow)
            },
            Err(error) => Err(error),
        }
    }
}

fn read_tail(words: &Vec<String>, allowed: &[&str], expected: usize, usage: &str) -> (tail: Result<
    ParsedTail,
>)
    ensures
        match tail {
            Ok(tail) => fitting_tail(
                texts(words@),
                str_views(allowed@),
                expected as nat,
                usage@,
            ) == Ok::<_, ErrorView>(tail@),
            Err(error) => fitting_tail(
                texts(words@),
                str_views(allowed@),
                expected as nat,
                usage@,
            ) == Err::<TailView, _>(error@),
        },
{
    match parse_tail(words, allowed) {
        Ok(tail) => match require_positionals(&tail, expected, usage) {
            Ok(_) => Ok(tail),
            Err(error) => Err(error),
        },
        Err(error) => Err(error),
    }
}

fn read_bare(words: &Vec<String>, expected: usize, usage: &str) -> (tail: Result<ParsedTail>)
    ensures
        match tail {
            Ok(tail) => fitting_tail(
                texts(words@),
                Seq::empty(),
                expected as nat,
                usage@,
            ) == Ok::<_, ErrorView>(tail@),
            Err(error) => fitting_tail(
                texts(words@),
                Seq::empty(),
                expected as nat,
                usage@,
            ) == Err::<TailView, _>(error@),
        },
{
    let allowed: [&str; 0] = [];
    assert(str_views(allowed@) =~= Seq::<Seq<char>>::empty());
    read_tail(words, &allowed, expected, usage)
}

fn ask(method: &str, params: JsonObject, shown: Shown) -> (plan: Plan)
    ensures
        plan@ == asks(method@, params@, shown),
{
    Plan::Ask { method: method.to_owned(), params: Json::Object(params), shown }
}

fn value_or(tail: &ParsedTail, name: &str, fallback: &str) -> (value: Json)
    ensures
        value@ == option_or(tail@, name@, fallback@),
{
    match tail.option(name) {
        Some(value) => Json::Text(value),
        None => Json::text(fallback),
    }
}

fn value_field(tail: &ParsedTail, name: &str, key: &str) -> (fields: JsonObject)
    ensures
        fields@ == option_field(tail@, name@, key@),
{
    match tail.option(name) {
        Some(value) => JsonObject::new().with(key, Json::Text(value)),
        None => JsonObject::new(),
    }
}

fn is_help(word: &str) -> (result: bool)
    ensures
        result == asks_help(word@),
{
    text_eq(word, "--help") || text_eq(word, "-h")
}

fn wants_help(words: &Vec<String>) -> (result: bool)
    ensures
        result == help_follows(texts(words@)),
{
    let ghost all = texts(words@);
    let mut i: usize = 1;
    while i < words.len()
        invariant
            i >= 1,
            all == texts(words@),
            forall|j: int| 1 <= j < i && j < all.len() ==> !asks_help(#[trigger] all[j]),
        decreases words@.len() + 1 - i,
    {
        assert(all[i as int] == words@[i as int]@);
        if is_help(words[i].as_str()) {
            return true;
        }
        i = i + 1;
    }
    assert(all.len() == words@.len());
    false
}

fn plan_listing(
    words: &Vec<String>,
    command: &str,
    usage: &str,
    today: &str,
    tomorrow: &str,
) -> (plan: Result<Plan>)
    requires
        words@.len() > 0,
        command@ == words@[0]@,
        command@ == "list"@ || command@ == "events"@ || command@ == "tasks"@,
    ensures
        match fitting_tail(
            texts(words@),
            seq!["--start"@, "--end"@, "--account"@],
            0,
            usage@,
        ) {
            Ok(tail) => plan matches Ok(plan) && plan@ == asks(
                "get_agenda"@,
                agenda_params(tail, today@, tomorrow@),
                listing(command@),
            ),
            Err(error) => plan matches Err(found) && found@ == error,
        },
{
    let allowed: [&str; 3] = ["--start", "--end", "--account"];
    assert(str_views(allowed@) =~= seq!["--start"@, "--end"@, "--account"@]);
    match read_tail(words, &allowed, 0, usage) {
        Ok(tail) => {
            let params: JsonObject = JsonObject::new().with(
                "start",
                value_or(&tail, "--start", today),
            ).with("end", value_or(&tail, "--end", tomorrow)).with(
                "account",
                value_or(&tail, "--account", "all"),
            );
            let shown: Shown = if text_eq(command, "events") {
                Shown::Events
            } else if text_eq(command, "tasks") {
                Shown::Tasks
            } else {
                Shown::Whole
            };
            Ok(ask("get_agenda", params, shown))
        },
        Err(error) => Err(error),
    }
}

fn plan_opening(words: &Vec<String>, command: &str, usage: &str) -> (plan: Result<Plan>)
    ensures
        match fitting_tail(texts(words@), Seq::empty(), 1, usage@) {
            Ok(tail) => if opened_prefix(command@).is_prefix_of(tail.positional[0]) {
                plan matches Ok(plan) && plan@ == asks(
                    "open_item"@,
                    Map::empty().insert("itemId"@, JsonView::Text(tail.positional[0])),
                    Shown::Whole,
                )
            } else {
                plan matches Err(found) && found@ == other_kind(opened_prefix(command@))
            },
            Err(error) => plan matches Err(found) && found@ == error,
        },
{
    match read_bare(words, 1, usage) {
        Ok(tail) => {
            assert(tail@.positional.len() == tail.positional@.len());
            let expected: &str = if text_eq(command, "event-open") {
                "event:"
            } else {
                "task:"
            };
            if !starts_with(tail.positional[0].as_str(), expected) {
                return Err(
                    CalendarError::new(
                        "invalid_params",
                        "Expected ".to_owned().concat(expected).concat(" item ID").as_str(),
                    ),
                );
            }
            let item: Json = Json::text(tail.positional[0].as_str());
            Ok(ask("open_item", JsonObject::new().with("itemId", item), Shown::Whole))
        },
        Err(error) => Err(error),
    }
}

fn plan_account(words: &Vec<String>, method: &str, usage: &str) -> (plan: Result<Plan>)
    ensures
        match fitting_tail(texts(words@), Seq::empty(), 1, usage@) {
            Ok(tail) => plan matches Ok(plan) && plan@ == asks(
                method@,
                Map::empty().insert("accountId"@, JsonView::Text(tail.positional[0])),
                Shown::Whole,
            ),
            Err(error) => plan matches Err(found) && found@ == error,
        },
{
    match read_bare(words, 1, usage) {
        Ok(tail) => {
            assert(tail@.positional.len() == tail.positional@.len());
            let account: Json = Json::text(tail.positional[0].as_str());
            Ok(ask(method, JsonObject::new().with("accountId", account), Shown::Whole))
        },
        Err(error) => Err(error),
    }
}

fn plan_plain(words: &Vec<String>, method: &str, usage: &str, shown: Shown) -> (plan: Result<Plan>)
    ensures
        match fitting_tail(texts(words@), Seq::empty(), 0, usage@) {
            Ok(_) => plan matches Ok(plan) && plan@ == asks(method@, Map::empty(), shown),
            Err(error) => plan matches Err(found) && found@ == error,
        },
{
    match read_bare(words, 0, usage) {
        Ok(_) => Ok(ask(method, JsonObject::new(), shown)),
        Err(error) => Err(error),
    }
}

fn plan_with_option(
    words: &Vec<String>,
    method: &str,
    name: &str,
    key: &str,
    usage: &str,
) -> (plan: Result<Plan>)
    ensures
        match fitting_tail(texts(words@), seq![name@], 0, usage@) {
            Ok(tail) => plan matches Ok(plan) && plan@ == asks(
                method@,
                option_field(tail, name@, key@),
                Shown::Whole,
            ),
            Err(error) => plan matches Err(found) && found@ == error,
        },
{
    let allowed: [&str; 1] = [name];
    assert(str_views(allowed@) =~= seq![name@]);
    match read_tail(words, &allowed, 0, usage) {
        Ok(tail) => Ok(ask(method, value_field(&tail, name, key), Shown::Whole)),
        Err(error) => Err(error),
    }
}

fn plan_words(words: &Vec<String>, usage: &str, today: &str, tomorrow: &str) -> (plan: Result<Plan>)
    requires
        words@.len() > 0,
    ensures
        match plan {
            Ok(plan) => asked(texts(words@), usage@, today@, tomorrow@) == Ok::<_, ErrorView>(
                plan@,
            ),
            Err(error) => asked(texts(words@), usage@, today@, tomorrow@) == Err::<PlanView, _>(
                error@,
            ),
        },
{
    let command: &str = words[0].as_str();
    assert(texts(words@)[0] == command@);
    if text_eq(command, "daemon") {
        match read_bare(words, 0, usage) {
            Ok(_) => Ok(Plan::Daemon),
            Err(error) => Err(error),
        }
    } else if text_eq(command, "accounts") {
        plan_plain(words, "get_state", usage, Shown::Accounts)
    } else if text_eq(command, "status") {
        plan_plain(words, "get_state", usage, Shown::Whole)
    } else if text_eq(command, "list") || text_eq(command, "events") || text_eq(command, "tasks") {
        plan_listing(words, command, usage, today, tomorrow)
    } else if text_eq(command, "add") {
        plan_with_option(words, "add_account", "--label", "label", usage)
    } else if text_eq(command, "cancel") {
        plan_plain(words, "cancel_add_account", usage, Shown::Whole)
    } else if text_eq(command, "reconnect") {
        plan_account(words, "reconnect_account", usage)
    } else if text_eq(command, "remove") {
        plan_account(words, "remove_account", usage)
    } else if text_eq(command, "refresh") {
        plan_with_option(words, "refresh", "--account", "accountId", usage)
    } else if text_eq(command, "event-open") || text_eq(command, "task-open") {
        plan_opening(words, command, usage)
    } else {
        Err(
            CalendarError::new(
                "invalid_command",
                "Unknown command: ".to_owned().concat(command).as_str(),
            ),
        )
    }
}

/// Finds out what a command line asks for, given the dates of today and tomorrow.
pub fn plan(arguments: &Vec<String>, today: &str, tomorrow: &str) -> (plan: Result<Plan>)
    requires
        can_route(texts(arguments@)),
    ensures
        match plan {
            Ok(plan) => planned(texts(arguments@), today@, tomorrow@) == Ok::<_, ErrorView>(plan@),
            Err(error) => planned(texts(arguments@), today@, tomorrow@) == Err::<PlanView, _>(
                error@,
            ),
        },
{
    let ghost all = texts(arguments@);
    assert(all.len() == arguments@.len());
    assert(forall|i: int| 0 <= i < all.len() ==> #[trigger] all[i] == arguments@[i]@);
    if arguments.len() == 0 || text_eq(arguments[0].as_str(), "help") || is_help(
        arguments[0].as_str(),
    ) {
        return Ok(Plan::Help { prefix: "".to_owned() });
    }
    if (arguments.len() == 1 || (arguments.len() == 2 && is_help(arguments[1].as_str())))
        && is_namespace(arguments[0].as_str()) {
        return Ok(Plan::Help { prefix: arguments[0].clone() });
    }
    let words: Vec<String> = match route(arguments) {
        Ok(words) => words,
        Err(error) => {
            return Err(error);
        },
    };
    let public: String = name_of(arguments);
    if wants_help(&words) {
        return Ok(Plan::Help { prefix: public });
    }
    let options: String = match find_command(public.as_str()) {
        Some(command) => command.options,
        None => "".to_owned(),
    };
    let usage: String = "omarchy-calendar ".to_owned().concat(public.as_str()).concat(" ").concat(
        options.as_str(),
    );
    plan_words(&words, usage.as_str(), today, tomorrow)
}

/// Finds out what a command line asks for today.
pub fn read_command(arguments: &Vec<String>) -> (result: Result<Plan>)
    requires
        can_route(texts(arguments@)),
    ensures
        exists|today: Seq<char>, tomorrow: Seq<char>, now: Timestamp, offset: int|
            {
                &&& now.is_representable() && now.seconds >= 0 && is_offset(offset)
                &&& #[trigger] are_days_at(today, tomorrow, now, offset)
                &&& match result {
                    Ok(plan) => planned(texts(arguments@), today, tomorrow) == Ok::<_, ErrorView>(
                        plan@,
                    ),
                    Err(error) => planned(texts(arguments@), today, tomorrow) == Err::<PlanView, _>(
                        error@,
                    ),
                }
            },
{
    let days: (String, String) = local_days();
    plan(arguments, days.0.as_str(), days.1.as_str())
}

proof fn names_differ()
    ensures
        forall|i: int, j: int|
            0 <= i < j < command_table().len() ==> (#[trigger] command_table()[i]).name != (
            #[trigger] command_table()[j]).name,
        forall|i: int|
            0 <= i < command_table().len() ==> (#[trigger] command_table()[i]).name.len() > 0,
        command_table().len() == 13,
{
    reveal_strlit("account list");
    reveal_strlit("account add");
    reveal_strlit("account reconnect");
    reveal_strlit("account cancel");
    reveal_strlit("account remove");
    reveal_strlit("event list");
    reveal_strlit("event open");
    reveal_strlit("task list");
    reveal_strlit("task open");
    reveal_strlit("agenda list");
    reveal_strlit("service status");
    reveal_strlit("service refresh");
    reveal_strlit("service run");
    let all = command_table();
    assert(all[0].name.len() == 12);
    assert(all[1].name.len() == 11);
    assert(all[2].name.len() == 17);
    assert(all[3].name.len() == 14);
    assert(all[4].name.len() == 14);
    assert(all[5].name.len() == 10);
    assert(all[6].name.len() == 10);
    assert(all[7].name.len() == 9);
    assert(all[8].name.len() == 9);
    assert(all[9].name.len() == 11);
    assert(all[10].name.len() == 14);
    assert(all[11].name.len() == 15);
    assert(all[12].name.len() == 11);
    assert("account add"@[1] == 'c' && "agenda list"@[1] == 'g' && "service run"@[1] == 'e');
    assert("account cancel"@[8] == 'c' && "account remove"@[8] == 'r' && "service status"@[8]
        == 's');
    assert("event list"@[6] == 'l' && "event open"@[6] == 'o');
    assert("task list"@[5] == 'l' && "task open"@[5] == 'o');
}

/// Every command leads to the place that is its own, with the words that follow it, and nothing
/// else leads anywhere.
pub proof fn commands_do_not_cross(arguments: Seq<Seq<char>>)
    ensures
        forall|i: int|
            0 <= i < command_table().len() && (#[trigger] command_table()[i]).name == command_name(
                arguments,
            ) ==> routed(arguments) == Ok::<_, ErrorView>(
                seq![command_table()[i].internal] + arguments.skip(2),
            ),
        (forall|i: int|
            0 <= i < command_table().len() ==> (#[trigger] command_table()[i]).name != command_name(
                arguments,
            )) ==> routed(arguments) == Err::<Seq<Seq<char>>, _>(
            unknown_command(command_name(arguments)),
        ),
{
    let all = command_table();
    let name = command_name(arguments);
    names_differ();
    assert forall|i: int| 0 <= i < all.len() && (#[trigger] all[i]).name == name implies routed(
        arguments,
    ) == Ok::<_, ErrorView>(seq![all[i].internal] + arguments.skip(2)) by {
        assert forall|j: int| 0 <= j < i implies !named(name)(#[trigger] all[j]) by {
            assert(all[j].name != all[i].name);
        }
        first_at(all, named(name), i);
    }
    if forall|i: int| 0 <= i < all.len() ==> (#[trigger] all[i]).name != name {
        first_none(all, named(name));
    }
}

/// The lists of events and of tasks keep everything else of an answer; of its items, they hold
/// exactly those of their kind.
pub proof fn typed_lists_keep_the_rest(fields: Map<Seq<char>, JsonView>, command: Seq<char>)
    ensures
        forall|key: Seq<char>|
            key != "items"@ && #[trigger] fields.contains_key(key) ==> filtered(
                JsonView::Object(fields),
                command,
            ).field(key) == Some(fields[key]),
        kind_of(command) is None ==> filtered(JsonView::Object(fields), command)
            == JsonView::Object(fields),
        kind_of(command) matches Some(kind) ==> forall|item: JsonView|
            fields.contains_key("items"@) && fields["items"@] is Array ==> (#[trigger] filtered(
                JsonView::Object(fields),
                command,
            ).field_items("items"@).contains(item) <==> fields["items"@]->Array_0.contains(item)
                && of_kind(kind)(item)),
{
    if let Some(kind) = kind_of(command) {
        if fields.contains_key("items"@) && fields["items"@] is Array {
            filter_rows(fields["items"@]->Array_0, of_kind(kind));
        }
    }
}

/// To open an item needs an identifier of the kind that the namespace is for: any other is refused,
/// and nothing is asked of the daemon.
pub proof fn opening_checks_the_kind(
    event: bool,
    item: Seq<char>,
    today: Seq<char>,
    tomorrow: Seq<char>,
)
    requires
        !is_option(item),
    ensures
        ({
            let prefix = if event {
                "event:"@
            } else {
                "task:"@
            };
            let arguments = seq![
                if event {
                    "event"@
                } else {
                    "task"@
                },
                "open"@,
                item,
            ];
            planned(arguments, today, tomorrow) == if prefix.is_prefix_of(item) {
                Ok(
                    asks(
                        "open_item"@,
                        Map::empty().insert("itemId"@, JsonView::Text(item)),
                        Shown::Whole,
                    ),
                )
            } else {
                Err(other_kind(prefix))
            }
        }),
{
    let namespace = if event {
        "event"@
    } else {
        "task"@
    };
    let arguments = seq![namespace, "open"@, item];
    let name = command_name(arguments);
    let all = command_table();
    reveal_strlit("event");
    reveal_strlit("task");
    reveal_strlit("open");
    reveal_strlit(" ");
    reveal_strlit("event open");
    reveal_strlit("task open");
    reveal_strlit("help");
    reveal_strlit("--help");
    reveal_strlit("-h");
    let head = seq![namespace, "open"@];
    reveal_with_fuel(joined, 3);
    assert(head.drop_last() =~= seq![namespace]);
    assert(joined(head, " "@) == namespace + " "@ + "open"@);
    assert("event"@ + " "@ + "open"@ =~= "event open"@);
    assert("task"@ + " "@ + "open"@ =~= "task open"@);
    let i: int = if event {
        6
    } else {
        8
    };
    assert(all[i].name == name);
    commands_do_not_cross(arguments);
    let words = seq![all[i].internal] + arguments.skip(2);
    assert(words =~= seq![all[i].internal, item]);
    assert(namespace[0] != 'h' && namespace[0] != '-');
    assert("help"@[0] == 'h' && "--help"@[0] == '-' && "-h"@[0] == '-');
    assert(!asks_help(item));
    assert(!help_follows(words));
    let none = TailView { options: Seq::empty(), positional: Seq::empty() };
    let one = TailView { positional: none.positional.push(item), ..none };
    assert(tail_from(words, 2, Seq::empty(), one) == Ok::<_, ErrorView>(one));
    assert(tail_from(words, 1, Seq::empty(), none) == Ok::<_, ErrorView>(one));
    assert(one.positional[0] == item);
    opening_differs(all[i].internal);
}

proof fn opening_differs(name: Seq<char>)
    requires
        name == "event-open"@ || name == "task-open"@,
    ensures
        "event-open"@ != "task-open"@,
        name != "daemon"@,
        name != "status"@,
        name != "accounts"@,
        name != "list"@,
        name != "events"@,
        name != "tasks"@,
        name != "add"@,
        name != "cancel"@,
        name != "reconnect"@,
        name != "remove"@,
        name != "refresh"@,
{
    reveal_strlit("event-open");
    reveal_strlit("task-open");
    reveal_strlit("daemon");
    reveal_strlit("status");
    reveal_strlit("accounts");
    reveal_strlit("list");
    reveal_strlit("events");
    reveal_strlit("tasks");
    reveal_strlit("add");
    reveal_strlit("cancel");
    reveal_strlit("reconnect");
    reveal_strlit("remove");
    reveal_strlit("refresh");
    assert("event-open"@.len() == 10 && "task-open"@.len() == 9 && "daemon"@.len() == 6);
    assert("status"@.len() == 6 && "accounts"@.len() == 8 && "list"@.len() == 4);
    assert("events"@.len() == 6 && "tasks"@.len() == 5 && "add"@.len() == 3);
    assert("cancel"@.len() == 6 && "reconnect"@.len() == 9 && "remove"@.len() == 6);
    assert("refresh"@.len() == 7);
    assert("reconnect"@[0] == 'r' && "task-open"@[0] == 't');
}

} // verus!
