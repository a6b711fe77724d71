//! What command lines ask the daemon, word by word.
use vstd::prelude::*;

use crate::cli::{
    asked, asks, asks_help, command_name, command_table, commands_do_not_cross, help_follows,
    is_option, planned, presented, routed, tail_from, tail_of, PlanView, Shown, TailView,
};
use crate::error::ErrorView;
use crate::json::JsonView;
use crate::table::any;
use crate::text::joined;

verus! {

proof fn tail_goes_on(
    words: Seq<Seq<char>>,
    more: Seq<Seq<char>>,
    from: int,
    allowed: Seq<Seq<char>>,
    seen: TailView,
    tail: TailView,
)
    requires
        0 <= from <= words.len(),
        tail_from(words, from, allowed, seen) == Ok::<_, ErrorView>(tail),
    ensures
        tail_from(words + more, from, allowed, seen) == tail_from(
            words + more,
            words.len() as int,
            allowed,
            tail,
        ),
    decreases words.len() - from,
{
    let whole = words + more;
    if from < words.len() {
        let word = words[from];
        assert(whole[from] == word);
        if !is_option(word) {
            tail_goes_on(
                words,
                more,
                from + 1,
                allowed,
                TailView { positional: seen.positional.push(word), ..seen },
                tail,
            );
        } else {
            assert(whole[from + 1] == words[from + 1]);
            tail_goes_on(
                words,
                more,
                from + 2,
                allowed,
                TailView { options: seen.options.push((word, words[from + 1])), ..seen },
                tail,
            );
        }
    }
}

proof fn option_pushed(tail: TailView, name: Seq<char>, value: Seq<char>, other: Seq<char>)
    ensures
        (TailView { options: tail.options.push((name, value)), ..tail }).option(other) == if other
            == name {
            Some(value)
        } else {
            tail.option(other)
        },
{
    let longer = TailView { options: tail.options.push((name, value)), ..tail };
    assert(longer.options.last() == (name, value));
    assert((TailView { options: longer.options.drop_last(), ..longer }) =~= tail);
}

/// A command alone has no options and no words after it. An option that the command knows counts
/// with the word after it, and in the place of an earlier one of its name; any other word counts as
/// it stands. An option that the command does not know is refused, and so is one without a value.
pub proof fn words_are_read_one_by_one(
    words: Seq<Seq<char>>,
    allowed: Seq<Seq<char>>,
    tail: TailView,
    name: Seq<char>,
    value: Seq<char>,
    other: Seq<char>,
)
    requires
        words.len() > 0,
        tail_of(words, allowed) == Ok::<_, ErrorView>(tail),
    ensures
        words.len() == 1 ==> tail.positional.len() == 0 && tail.option(other) is None,
        is_option(name) && allowed.contains(name) && !is_option(value) ==> (tail_of(
            words + seq![name, value],
            allowed,
        ) matches Ok(longer) && longer.positional == tail.positional && longer.option(name) == Some(
            value,
        ) && (other != name ==> longer.option(other) == tail.option(other))),
        !is_option(value) ==> (tail_of(words + seq![value], allowed) matches Ok(longer)
            && longer.positional == tail.positional.push(value) && longer.option(other)
            == tail.option(other)),
        is_option(name) && !allowed.contains(name) ==> (tail_of(
            words + seq![name],
            allowed,
        ) matches Err(error) && error.code == "invalid_command"@),
        is_option(name) ==> (tail_of(words + seq![name], allowed) matches Err(error) && error.code
            == "invalid_command"@),
{
    let none = TailView { options: Seq::empty(), positional: Seq::empty() };
    let n = words.len() as int;
    if words.len() == 1 {
        assert(tail == none);
    }
    let pair = words + seq![name, value];
    tail_goes_on(words, seq![name, value], 1, allowed, none, tail);
    assert(pair[n] == name && pair[n + 1] == value);
    if is_option(name) && allowed.contains(name) && !is_option(value) {
        let longer = TailView { options: tail.options.push((name, value)), ..tail };
        assert(tail_from(pair, n + 2, allowed, longer) == Ok::<_, ErrorView>(longer));
        option_pushed(tail, name, value, name);
        option_pushed(tail, name, value, other);
    }
    let one = words + seq![value];
    tail_goes_on(words, seq![value], 1, allowed, none, tail);
    assert(one[n] == value);
    if !is_option(value) {
        let longer = TailView { positional: tail.positional.push(value), ..tail };
        assert(tail_from(one, n + 1, allowed, longer) == Ok::<_, ErrorView>(longer));
        same_options(longer, tail, other);
    }
    let bare = words + seq![name];
    tail_goes_on(words, seq![name], 1, allowed, none, tail);
    assert(bare[n] == name);
}

proof fn same_options(a: TailView, b: TailView, name: Seq<char>)
    requires
        a.options == b.options,
    ensures
        a.option(name) == b.option(name),
    decreases a.options.len(),
{
    if a.options.len() > 0 && a.options.last().0 != name {
        same_options(
            TailView { options: a.options.drop_last(), ..a },
            TailView { options: b.options.drop_last(), ..b },
            name,
        );
    }
}

proof fn internal_names_differ()
    ensures
        "daemon"@.len() == 6 && "daemon"@[0] == 'd',
        "status"@.len() == 6 && "status"@[0] == 's',
        "accounts"@.len() == 8,
        "list"@.len() == 4,
        "events"@.len() == 6 && "events"@[0] == 'e',
        "tasks"@.len() == 5,
        "add"@.len() == 3,
        "cancel"@.len() == 6 && "cancel"@[0] == 'c',
        "reconnect"@.len() == 9 && "reconnect"@[0] == 'r',
        "remove"@.len() == 6 && "remove"@[0] == 'r',
        "refresh"@.len() == 7,
        "event-open"@.len() == 10,
        "task-open"@.len() == 9 && "task-open"@[0] == 't',
{
    reveal_strlit("daemon");
    reveal_strlit("status");
    reveal_strlit("accounts");
    reveal_strlit("list");
    reveal_strlit("events");
    reveal_strlit("tasks");
    reveal_strlit("add");
    reveal_strlit("cancel");
    reveal_strlit("reconnect");
    reveal_strlit("remove");
    reveal_strlit("refresh");
    reveal_strlit("event-open");
    reveal_strlit("task-open");
}

/// Whether a plan asks the daemon for a method, and shows its answer in some way.
pub open spec fn asks_for(
    plan: std::result::Result<PlanView, ErrorView>,
    method: Seq<char>,
    shown: Shown,
) -> bool {
    plan matches Ok(PlanView::Ask { method: found, params, shown: way }) && found == method && way
        == shown && params is Object
}

/// What a plan asks the daemon with under a name.
pub open spec fn parameter(
    plan: std::result::Result<PlanView, ErrorView>,
    name: Seq<char>,
) -> Option<JsonView> {
    match plan {
        Ok(PlanView::Ask { method, params, shown }) => params.field(name),
        _ => None,
    }
}

/// The commands that list an agenda ask for the range and the account that their options name, or
/// for today, up to tomorrow, and for all accounts; those for events and for tasks show these only.
pub proof fn lists_ask_for_their_range(
    command: Seq<char>,
    rest: Seq<Seq<char>>,
    usage: Seq<char>,
    today: Seq<char>,
    tomorrow: Seq<char>,
    tail: TailView,
)
    requires
        command == "list"@ || command == "events"@ || command == "tasks"@,
        tail_of(seq![command] + rest, seq!["--start"@, "--end"@, "--account"@]) == Ok::<
            _,
            ErrorView,
        >(tail),
    ensures
        ({
            let plan = asked(seq![command] + rest, usage, today, tomorrow);
            &&& tail.positional.len() > 0 ==> (plan matches Err(error) && error.code
                == "invalid_command"@)
            &&& tail.positional.len() == 0 ==> {
                &&& command == "list"@ ==> asks_for(plan, "get_agenda"@, Shown::Whole)
                &&& command == "events"@ ==> asks_for(plan, "get_agenda"@, Shown::Events)
                &&& command == "tasks"@ ==> asks_for(plan, "get_agenda"@, Shown::Tasks)
                &&& parameter(plan, "start"@) == Some(
                    JsonView::Text(
                        match tail.option("--start"@) {
                            Some(date) => date,
                            None => today,
                        },
                    ),
                )
                &&& parameter(plan, "end"@) == Some(
                    JsonView::Text(
                        match tail.option("--end"@) {
                            Some(date) => date,
                            None => tomorrow,
                        },
                    ),
                )
                &&& parameter(plan, "account"@) == Some(
                    JsonView::Text(
                        match tail.option("--account"@) {
                            Some(id) => id,
                            None => "all"@,
                        },
                    ),
                )
            }
        }),
{
    internal_names_differ();
    reveal_strlit("start");
    reveal_strlit("end");
    reveal_strlit("account");
    assert("start"@.len() == 5 && "end"@.len() == 3 && "account"@.len() == 7);
    let words = seq![command] + rest;
    assert(words[0] == command);
}

/// The other commands ask for what they name, with what was given to them: adding an account with
/// its label, refreshing with the account, and removing or reconnecting with the account that the
/// one word after them names.
pub proof fn commands_ask_for_what_they_name(
    rest: Seq<Seq<char>>,
    usage: Seq<char>,
    today: Seq<char>,
    tomorrow: Seq<char>,
    id: Seq<char>,
)
    requires
        !is_option(id),
    ensures
        ({
            let words = seq!["add"@] + rest;
            let plan = asked(words, usage, today, tomorrow);
            tail_of(words, seq!["--label"@]) matches Ok(tail) ==> (tail.positional.len() == 0 ==> {
                &&& asks_for(plan, "add_account"@, Shown::Whole)
                &&& parameter(plan, "label"@) == match tail.option("--label"@) {
                    Some(label) => Some(JsonView::Text(label)),
                    None => None,
                }
            })
        }),
        ({
            let words = seq!["refresh"@] + rest;
            let plan = asked(words, usage, today, tomorrow);
            tail_of(words, seq!["--account"@]) matches Ok(tail) ==> (tail.positional.len() == 0 ==> {
                &&& asks_for(plan, "refresh"@, Shown::Whole)
                &&& parameter(plan, "accountId"@) == match tail.option("--account"@) {
                    Some(name) => Some(JsonView::Text(name)),
                    None => None,
                }
            })
        }),
        ({
            let plan = asked(seq!["remove"@, id], usage, today, tomorrow);
            &&& asks_for(plan, "remove_account"@, Shown::Whole)
            &&& parameter(plan, "accountId"@) == Some(JsonView::Text(id))
        }),
        ({
            let plan = asked(seq!["reconnect"@, id], usage, today, tomorrow);
            &&& asks_for(plan, "reconnect_account"@, Shown::Whole)
            &&& parameter(plan, "accountId"@) == Some(JsonView::Text(id))
        }),
        asks_for(asked(seq!["cancel"@], usage, today, tomorrow), "cancel_add_account"@, Shown::Whole),
        asks_for(asked(seq!["status"@], usage, today, tomorrow), "get_state"@, Shown::Whole),
        asks_for(asked(seq!["accounts"@], usage, today, tomorrow), "get_state"@, Shown::Accounts),
        asked(seq!["daemon"@], usage, today, tomorrow) == Ok::<_, ErrorView>(PlanView::Daemon),
{
    internal_names_differ();
    let none = TailView { options: Seq::empty(), positional: Seq::empty() };
    let one = TailView { positional: none.positional.push(id), ..none };
    let nothing = Seq::<Seq<char>>::empty();
    assert((seq!["add"@] + rest)[0] == "add"@);
    assert((seq!["refresh"@] + rest)[0] == "refresh"@);
    assert(tail_from(seq!["remove"@, id], 2, nothing, one) == Ok::<_, ErrorView>(one));
    assert(tail_from(seq!["remove"@, id], 1, nothing, none) == Ok::<_, ErrorView>(one));
    assert(tail_from(seq!["reconnect"@, id], 2, nothing, one) == Ok::<_, ErrorView>(one));
    assert(tail_from(seq!["reconnect"@, id], 1, nothing, none) == Ok::<_, ErrorView>(one));
    assert(one.positional[0] == id);
    assert(tail_from(seq!["cancel"@], 1, nothing, none) == Ok::<_, ErrorView>(none));
    assert(tail_from(seq!["status"@], 1, nothing, none) == Ok::<_, ErrorView>(none));
    assert(tail_from(seq!["accounts"@], 1, nothing, none) == Ok::<_, ErrorView>(none));
    assert(tail_from(seq!["daemon"@], 1, nothing, none) == Ok::<_, ErrorView>(none));
}

/// Whether two words are the name of a command, and what the command is called here.
pub open spec fn is_command(
    first_word: Seq<char>,
    second_word: Seq<char>,
    name: Seq<char>,
    internal: Seq<char>,
) -> bool {
    first_word + " "@ + second_word == name && exists|i: int|
        0 <= i < command_table().len() && (#[trigger] command_table()[i]).name == name
            && command_table()[i].internal == internal
}

/// A command line of two words or more asks for what its first two words name, with the words after
/// them, unless one of those asks for help.
pub proof fn command_lines_ask_by_their_first_words(
    arguments: Seq<Seq<char>>,
    internal: Seq<char>,
    name: Seq<char>,
    today: Seq<char>,
    tomorrow: Seq<char>,
)
    requires
        arguments.len() >= 2,
        is_command(arguments[0], arguments[1], name, internal),
        arguments[0] != "help"@,
        forall|i: int| 0 <= i < arguments.len() ==> !asks_help(#[trigger] arguments[i]),
    ensures
        exists|usage: Seq<char>|
            planned(arguments, today, tomorrow) == #[trigger] asked(
                seq![internal] + arguments.skip(2),
                usage,
                today,
                tomorrow,
            ),
{
    let head = seq![arguments[0], arguments[1]];
    reveal_with_fuel(joined, 3);
    assert(head.drop_last() =~= seq![arguments[0]]);
    assert(joined(head, " "@) == arguments[0] + " "@ + arguments[1]);
    assert(command_name(arguments) == name);
    commands_do_not_cross(arguments);
    let i = choose|i: int|
        0 <= i < command_table().len() && (#[trigger] command_table()[i]).name == name
            && command_table()[i].internal == internal;
    assert(command_table()[i].name == name);
    let words = seq![internal] + arguments.skip(2);
    assert(routed(arguments) == Ok::<_, ErrorView>(words));
    assert(!help_follows(words)) by {
        if help_follows(words) {
            let k = choose|k: int| 1 <= k < words.len() && asks_help(#[trigger] words[k]);
            assert(words[k] == arguments[k + 1]);
        }
    }
    assert(planned(arguments, today, tomorrow) == asked(
        words,
        crate::cli::usage_of(arguments),
        today,
        tomorrow,
    ));
}

/// The commands and what they are called here.
pub proof fn commands_have_their_names()
    ensures
        command_table().len() == 13,
        called("account list"@, "accounts"@),
        called("account add"@, "add"@),
        called("account reconnect"@, "reconnect"@),
        called("account cancel"@, "cancel"@),
        called("account remove"@, "remove"@),
        called("event list"@, "events"@),
        called("event open"@, "event-open"@),
        called("task list"@, "tasks"@),
        called("task open"@, "task-open"@),
        called("agenda list"@, "list"@),
        called("service status"@, "status"@),
        called("service refresh"@, "refresh"@),
        called("service run"@, "daemon"@),
{
    let all = command_table();
    assert(all[0].name == "account list"@ && all[1].name == "account add"@);
    assert(all[2].name == "account reconnect"@ && all[3].name == "account cancel"@);
    assert(all[4].name == "account remove"@ && all[5].name == "event list"@);
    assert(all[6].name == "event open"@ && all[7].name == "task list"@);
    assert(all[8].name == "task open"@ && all[9].name == "agenda list"@);
    assert(all[10].name == "service status"@ && all[11].name == "service refresh"@);
    assert(all[12].name == "service run"@);
}

/// Whether a command is called so here.
pub open spec fn called(name: Seq<char>, internal: Seq<char>) -> bool {
    exists|i: int|
        0 <= i < command_table().len() && (#[trigger] command_table()[i]).name == name
            && command_table()[i].internal == internal
}

/// What is shown of an answer: all of it, its accounts alone, or all of it with the items of one kind
/// only, in their order.
pub proof fn answers_are_shown_as_asked(value: JsonView, items: Seq<JsonView>)
    requires
        value is Object,
        value.field("items"@) == Some(JsonView::Array(items)),
    ensures
        presented(value, Shown::Whole) == value,
        presented(value, Shown::Events).field("items"@) == Some(
            JsonView::Array(
                items.filter(
                    |item: JsonView| item.field("type"@) == Some(JsonView::Text("event"@)),
                ),
            ),
        ),
        presented(value, Shown::Tasks).field("items"@) == Some(
            JsonView::Array(
                items.filter(|item: JsonView| item.field("type"@) == Some(JsonView::Text("task"@))),
            ),
        ),
        value.field("accounts"@) matches Some(accounts) ==> presented(
            value,
            Shown::Accounts,
        ).field("accounts"@) == Some(accounts),
{
    internal_names_differ();
    let event = |item: JsonView| item.field("type"@) == Some(JsonView::Text("event"@));
    let task = |item: JsonView| item.field("type"@) == Some(JsonView::Text("task"@));
    assert(event =~= crate::cli::of_kind("event"@));
    assert(task =~= crate::cli::of_kind("task"@));
}

} // verus!
