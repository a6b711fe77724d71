use omarchy_calendar::cli::{
    commands, filter_items, help, output, parse_tail, plan, present, presentable, read_command,
    require_positionals, routable, route, Plan, Shown,
};
use omarchy_calendar::protocol::{accept_reply, request_message};
use omarchy_calendar::{CalendarError, Json};

fn json(text: &str) -> Json {
    Json::parse(text.as_bytes()).unwrap()
}

fn field(value: &Json, key: &str) -> Json {
    value.get(key).cloned().unwrap_or(Json::Null)
}

fn words(line: &[&str]) -> Vec<String> {
    line.iter().map(|word| word.to_string()).collect()
}

fn planned(line: &[&str]) -> Result<Plan, CalendarError> {
    plan(&words(line), "2026-09-14", "2026-09-15")
}

/// Sends what a command line asks for to a daemon with one answer, and shows that answer.
fn exchange(line: &[&str], response: Json) -> (Json, Json) {
    let Ok(Plan::Ask { method, params, shown }) = planned(line) else {
        panic!("the daemon was not asked");
    };
    let request = request_message("1", &method, params);
    let reply = Json::Object(
        omarchy_calendar::JsonObject::new()
            .with("id", field(&request, "id"))
            .with("ok", Json::Bool(true))
            .with("result", response),
    );
    let result = accept_reply("1", &reply).unwrap().unwrap();
    assert!(presentable(&result, shown));
    (request, present(result, shown))
}

#[test]
fn namespaces_route_without_crossing_resource_boundaries() {
    for command in commands() {
        let line: Vec<String> = command.name.split_whitespace().map(str::to_owned).collect();
        assert_eq!(route(&line).unwrap(), vec![command.internal]);
    }
    for invalid in [
        "add",
        "remove",
        "list",
        "event add",
        "task remove",
        "agenda open",
    ] {
        let line: Vec<String> = invalid.split_whitespace().map(str::to_owned).collect();
        assert_eq!(route(&line).unwrap_err().code, "invalid_command");
    }
    assert_eq!(
        route(&words(&["account", "remove", "account-1"])).unwrap(),
        vec!["remove", "account-1"]
    );
}

#[test]
fn typed_lists_preserve_context_and_source_records() {
    let mixed = json(
        r#"{"items": [{"type":"event","id":"event:1"},{"type":"task","id":"task:2"}],"context":{"accounts":[]},"start":"2026-09-14"}"#,
    );
    for (command, kind) in [("events", "event"), ("tasks", "task")] {
        let mut result = mixed.clone();
        filter_items(&mut result, command);
        let items = result.get_items("items").unwrap();
        assert_eq!(items.len(), 1);
        assert_eq!(field(&items[0], "type"), Json::text(kind));
        assert_eq!(field(&result, "context"), field(&mixed, "context"));
        assert_eq!(field(&result, "start"), field(&mixed, "start"));
    }
    let mut result = mixed.clone();
    filter_items(&mut result, "list");
    assert_eq!(result, mixed);
}

#[test]
fn account_and_service_commands_send_scoped_requests() {
    for (line, method, params) in [
        (
            vec!["account", "add", "--label", "Work account"],
            "add_account",
            r#"{"label":"Work account"}"#,
        ),
        (
            vec!["account", "remove", "a1"],
            "remove_account",
            r#"{"accountId":"a1"}"#,
        ),
        (
            vec!["account", "reconnect", "a1"],
            "reconnect_account",
            r#"{"accountId":"a1"}"#,
        ),
        (vec!["account", "cancel"], "cancel_add_account", "{}"),
        (
            vec!["service", "refresh", "--account", "a1"],
            "refresh",
            r#"{"accountId":"a1"}"#,
        ),
        (vec!["service", "refresh"], "refresh", "{}"),
        (
            vec!["event", "open", "event:123"],
            "open_item",
            r#"{"itemId":"event:123"}"#,
        ),
        (
            vec!["task", "open", "task:123"],
            "open_item",
            r#"{"itemId":"task:123"}"#,
        ),
    ] {
        let (request, _) = exchange(&line, json(r#"{"done":true}"#));
        assert_eq!(field(&request, "method"), Json::text(method));
        assert_eq!(field(&request, "params"), json(params));
    }
    let state = json(r#"{"accounts":[{"id":"a1"}],"status":"idle"}"#);
    let (request, accounts) = exchange(&["account", "list"], state.clone());
    assert_eq!(field(&request, "method"), Json::text("get_state"));
    assert_eq!(accounts, json(r#"{"accounts":[{"id":"a1"}]}"#));
    let (_, status) = exchange(&["service", "status"], state.clone());
    assert_eq!(status, state);
}

#[test]
fn resource_lists_keep_context_and_forward_date_and_account_options() {
    let mixed = json(
        r#"{"items":[{"type":"event"},{"type":"task"}],"context":{"accounts":[{"id":"a1"}]},"start":"2026-09-14","end":"2026-09-15"}"#,
    );
    for group in ["agenda", "event", "task"] {
        let (request, result) = exchange(
            &[
                group,
                "list",
                "--start",
                "2026-09-14",
                "--end",
                "2026-09-15",
                "--account",
                "a1",
            ],
            mixed.clone(),
        );
        assert_eq!(field(&request, "method"), Json::text("get_agenda"));
        assert_eq!(
            field(&request, "params"),
            json(r#"{"start":"2026-09-14","end":"2026-09-15","account":"a1"}"#)
        );
        assert_eq!(field(&result, "context"), field(&mixed, "context"));
        if group == "agenda" {
            assert_eq!(result, mixed);
        } else {
            assert_eq!(
                field(&result, "items"),
                json(&format!("[{{\"type\":\"{group}\"}}]"))
            );
        }
    }
}

#[test]
fn invalid_arguments_are_reported_before_runtime_access() {
    for (line, expected) in [
        (vec!["task", "list", "extra"], "omarchy-calendar task list"),
        (
            vec!["account", "list", "extra"],
            "omarchy-calendar account list",
        ),
        (vec!["task", "open"], "omarchy-calendar task open ITEM_ID"),
        (vec!["event", "open", "task:123"], "Expected event:"),
        (vec!["task", "open", "event:123"], "Expected task:"),
        (
            vec!["account", "remove"],
            "omarchy-calendar account remove ACCOUNT_ID",
        ),
        (vec!["remove", "a1"], "Unknown command"),
    ] {
        let error = planned(&line).unwrap_err();
        let (printed, status) = output(&Err(error));
        assert_eq!(status, 1);
        let result = json(&printed.unwrap());
        assert_eq!(field(&result, "ok"), Json::Bool(false));
        let message = field(&field(&result, "error"), "message");
        assert!(message.as_str().unwrap().contains(expected), "{result:?}");
    }
}

#[test]
fn help_shows_all_commands_or_those_of_a_namespace() {
    let all = help("");
    assert!(all.starts_with("Omarchy calendar backend\n\nCommands:\n  account list \n"));
    assert_eq!(all.lines().count(), 16);
    assert_eq!(
        help("task"),
        "Omarchy calendar backend\n\nCommands:\n  task list [--start DATE] [--end DATE] [--account ID]\n  task open ITEM_ID\n"
    );
    for line in [vec![], vec!["help"], vec!["--help"], vec!["-h", "more"]] {
        assert!(matches!(planned(&line), Ok(Plan::Help { prefix }) if prefix.is_empty()));
    }
    for line in [vec!["task"], vec!["task", "--help"], vec!["task", "-h"]] {
        assert!(matches!(planned(&line), Ok(Plan::Help { prefix }) if prefix == "task"));
    }
    assert!(matches!(
        planned(&["task", "list", "--start", "--help"]),
        Ok(Plan::Help { prefix }) if prefix == "task list"
    ));
    assert_eq!(help("task open").lines().count(), 4);
}

#[test]
fn start_and_end_default_independently() {
    let (request, _) = exchange(&["agenda", "list", "--end", "2026-09-20"], json("{}"));
    assert_eq!(
        field(&request, "params"),
        json(r#"{"start":"2026-09-14","end":"2026-09-20","account":"all"}"#)
    );
    let (request, _) = exchange(&["event", "list"], json("{}"));
    assert_eq!(
        field(&request, "params"),
        json(r#"{"start":"2026-09-14","end":"2026-09-15","account":"all"}"#)
    );
    let Ok(Plan::Ask { params, shown, .. }) = read_command(&words(&["task", "list"])) else {
        panic!("the daemon was not asked");
    };
    assert_eq!(shown, Shown::Tasks);
    let start = params.get_text("start").unwrap();
    let end = params.get_text("end").unwrap();
    assert_eq!(start.len(), 10);
    assert!(start < end);
}

#[test]
fn options_need_values_and_the_last_one_counts() {
    let tail = parse_tail(
        &words(&["add", "one", "--label", "first", "two", "--label", "second"]),
        &["--label"],
    )
    .unwrap();
    assert_eq!(tail.positional, vec!["one", "two"]);
    assert_eq!(tail.option("--label"), Some("second".to_string()));
    assert_eq!(tail.option("--account"), None);
    assert!(require_positionals(&tail, 2, "add").is_ok());
    assert_eq!(require_positionals(&tail, 1, "add").unwrap_err().message, "Usage: add");
    assert_eq!(
        parse_tail(&words(&["add", "--label"]), &["--label"]).unwrap_err().message,
        "--label requires a value"
    );
    assert_eq!(
        parse_tail(&words(&["add", "--label", "-x"]), &["--label"]).unwrap_err().message,
        "--label requires a value"
    );
    assert_eq!(
        parse_tail(&words(&["add", "--other", "x"]), &["--label"]).unwrap_err().message,
        "Unrecognized argument: --other"
    );
}

#[test]
fn a_whole_command_as_one_word_cannot_be_routed() {
    assert!(!routable(&words(&["account list"])));
    assert!(routable(&words(&["account", "list"])));
    assert!(routable(&words(&["accounts"])));
    assert!(routable(&words(&[])));
    assert_eq!(planned(&["accounts"]).unwrap_err().code, "invalid_command");
    assert!(matches!(planned(&["service", "run"]), Ok(Plan::Daemon)));
}

#[test]
fn results_are_printed_on_several_lines_and_errors_on_one() {
    assert_eq!(output(&Ok(Json::Null)), (None, 0));
    assert_eq!(
        output(&Ok(json(r#"{"b":[1,true],"a":null}"#))),
        (
            Some("{\n  \"a\": null,\n  \"b\": [\n    1,\n    true\n  ]\n}".to_string()),
            0
        )
    );
    assert_eq!(
        output(&Err(CalendarError::new("code", "message"))),
        (
            Some("{\"error\":{\"code\":\"code\",\"message\":\"message\"},\"ok\":false}".to_string()),
            1
        )
    );
}

#[test]
fn lists_without_items_get_none() {
    let mut empty = Json::Null;
    filter_items(&mut empty, "events");
    assert_eq!(empty, json(r#"{"items":null}"#));
    let mut without = json(r#"{"start":"2026-09-14"}"#);
    filter_items(&mut without, "tasks");
    assert_eq!(without, json(r#"{"items":null,"start":"2026-09-14"}"#));
    assert!(!presentable(&json("[]"), Shown::Events));
    assert!(presentable(&json("[]"), Shown::Accounts));
    assert_eq!(present(json("[]"), Shown::Accounts), json(r#"{"accounts":null}"#));
}
