//! What an agent is answered.

use cqx::config::Config;
use cqx::edit;
use cqx::json::Json;
use cqx::mcp::{self, Ask, Tool, Trouble};
use cqx::measure::Real;
use cqx::table::Table;

fn reply(line: &str) -> Json {
    match mcp::handle_line(line) {
        Ask::Reply(reply) => Json::parse(&reply).expect("reply is json"),
        _ => panic!("expected a reply"),
    }
}

fn at<'a>(j: &'a Json, path: &[&str]) -> &'a Json {
    let mut here = j;
    for key in path {
        here = match here {
            Json::List(items) => &items[key.parse::<usize>().expect("a position")],
            other => other.get(key).unwrap_or(&Json::Null),
        };
    }
    here
}

fn string<'a>(j: &'a Json, path: &[&str]) -> &'a str {
    match at(j, path) {
        Json::Str(s) => s,
        _ => "",
    }
}

#[test]
fn initialize_returns_protocol_version_and_server_name() {
    let reply = reply(r#"{"jsonrpc":"2.0","id":1,"method":"initialize"}"#);
    assert_eq!(string(&reply, &["result", "protocolVersion"]), "2025-06-18");
    assert_eq!(string(&reply, &["result", "serverInfo", "name"]), "cqx");
    assert_eq!(string(&reply, &["result", "serverInfo", "version"]), cqx::schema::VERSION);
    assert_eq!(at(&reply, &["result", "capabilities"]).write(), "{\"tools\":{}}");
}

#[test]
fn notification_produces_no_reply() {
    assert!(matches!(
        mcp::handle_line(r#"{"jsonrpc":"2.0","method":"notifications/initialized"}"#),
        Ask::Nothing
    ));
    assert!(matches!(mcp::handle_line("   "), Ask::Nothing));
}

#[test]
fn tools_list_has_exactly_four_tools_each_with_a_schema() {
    let reply = reply(r#"{"jsonrpc":"2.0","id":1,"method":"tools/list"}"#);
    let tools = at(&reply, &["result", "tools"]).as_list().expect("tools array");
    assert_eq!(tools.len(), 4);
    let names: Vec<&str> = tools.iter().map(|t| string(t, &["name"])).collect();
    assert_eq!(names, ["score", "findings", "rules", "explain"]);
    for tool in tools {
        let schema = tool.get("inputSchema").expect("inputSchema");
        assert_eq!(string(schema, &["type"]), "object");
        assert!(schema.get("properties").is_some());
        assert!(matches!(at(tool, &["annotations", "readOnlyHint"]), Json::Bool(true)));
    }
}

#[test]
fn unknown_method_is_not_found_and_the_loop_continues() {
    let err = reply(r#"{"jsonrpc":"2.0","id":1,"method":"nope"}"#);
    assert!(matches!(at(&err, &["error", "code"]), Json::Minus(-32601)));
    // A method that is not found is a reply, not a shutdown: the next
    // message still gets an answer.
    let ok = reply(r#"{"jsonrpc":"2.0","id":2,"method":"initialize"}"#);
    assert_eq!(string(&ok, &["result", "serverInfo", "name"]), "cqx");
}

#[test]
fn malformed_line_is_parse_error() {
    let err = reply("this is not json");
    assert!(matches!(at(&err, &["error", "code"]), Json::Minus(-32700)));
    assert!(matches!(err.get("id"), Some(Json::Null)));
    let ok = reply(r#"{"jsonrpc":"2.0","id":1,"method":"initialize"}"#);
    assert_eq!(string(&ok, &["result", "serverInfo", "name"]), "cqx");
}

#[test]
fn a_reply_carries_the_id_it_answers() {
    let text = reply(r#"{"jsonrpc":"2.0","id":"seven","method":"initialize"}"#);
    assert_eq!(string(&text, &["id"]), "seven");
    let null = reply(r#"{"jsonrpc":"2.0","id":null,"method":"tools/list"}"#);
    assert!(matches!(null.get("id"), Some(Json::Null)));
    let list = reply("[1,2]");
    assert!(matches!(at(&list, &["error", "code"]), Json::Minus(-32700)));
}

#[test]
fn a_call_says_what_is_to_be_scanned() {
    match mcp::handle_line(
        r#"{"id":4,"method":"tools/call","params":{"name":"findings","arguments":{"path":"/tmp/x","rule":"a/b","file":"src/lib.rs"}}}"#,
    ) {
        Ask::Scan(id, call) => {
            assert!(matches!(id, Json::Whole(4)));
            assert_eq!(call.path.as_deref(), Some("/tmp/x"));
            match call.tool {
                Tool::Findings { rule, file } => {
                    assert_eq!(rule.as_deref(), Some("a/b"));
                    assert_eq!(file.as_deref(), Some("src/lib.rs"));
                }
                _ => panic!("findings"),
            }
        }
        _ => panic!("expected a scan"),
    }
}

#[test]
fn a_call_that_says_too_little_is_a_tool_failure() {
    for (line, wanted) in [
        (r#"{"id":1,"method":"tools/call"}"#, "tools/call needs the name of a tool."),
        (
            r#"{"id":1,"method":"tools/call","params":{"name":"explain","arguments":{"rule":"  "}}}"#,
            "explain needs the name of a rule.",
        ),
        (
            r#"{"id":1,"method":"tools/call","params":{"name":"propose_rule"}}"#,
            "there is no tool named 'propose_rule'. cqx mcp has score, findings, rules and explain.",
        ),
    ] {
        let reply = reply(line);
        assert!(reply.get("error").is_none());
        assert!(matches!(at(&reply, &["result", "isError"]), Json::Bool(true)));
        assert_eq!(string(&reply, &["result", "content", "0", "text"]), wanted);
    }
}

#[test]
fn a_tree_that_cannot_be_scanned_is_a_tool_failure() {
    let line = mcp::answer(&Json::Whole(9), &Tool::Score, &Err("could not read /x".to_string()));
    let reply = Json::parse(&line).expect("json");
    assert!(matches!(reply.get("id"), Some(Json::Whole(9))));
    assert!(matches!(at(&reply, &["result", "isError"]), Json::Bool(true)));
    assert_eq!(string(&reply, &["result", "content", "0", "text"]), "could not read /x");
}

const REPORT: &str = r#"{
    "scores": {"quality": 80},
    "rules": [
        {"rule": "one", "category": "quality", "weight": 10, "deducted": 5.5, "findings": [
            {"what": "a", "file": "src/a.rs", "line": 1},
            {"what": "b", "file": "crates\\x\\src\\a.rs", "line": 2}
        ]},
        {"rule": "two", "category": "style", "deducted": 0, "findings": [
            {"what": "c", "file": "src/b.rs", "line": 3}
        ]}
    ],
    "config": {"rules": {"three": {"category": "quality", "weight": 4}}}
}"#;

fn ask(tool: Tool) -> Json {
    let report = Ok(Json::parse(REPORT).expect("json"));
    let line = mcp::answer(&Json::Whole(1), &tool, &report);
    assert!(!line.contains('\n'));
    let reply = Json::parse(&line).expect("json");
    Json::parse(string(&reply, &["result", "content", "0", "text"])).unwrap_or(Json::Null)
}

#[test]
fn findings_are_filtered_and_say_where_they_belong() {
    let by_file = ask(Tool::Findings { rule: None, file: Some("src/a.rs".to_string()) });
    let found = at(&by_file, &["findings"]).as_list().expect("findings");
    let whats: Vec<&str> = found.iter().map(|f| string(f, &["what"])).collect();
    assert_eq!(whats, ["a", "b"]);
    assert_eq!(string(&found[0], &["rule"]), "one");
    assert_eq!(string(&found[0], &["category"]), "quality");
    let by_rule = ask(Tool::Findings { rule: Some("rust/two".to_string()), file: None });
    let found = at(&by_rule, &["findings"]).as_list().expect("findings");
    assert_eq!(found.len(), 1);
    assert_eq!(string(&found[0], &["what"]), "c");
}

#[test]
fn rules_say_whether_they_are_deducting() {
    let body = ask(Tool::Rules);
    assert!(matches!(at(&body, &["rules", "0", "deducting"]), Json::Bool(true)));
    assert!(matches!(at(&body, &["rules", "1", "deducting"]), Json::Bool(false)));
    assert!(matches!(at(&body, &["rules", "1", "weight"]), Json::Whole(0)));
    assert_eq!(string(&body, &["rules", "0", "name"]), "one");
}

#[test]
fn a_rule_is_explained_from_the_report_or_the_configuration() {
    let one = ask(Tool::Explain { name: "one".to_string() });
    assert_eq!(at(&one, &["findings"]).as_list().expect("findings").len(), 2);
    let three = ask(Tool::Explain { name: "rust/three".to_string() });
    assert_eq!(string(&three, &["name"]), "rust/three");
    assert!(matches!(at(&three, &["weight"]), Json::Whole(4)));
    assert!(matches!(at(&three, &["deducting"]), Json::Bool(false)));
    assert_eq!(at(&three, &["findings"]).as_list().expect("findings").len(), 0);
}

#[test]
fn scores_come_with_what_the_scan_cost() {
    let body = ask(Tool::Score);
    assert!(matches!(at(&body, &["scores", "quality"]), Json::Whole(80)));
    assert_eq!(at(&body, &["scan"]).write(), "{}");
}

fn propose(field: &str, value: &str) -> Result<Json, Trouble> {
    let args = Json::parse(&format!(
        r#"{{"rule":"oversized-files","field":"{field}","value":{value},"because":"too long"}}"#
    ))
    .expect("json");
    let wanted = match mcp::read_wanted(&args) {
        Ok(wanted) => wanted,
        Err(e) => return Err(e),
    };
    let config = Config::resolve(None, &Table::new()).expect("defaults");
    let number = wanted
        .value
        .parse::<f64>()
        .ok()
        .map(|x| Real { bits: x.to_bits(), text: x.to_string() });
    let proposal = edit::propose(
        "cqx.json",
        &config,
        &edit::blank(),
        &wanted.rule,
        &wanted.field,
        &wanted.value,
        &number,
        Some(&wanted.because),
    );
    mcp::propose_rule(&wanted, &proposal)
}

#[test]
fn an_agent_may_tighten_a_rule() {
    let body = match propose("free", "1.5") {
        Ok(body) => body,
        Err(e) => panic!("{}", e.message()),
    };
    assert_eq!(string(&body, &["written"]), "cqx.json");
    assert_eq!(string(&body, &["because"]), "too long");
    assert_eq!(string(&body, &["changes", "0", "direction"]), "tighter");
    assert!(string(&body, &["note"]).contains("stricter"));
}

#[test]
fn only_a_person_may_loosen_one() {
    let refused = propose("free", "9").err().expect("refused");
    assert!(matches!(
        &refused,
        Trouble::NotATightening { loosening: true, nothing: false, .. }
    ));
    assert!(refused.message().contains("only a person may loosen"), "{}", refused.message());
    let unclear = propose("max_lines", "400").err().expect("refused");
    assert!(matches!(&unclear, Trouble::NotATightening { loosening: false, .. }));
    let nothing = propose("free", "3.5").err().expect("refused");
    assert!(matches!(&nothing, Trouble::NotATightening { nothing: true, .. }));
    assert!(nothing.message().contains("nothing would change"), "{}", nothing.message());
}

#[test]
fn a_proposal_needs_all_its_parts() {
    for (args, word) in [
        ("{}", "name of a rule"),
        (r#"{"rule":"x"}"#, "name of a field"),
        (r#"{"rule":"x","field":"y"}"#, "because"),
        (r#"{"rule":"x","field":"y","because":"z"}"#, "needs a value"),
        (r#"{"rule":"x","field":"y","because":"z","value":[]}"#, "needs a value"),
    ] {
        let e = mcp::read_wanted(&Json::parse(args).expect("json")).err().expect("refused");
        assert!(e.message().contains(word), "{}", e.message());
    }
    let args = r#"{"rule":" x ","field":"y","because":"z","value":true}"#;
    let wanted = match mcp::read_wanted(&Json::parse(args).expect("json")) {
        Ok(wanted) => wanted,
        Err(e) => panic!("{}", e.message()),
    };
    assert_eq!((wanted.rule.as_str(), wanted.value.as_str()), ("x", "true"));
    let refused = propose("colour", "1").err().expect("refused");
    assert!(matches!(refused, Trouble::Analysis(_)));
}

#[test]
fn a_missing_rule_is_named() {
    let report = Ok(Json::parse(REPORT).expect("json"));
    let tool = Tool::Explain { name: "nine".to_string() };
    let reply = Json::parse(&mcp::answer(&Json::Null, &tool, &report)).expect("json");
    assert!(matches!(at(&reply, &["result", "isError"]), Json::Bool(true)));
    let text = string(&reply, &["result", "content", "0", "text"]);
    assert!(text.contains("'nine'"), "{text}");
}
