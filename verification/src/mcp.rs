//! Answering an agent that asks about the code.
//!
//! One JSON object per line in, at most one per line out. What a line asks for
//! is worked out here, and so is every answer; between the two stands a scan of
//! the tree, which is the caller's. A tool that fails answers with a sentence a
//! person could read and not with a protocol error, because a tool failing is a
//! result.

use vstd::prelude::*;

use crate::config::ConfigV;
use crate::edit::{self, Proposal, ProposalV};
use crate::json::{self, Json, JsonV};
use crate::measure::{self, RealV};
use crate::ratchet::{self, Change, ChangeV, Direction};
use crate::scan;
use crate::schema::VERSION;
use crate::table;
use crate::text::{self, Text};

verus! {

/// A line that is no message.
pub const PARSE_ERROR: i64 = -32700;

pub const METHOD_NOT_FOUND: i64 = -32601;

// --- what can be asked -------------------------------------------------------

/// What a tool is asked for.
pub enum Tool {
    Score,
    Findings { rule: Option<String>, file: Option<String> },
    Rules,
    Explain { name: String },
}

pub enum ToolV {
    Score,
    Findings { rule: Option<Text>, file: Option<Text> },
    Rules,
    Explain { name: Text },
}

impl DeepView for Tool {
    type V = ToolV;

    open spec fn deep_view(&self) -> ToolV {
        match self {
            Tool::Score => ToolV::Score,
            Tool::Findings { rule, file } => ToolV::Findings {
                rule: rule.deep_view(),
                file: file.deep_view(),
            },
            Tool::Rules => ToolV::Rules,
            Tool::Explain { name } => ToolV::Explain { name: name@ },
        }
    }
}

/// A tool, and the tree it is asked about: where none is named, the current
/// directory.
pub struct Call {
    pub tool: Tool,
    pub path: Option<String>,
}

pub struct CallV {
    pub tool: ToolV,
    pub path: Option<Text>,
}

impl DeepView for Call {
    type V = CallV;

    open spec fn deep_view(&self) -> CallV {
        CallV { tool: self.tool.deep_view(), path: self.path.deep_view() }
    }
}

/// What a line calls for.
pub enum Ask {
    /// Nothing: it is empty, or a notification.
    Nothing,
    /// This reply.
    Reply(String),
    /// A scan of a tree, and then what [`answer`] makes of it.
    Scan(Json, Call),
}

/// What a line calls for, with a reply as the value it is.
pub enum AskV {
    Nothing,
    Reply(JsonV),
    Scan(JsonV, CallV),
}

/// Why a tool has no answer.
pub enum Trouble {
    /// Something was not said.
    Missing(String),
    NoSuchRule(String),
    /// The tree could not be read or scored.
    Analysis(String),
    NotATightening {
        rule: String,
        field: String,
        loosening: bool,
        objections: Vec<String>,
        nothing: bool,
    },
}

pub enum TroubleV {
    Missing(Text),
    NoSuchRule(Text),
    Analysis(Text),
    NotATightening {
        rule: Text,
        field: Text,
        loosening: bool,
        objections: Seq<Text>,
        nothing: bool,
    },
}

impl DeepView for Trouble {
    type V = TroubleV;

    open spec fn deep_view(&self) -> TroubleV {
        match self {
            Trouble::Missing(s) => TroubleV::Missing(s@),
            Trouble::NoSuchRule(s) => TroubleV::NoSuchRule(s@),
            Trouble::Analysis(s) => TroubleV::Analysis(s@),
            Trouble::NotATightening { rule, field, loosening, objections, nothing } =>
                TroubleV::NotATightening {
                rule: rule@,
                field: field@,
                loosening: *loosening,
                objections: objections.deep_view(),
                nothing: *nothing,
            },
        }
    }
}

impl TroubleV {
    /// The sentence an agent reads.
    pub open spec fn message(self) -> Text {
        match self {
            TroubleV::Missing(s) => s,
            TroubleV::NoSuchRule(rule) => "there is no rule named '"@ + rule
                + "'. Call rules to see every rule in force."@,
            TroubleV::Analysis(s) => s,
            TroubleV::NotATightening { rule, field, loosening, objections, nothing } => {
                let head = rule + "."@ + field;
                if nothing {
                    head + " already has that value, so nothing would change."@
                } else if loosening {
                    head + " would be easier to pass, and only a person may loosen a rule. "@
                        + text::joined(objections, "; "@)
                } else {
                    head + " cannot be shown to be stricter, so a person has to decide. "@
                        + text::joined(objections, "; "@)
                }
            },
        }
    }
}

impl Trouble {
    pub fn message(&self) -> (s: String)
        ensures
            s@ == self.deep_view().message(),
    {
        match self {
            Trouble::Missing(s) => s.clone(),
            Trouble::NoSuchRule(rule) => text::cat3(
                "there is no rule named '",
                rule.as_str(),
                "'. Call rules to see every rule in force.",
            ),
            Trouble::Analysis(s) => s.clone(),
            Trouble::NotATightening { rule, field, loosening, objections, nothing } => {
                let mut s = text::cat3(rule.as_str(), ".", field.as_str());
                if *nothing {
                    text::extend(&mut s, " already has that value, so nothing would change.");
                } else if *loosening {
                    text::extend(
                        &mut s,
                        " would be easier to pass, and only a person may loosen a rule. ",
                    );
                    text::extend(&mut s, text::join(objections, "; ").as_str());
                } else {
                    text::extend(
                        &mut s,
                        " cannot be shown to be stricter, so a person has to decide. ",
                    );
                    text::extend(&mut s, text::join(objections, "; ").as_str());
                }
                s
            },
        }
    }
}

// --- replies -----------------------------------------------------------------

pub open spec fn ok_value(id: JsonV, result: JsonV) -> JsonV {
    JsonV::Object(
        seq![("jsonrpc"@, JsonV::Str("2.0"@))].push(("id"@, id)).push(("result"@, result)),
    )
}

pub open spec fn error_value(id: JsonV, code: i64, message: Text) -> JsonV {
    JsonV::Object(
        seq![("jsonrpc"@, JsonV::Str("2.0"@))].push(("id"@, id)).push(
            (
                "error"@,
                JsonV::Object(
                    seq![("code"@, JsonV::Minus(code))].push(("message"@, JsonV::Str(message))),
                ),
            ),
        ),
    )
}

/// A text is a value, written on one line. A plain value is what the text reads
/// as.
pub open spec fn writes(s: Text, value: JsonV) -> bool {
    &&& s == json::json_written(json::json_stored(value))
    &&& forall|i: int| 0 <= i < s.len() ==> #[trigger] s[i] != '\n'
    &&& json::plain(value, json::depth_limit()) ==> json::json_read(s) == Some(value)
}

fn write_line(value: &Json) -> (s: String)
    ensures
        writes(s@, value.deep_view()),
{
    value.write()
}

fn ok_reply(id: &Json, result: Json) -> (s: String)
    ensures
        writes(s@, ok_value(id.deep_view(), result.deep_view())),
{
    let mut fields = json::no_fields();
    crate::json::add(&mut fields, "jsonrpc", Json::str("2.0"));
    crate::json::add(&mut fields, "id", id.copy());
    crate::json::add(&mut fields, "result", result);
    assert(fields.deep_view() =~= ok_value(id.deep_view(), result.deep_view())->Object_0);
    write_line(&Json::object(fields))
}

fn error_reply(id: &Json, code: i64, message: &str) -> (s: String)
    ensures
        writes(s@, error_value(id.deep_view(), code, message@)),
{
    let mut error = json::no_fields();
    crate::json::add(&mut error, "code", Json::Minus(code));
    crate::json::add(&mut error, "message", Json::str(message));
    assert(error.deep_view() =~= seq![("code"@, JsonV::Minus(code))].push(
        ("message"@, JsonV::Str(message@)),
    ));
    let mut fields = json::no_fields();
    crate::json::add(&mut fields, "jsonrpc", Json::str("2.0"));
    crate::json::add(&mut fields, "id", id.copy());
    crate::json::add(&mut fields, "error", Json::object(error));
    assert(fields.deep_view() =~= error_value(id.deep_view(), code, message@)->Object_0);
    write_line(&Json::object(fields))
}

pub open spec fn content_json(s: Text) -> JsonV {
    JsonV::List(
        seq![
            JsonV::Object(
                seq![("type"@, JsonV::Str("text"@))].push(("text"@, JsonV::Str(s))),
            ),
        ],
    )
}

fn write_content(s: String) -> (j: Json)
    ensures
        j.deep_view() == content_json(s@),
{
    let mut fields = json::no_fields();
    crate::json::add(&mut fields, "type", Json::str("text"));
    crate::json::add(&mut fields, "text", Json::Str(s));
    assert(fields.deep_view() =~= seq![("type"@, JsonV::Str("text"@))].push(
        ("text"@, JsonV::Str(s@)),
    ));
    json::only(Json::object(fields))
}

/// What a tool that has an answer gives back: the answer, laid out.
pub open spec fn ok_json(value: JsonV) -> JsonV {
    JsonV::Object(
        seq![("content"@, content_json(json::json_laid_out(json::json_stored(value))))],
    )
}

fn ok(value: &Json) -> (j: Json)
    ensures
        j.deep_view() == ok_json(value.deep_view()),
{
    json::holding("content", write_content(value.lay_out()))
}

/// What a tool that failed gives back.
pub open spec fn fail_json(message: Text) -> JsonV {
    JsonV::Object(
        seq![("content"@, content_json(message))].push(("isError"@, JsonV::Bool(true))),
    )
}

fn fail(message: String) -> (j: Json)
    ensures
        j.deep_view() == fail_json(message@),
{
    let mut fields = json::no_fields();
    crate::json::add(&mut fields, "content", write_content(message));
    crate::json::add(&mut fields, "isError", Json::Bool(true));
    assert(fields.deep_view() =~= fail_json(message@)->Object_0);
    Json::object(fields)
}

pub open spec fn wrapped(result: Result<JsonV, TroubleV>) -> JsonV {
    match result {
        Ok(value) => ok_json(value),
        Err(trouble) => fail_json(trouble.message()),
    }
}

pub open spec fn shown(result: Result<Json, Trouble>) -> Result<JsonV, TroubleV> {
    match result {
        Ok(value) => Ok(value.deep_view()),
        Err(trouble) => Err(trouble.deep_view()),
    }
}

/// A tool's result as a reply carries it. One place decides how each kind of
/// trouble is worded.
pub fn wrap(result: &Result<Json, Trouble>) -> (j: Json)
    ensures
        j.deep_view() == wrapped(shown(*result)),
{
    match result {
        Ok(value) => ok(value),
        Err(trouble) => fail(trouble.message()),
    }
}

// --- what the server says of itself ------------------------------------------

pub open spec fn server_json() -> JsonV {
    JsonV::Object(
        seq![("protocolVersion"@, JsonV::Str("2025-06-18"@))].push(
            ("capabilities"@, JsonV::Object(seq![("tools"@, JsonV::Object(seq![]))])),
        ).push(
            (
                "serverInfo"@,
                JsonV::Object(
                    seq![("name"@, JsonV::Str("cqx"@))].push(("version"@, JsonV::Str(VERSION@))),
                ),
            ),
        ),
    )
}

fn initialize_result() -> (j: Json)
    ensures
        j.deep_view() == server_json(),
{
    let mut info = json::no_fields();
    crate::json::add(&mut info, "name", Json::str("cqx"));
    crate::json::add(&mut info, "version", Json::str(VERSION));
    assert(info.deep_view() =~= seq![("name"@, JsonV::Str("cqx"@))].push(
        ("version"@, JsonV::Str(VERSION@)),
    ));
    let mut fields = json::no_fields();
    crate::json::add(&mut fields, "protocolVersion", Json::str("2025-06-18"));
    crate::json::add(
        &mut fields,
        "capabilities",
        json::holding("tools", Json::object(json::no_fields())),
    );
    crate::json::add(&mut fields, "serverInfo", Json::object(info));
    assert(fields.deep_view() =~= server_json()->Object_0);
    Json::object(fields)
}

/// A text that a tool takes.
pub open spec fn text_prop(description: Text) -> JsonV {
    JsonV::Object(
        seq![("type"@, JsonV::Str("string"@))].push(("description"@, JsonV::Str(description))),
    )
}

fn write_prop(description: &str) -> (j: Json)
    ensures
        j.deep_view() == text_prop(description@),
{
    let mut fields = json::no_fields();
    crate::json::add(&mut fields, "type", Json::str("string"));
    crate::json::add(&mut fields, "description", Json::str(description));
    assert(fields.deep_view() =~= text_prop(description@)->Object_0);
    Json::object(fields)
}

pub open spec fn path_prop() -> (Text, JsonV) {
    ("path"@, text_prop("Repository root. Defaults to the current working directory."@))
}

fn write_paths() -> (fields: Vec<(String, Json)>)
    ensures
        fields.deep_view() == seq![path_prop()],
{
    let mut fields = json::no_fields();
    crate::json::add(
        &mut fields,
        "path",
        write_prop("Repository root. Defaults to the current working directory."),
    );
    assert(fields.deep_view() =~= seq![path_prop()]);
    fields
}

pub open spec fn schema_json(properties: Seq<(Text, JsonV)>, required: Option<Text>) -> JsonV {
    let schema = seq![("type"@, JsonV::Str("object"@))].push(
        ("properties"@, JsonV::Object(properties)),
    );
    match required {
        Some(name) => JsonV::Object(
            schema.push(("required"@, JsonV::List(seq![JsonV::Str(name)]))),
        ),
        None => JsonV::Object(schema),
    }
}

pub open spec fn tool_json(
    name: Text,
    description: Text,
    properties: Seq<(Text, JsonV)>,
    required: Option<Text>,
) -> JsonV {
    JsonV::Object(
        seq![("name"@, JsonV::Str(name))].push(("description"@, JsonV::Str(description))).push(
            ("inputSchema"@, schema_json(properties, required)),
        ).push(
            ("annotations"@, JsonV::Object(seq![("readOnlyHint"@, JsonV::Bool(true))])),
        ),
    )
}

fn write_tool(
    name: &str,
    description: &str,
    properties: Vec<(String, Json)>,
    required: Option<&str>,
) -> (j: Json)
    ensures
        j.deep_view() == tool_json(
            name@,
            description@,
            properties.deep_view(),
            match required {
                Some(name) => Some(name@),
                None => None,
            },
        ),
{
    let ghost wanted = schema_json(
        properties.deep_view(),
        match required {
            Some(name) => Some(name@),
            None => None,
        },
    );
    let ghost held = properties.deep_view();
    let mut schema = json::no_fields();
    crate::json::add(&mut schema, "type", Json::str("object"));
    crate::json::add(&mut schema, "properties", Json::object(properties));
    assert(schema.deep_view() =~= seq![("type"@, JsonV::Str("object"@))].push(
        ("properties"@, JsonV::Object(held)),
    ));
    if let Some(name) = required {
        crate::json::add(&mut schema, "required", json::only(Json::str(name)));
    }
    assert(wanted == JsonV::Object(schema.deep_view()));
    let mut fields = json::no_fields();
    crate::json::add(&mut fields, "name", Json::str(name));
    crate::json::add(&mut fields, "description", Json::str(description));
    crate::json::add(&mut fields, "inputSchema", Json::object(schema));
    crate::json::add(&mut fields, "annotations", json::holding("readOnlyHint", Json::Bool(true)));
    assert(fields.deep_view() =~= seq![("name"@, JsonV::Str(name@))].push(
        ("description"@, JsonV::Str(description@)),
    ).push(("inputSchema"@, wanted)).push(
        ("annotations"@, JsonV::Object(seq![("readOnlyHint"@, JsonV::Bool(true))])),
    ));
    Json::object(fields)
}

pub open spec fn score_tool() -> JsonV {
    tool_json(
        "score"@,
        "Category scores for the tree on disk, plus how long the scan took."@,
        seq![path_prop()],
        None,
    )
}

pub open spec fn findings_tool() -> JsonV {
    tool_json(
        "findings"@,
        "The findings. Optional rule and file filters. Each finding includes its rule and category."@,
        seq![path_prop()].push(("rule"@, text_prop("Only findings from this rule."@))).push(
            ("file"@, text_prop("Only findings in this file."@)),
        ),
        None,
    )
}

pub open spec fn rules_tool() -> JsonV {
    tool_json(
        "rules"@,
        "Every rule in force: what it measures, what to do about it, its weight, and whether it is deducting anything."@,
        seq![path_prop()],
        None,
    )
}

pub open spec fn explain_tool() -> JsonV {
    tool_json(
        "explain"@,
        "One rule, named, in full, plus its findings in this repository."@,
        seq![path_prop()].push(
            ("rule"@, text_prop("The rule to explain, for example exit-in-library."@)),
        ),
        Some("rule"@),
    )
}

/// The tools there are. None of them writes.
pub open spec fn tools_json() -> JsonV {
    JsonV::Object(
        seq![
            (
                "tools"@,
                JsonV::List(
                    seq![score_tool()].push(findings_tool()).push(rules_tool()).push(
                        explain_tool(),
                    ),
                ),
            ),
        ],
    )
}

fn list() -> (j: Json)
    ensures
        j.deep_view() == tools_json(),
{
    let mut filters = write_paths();
    crate::json::add(&mut filters, "rule", write_prop("Only findings from this rule."));
    crate::json::add(&mut filters, "file", write_prop("Only findings in this file."));
    let mut named = write_paths();
    crate::json::add(
        &mut named,
        "rule",
        write_prop("The rule to explain, for example exit-in-library."),
    );
    let mut tools: Vec<Json> = Vec::new();
    text::push(
        &mut tools,
        write_tool(
            "score",
            "Category scores for the tree on disk, plus how long the scan took.",
            write_paths(),
            None,
        ),
    );
    text::push(
        &mut tools,
        write_tool(
            "findings",
            "The findings. Optional rule and file filters. Each finding includes its rule and category.",
            filters,
            None,
        ),
    );
    text::push(
        &mut tools,
        write_tool(
            "rules",
            "Every rule in force: what it measures, what to do about it, its weight, and whether it is deducting anything.",
            write_paths(),
            None,
        ),
    );
    text::push(
        &mut tools,
        write_tool(
            "explain",
            "One rule, named, in full, plus its findings in this repository.",
            named,
            Some("rule"),
        ),
    );
    assert(tools.deep_view() =~= seq![score_tool()].push(findings_tool()).push(rules_tool()).push(
        explain_tool(),
    ));
    json::holding("tools", Json::list(tools))
}

// --- reading a call ----------------------------------------------------------

/// A text that has to be given, without the space around it.
pub open spec fn given(args: JsonV, key: Text) -> Option<Text> {
    match json::str_of(json::field_of(args, key)) {
        Some(s) => if text::trimmed(s).len() > 0 {
            Some(text::trimmed(s))
        } else {
            None
        },
        None => None,
    }
}

fn read_given(args: &Json, key: &str) -> (s: Option<String>)
    ensures
        s.deep_view() == given(args.deep_view(), key@),
{
    match args.get(key) {
        Some(Json::Str(s)) => {
            let s = text::trim(s.as_str());
            if text::is_empty(s.as_str()) {
                None
            } else {
                Some(s)
            }
        },
        _ => None,
    }
}

pub open spec fn filter(args: JsonV, key: Text) -> Option<Text> {
    json::str_of(json::field_of(args, key))
}

fn read_filter(args: &Json, key: &str) -> (s: Option<String>)
    ensures
        s.deep_view() == filter(args.deep_view(), key@),
{
    match args.get(key) {
        Some(Json::Str(s)) => Some(s.clone()),
        _ => None,
    }
}

/// The tree a call names.
pub open spec fn root_of(args: JsonV) -> Option<Text> {
    match json::str_of(json::field_of(args, "path"@)) {
        Some(s) => if s.len() > 0 {
            Some(s)
        } else {
            None
        },
        None => None,
    }
}

fn read_root(args: &Json) -> (s: Option<String>)
    ensures
        s.deep_view() == root_of(args.deep_view()),
{
    match args.get("path") {
        Some(Json::Str(s)) => {
            if text::is_empty(s.as_str()) {
                None
            } else {
                Some(s.clone())
            }
        },
        _ => None,
    }
}

pub open spec fn args_of(params: JsonV) -> JsonV {
    match json::field_of(params, "arguments"@) {
        Some(args) => args,
        None => JsonV::Object(seq![]),
    }
}

/// The call that `tools/call` is given, or what is wrong with it.
pub open spec fn call_of(params: JsonV) -> Result<CallV, TroubleV> {
    let name = json::str_or(json::field_of(params, "name"@), seq![]);
    let args = args_of(params);
    if name == "score"@ {
        Ok(CallV { tool: ToolV::Score, path: root_of(args) })
    } else if name == "findings"@ {
        Ok(
            CallV {
                tool: ToolV::Findings { rule: filter(args, "rule"@), file: filter(args, "file"@) },
                path: root_of(args),
            },
        )
    } else if name == "rules"@ {
        Ok(CallV { tool: ToolV::Rules, path: root_of(args) })
    } else if name == "explain"@ {
        match given(args, "rule"@) {
            Some(rule) => Ok(CallV { tool: ToolV::Explain { name: rule }, path: root_of(args) }),
            None => Err(TroubleV::Missing("explain needs the name of a rule."@)),
        }
    } else if name.len() == 0 {
        Err(TroubleV::Missing("tools/call needs the name of a tool."@))
    } else {
        Err(
            TroubleV::Missing(
                "there is no tool named '"@ + name
                    + "'. cqx mcp has score, findings, rules and explain."@,
            ),
        )
    }
}

fn read_call(params: &Json) -> (r: Result<Call, Trouble>)
    ensures
        match r {
            Ok(call) => call_of(params.deep_view()) == Ok::<CallV, TroubleV>(call.deep_view()),
            Err(e) => call_of(params.deep_view()) == Err::<CallV, TroubleV>(e.deep_view()),
        },
{
    let none = text::empty();
    let name = params.text_at("name", none.as_str());
    let empty = Json::object(json::no_fields());
    let args = match params.get("arguments") {
        Some(args) => args,
        None => &empty,
    };
    let path = read_root(args);
    let name = name.as_str();
    if text::same(name, "score") {
        Ok(Call { tool: Tool::Score, path })
    } else if text::same(name, "findings") {
        let tool = Tool::Findings {
            rule: read_filter(args, "rule"),
            file: read_filter(args, "file"),
        };
        Ok(Call { tool, path })
    } else if text::same(name, "rules") {
        Ok(Call { tool: Tool::Rules, path })
    } else if text::same(name, "explain") {
        match read_given(args, "rule") {
            Some(rule) => Ok(Call { tool: Tool::Explain { name: rule }, path }),
            None => Err(Trouble::Missing("explain needs the name of a rule.".to_owned())),
        }
    } else if text::is_empty(name) {
        Err(Trouble::Missing("tools/call needs the name of a tool.".to_owned()))
    } else {
        Err(
            Trouble::Missing(
                text::cat3(
                    "there is no tool named '",
                    name,
                    "'. cqx mcp has score, findings, rules and explain.",
                ),
            ),
        )
    }
}

// --- reading a line ----------------------------------------------------------

pub open spec fn parse_error() -> AskV {
    AskV::Reply(error_value(JsonV::Null, PARSE_ERROR, "Parse error"@))
}

pub open spec fn called(id: JsonV, params: JsonV) -> AskV {
    match call_of(params) {
        Ok(call) => AskV::Scan(id, call),
        Err(trouble) => AskV::Reply(ok_value(id, fail_json(trouble.message()))),
    }
}

/// What a message calls for. One without an `id` is a notification and must not
/// be answered; `id: null` is a request.
pub open spec fn asked(message: Seq<(Text, JsonV)>) -> AskV {
    match table::lookup(message, "id"@) {
        None => AskV::Nothing,
        Some(id) => {
            let method = json::str_or(table::lookup(message, "method"@), seq![]);
            let params = match table::lookup(message, "params"@) {
                Some(params) => params,
                None => JsonV::Object(seq![]),
            };
            if method == "initialize"@ {
                AskV::Reply(ok_value(id, server_json()))
            } else if method == "tools/list"@ {
                AskV::Reply(ok_value(id, tools_json()))
            } else if method == "tools/call"@ {
                called(id, params)
            } else {
                AskV::Reply(error_value(id, METHOD_NOT_FOUND, "Method not found"@))
            }
        },
    }
}

/// What a line calls for.
pub open spec fn line_asks(line: Text) -> AskV {
    let line = text::trimmed(line);
    if line.len() == 0 {
        AskV::Nothing
    } else {
        match json::json_read(line) {
            Some(JsonV::Object(message)) => asked(message),
            _ => parse_error(),
        }
    }
}

/// What is to be done is what a line calls for.
pub open spec fn meets(ask: Ask, wanted: AskV) -> bool {
    match (ask, wanted) {
        (Ask::Nothing, AskV::Nothing) => true,
        (Ask::Reply(s), AskV::Reply(value)) => writes(s@, value),
        (Ask::Scan(id, call), AskV::Scan(wanted_id, wanted_call)) => id.deep_view() == wanted_id
            && call.deep_view() == wanted_call,
        _ => false,
    }
}

fn read_message(message: &Vec<(String, Json)>) -> (ask: Ask)
    ensures
        meets(ask, asked(message.deep_view())),
{
    let id = match json::field(message, "id") {
        Some(id) => id,
        None => return Ask::Nothing,
    };
    let method = match json::field(message, "method") {
        Some(Json::Str(s)) => s.clone(),
        _ => text::empty(),
    };
    let empty = Json::object(json::no_fields());
    let params = match json::field(message, "params") {
        Some(params) => params,
        None => &empty,
    };
    let method = method.as_str();
    if text::same(method, "initialize") {
        Ask::Reply(ok_reply(id, initialize_result()))
    } else if text::same(method, "tools/list") {
        Ask::Reply(ok_reply(id, list()))
    } else if text::same(method, "tools/call") {
        match read_call(params) {
            Ok(call) => Ask::Scan(id.copy(), call),
            Err(trouble) => Ask::Reply(ok_reply(id, fail(trouble.message()))),
        }
    } else {
        Ask::Reply(error_reply(id, METHOD_NOT_FOUND, "Method not found"))
    }
}

/// One message in, at most one line out. Nothing that a line can hold ends the
/// conversation.
pub fn handle_line(line: &str) -> (ask: Ask)
    ensures
        meets(ask, line_asks(line@)),
{
    let line = text::trim(line);
    if text::is_empty(line.as_str()) {
        return Ask::Nothing;
    }
    if let Some(parsed) = Json::parse(line.as_str()) {
        if let Some(message) = parsed.as_object() {
            return read_message(message);
        }
    }
    Ask::Reply(error_reply(&Json::Null, PARSE_ERROR, "Parse error"))
}

/// A line goes unanswered exactly when it is empty or a notification.
pub proof fn lemma_silent(line: Text)
    ensures
        line_asks(line) is Nothing <==> text::trimmed(line).len() == 0 || (match json::json_read(
            text::trimmed(line),
        ) {
            Some(JsonV::Object(message)) => table::lookup(message, "id"@) is None,
            _ => false,
        }),
{
}

proof fn lemma_id_carried(id: JsonV, key: Text, held: JsonV)
    ensures
        json::field_of(
            JsonV::Object(
                seq![("jsonrpc"@, JsonV::Str("2.0"@))].push(("id"@, id)).push((key, held)),
            ),
            "id"@,
        ) == Some(id),
{
    broadcast use table::lemma_lookup_push;

    let start = seq![("jsonrpc"@, JsonV::Str("2.0"@))];
    reveal_strlit("jsonrpc");
    reveal_strlit("id");
    assert("jsonrpc"@.len() != "id"@.len());
    assert(start.skip(1) =~= seq![]);
    assert(table::lookup(start, "id"@) is None);
    assert(table::lookup(start.push(("id"@, id)), "id"@) == Some(id));
}

/// An answer carries the id of the message it answers.
pub proof fn lemma_id_echoed(message: Seq<(Text, JsonV)>, id: JsonV)
    requires
        table::lookup(message, "id"@) == Some(id),
    ensures
        match asked(message) {
            AskV::Nothing => false,
            AskV::Reply(value) => json::field_of(value, "id"@) == Some(id),
            AskV::Scan(held, _) => held == id,
        },
        forall|result: JsonV| json::field_of(#[trigger] ok_value(id, result), "id"@) == Some(id),
{
    assert forall|result: JsonV|
        json::field_of(#[trigger] ok_value(id, result), "id"@) == Some(id) by {
        lemma_id_carried(id, "result"@, result);
    }
    if let AskV::Reply(value) = asked(message) {
        let error = JsonV::Object(
            seq![("code"@, JsonV::Minus(METHOD_NOT_FOUND))].push(
                ("message"@, JsonV::Str("Method not found"@)),
            ),
        );
        lemma_id_carried(id, "error"@, error);
    }
}

/// Whatever `tools/call` is given, the reply is a result and never a protocol
/// error.
pub proof fn lemma_call_is_answered(id: JsonV, params: JsonV)
    ensures
        match called(id, params) {
            AskV::Nothing => false,
            AskV::Reply(value) => exists|result: JsonV| value == ok_value(id, result),
            AskV::Scan(held, _) => held == id,
        },
{
}

// --- answering a call --------------------------------------------------------

pub open spec fn field_or(value: JsonV, key: Text, other: JsonV) -> JsonV {
    match json::field_of(value, key) {
        Some(v) => v,
        None => other,
    }
}

fn take_or(value: &Json, key: &str, other: Json) -> (j: Json)
    ensures
        j.deep_view() == field_or(value.deep_view(), key@, other.deep_view()),
{
    match value.get(key) {
        Some(v) => v.copy(),
        None => other,
    }
}

pub open spec fn score_answer(report: JsonV) -> JsonV {
    JsonV::Object(
        seq![("scores"@, field_or(report, "scores"@, JsonV::Object(seq![])))].push(
            ("scan"@, field_or(report, "scan"@, JsonV::Object(seq![]))),
        ),
    )
}

fn score(report: &Json) -> (j: Json)
    ensures
        j.deep_view() == score_answer(report.deep_view()),
{
    let mut fields = json::no_fields();
    crate::json::add(
        &mut fields,
        "scores",
        take_or(report, "scores", Json::object(json::no_fields())),
    );
    crate::json::add(
        &mut fields,
        "scan",
        take_or(report, "scan", Json::object(json::no_fields())),
    );
    assert(fields.deep_view() =~= score_answer(report.deep_view())->Object_0);
    Json::object(fields)
}

pub open spec fn last_part(s: Text) -> Option<Text> {
    match text::cut_last(s, "/"@) {
        Some((_, name)) => Some(name),
        None => None,
    }
}

/// Two names of one rule: the same, or the same but for the language before it.
pub open spec fn is_same_rule(have: Text, want: Text) -> bool {
    have == want || last_part(want) == Some(have) || last_part(have) == Some(want)
}

fn same_rule(have: &str, want: &str) -> (r: bool)
    ensures
        r == is_same_rule(have@, want@),
{
    if text::same(have, want) {
        return true;
    }
    if let Some((_, name)) = text::rsplit_once(want, "/") {
        if text::same(name.as_str(), have) {
            return true;
        }
    }
    match text::rsplit_once(have, "/") {
        Some((_, name)) => text::same(name.as_str(), want),
        None => false,
    }
}

/// A file is the one that is meant: by its whole path, or by the end of it.
pub open spec fn is_file(file: Text, want: Text) -> bool {
    let file = text::replaced(file, '\\', "/"@);
    let want = text::replaced(want, '\\', "/"@);
    file == want || text::has_suffix(file, "/"@ + want)
}

fn file_matches(file: &str, want: &str) -> (r: bool)
    ensures
        r == is_file(file@, want@),
{
    let file = text::replace(file, '\\', "/");
    let want = text::replace(want, '\\', "/");
    text::same(file.as_str(), want.as_str()) || text::ends_with(
        file.as_str(),
        text::cat("/", want.as_str()).as_str(),
    )
}

/// A finding that carries its rule and category. A flat list that has to be
/// put together with the rules again is one that will be put together wrong.
pub open spec fn tagged(finding: JsonV, rule: Text, category: Text) -> JsonV {
    match finding {
        JsonV::Object(fields) => JsonV::Object(
            json::with_field(
                json::with_field(fields, "rule"@, JsonV::Str(rule)),
                "category"@,
                JsonV::Str(category),
            ),
        ),
        _ => finding,
    }
}

fn tag(finding: &Json, rule: &str, category: &str) -> (j: Json)
    ensures
        j.deep_view() == tagged(finding.deep_view(), rule@, category@),
{
    match finding.as_object() {
        Some(fields) => {
            let mut fields = json::copy_fields(fields);
            json::set_field(&mut fields, "rule", Json::str(rule));
            json::set_field(&mut fields, "category", Json::str(category));
            Json::object(fields)
        },
        None => finding.copy(),
    }
}

pub open spec fn is_wanted(finding: JsonV, file: Option<Text>) -> bool {
    match file {
        Some(want) => is_file(json::str_or(json::field_of(finding, "file"@), seq![]), want),
        None => true,
    }
}

/// The findings of one rule that a filter lets through, among the first `n`.
pub open spec fn rule_findings(
    out: Seq<JsonV>,
    rule: JsonV,
    file: Option<Text>,
    n: nat,
) -> Seq<JsonV>
    decreases n,
{
    if n == 0 {
        out
    } else {
        let before = rule_findings(out, rule, file, (n - 1) as nat);
        let finding = scan::findings_of(rule)[n - 1];
        if is_wanted(finding, file) {
            before.push(
                tagged(
                    finding,
                    json::str_or(json::field_of(rule, "rule"@), seq![]),
                    json::str_or(json::field_of(rule, "category"@), seq![]),
                ),
            )
        } else {
            before
        }
    }
}

fn add_findings(out: &mut Vec<Json>, rule: &Json, file: &Option<String>)
    ensures
        final(out).deep_view() == rule_findings(
            old(out).deep_view(),
            rule.deep_view(),
            file.deep_view(),
            scan::findings_of(rule.deep_view()).len(),
        ),
{
    let none = text::empty();
    let name = rule.text_at("rule", none.as_str());
    let category = rule.text_at("category", none.as_str());
    let ghost start = out.deep_view();
    if let Some(held) = rule.get("findings") {
        if let Some(findings) = held.as_list() {
            let mut i: usize = 0;
            while i < findings.len()
                invariant
                    i <= findings.len(),
                    none@ == Seq::<char>::empty(),
                    findings.deep_view() == scan::findings_of(rule.deep_view()),
                    name@ == json::str_or(json::field_of(rule.deep_view(), "rule"@), seq![]),
                    category@ == json::str_or(
                        json::field_of(rule.deep_view(), "category"@),
                        seq![],
                    ),
                    out.deep_view() == rule_findings(
                        start,
                        rule.deep_view(),
                        file.deep_view(),
                        i as nat,
                    ),
                decreases findings.len() - i,
            {
                let finding = &findings[i];
                assert(findings.deep_view()[i as int] == finding.deep_view());
                let wanted: bool = match file {
                    Some(want) => file_matches(
                        finding.text_at("file", none.as_str()).as_str(),
                        want.as_str(),
                    ),
                    None => true,
                };
                if wanted {
                    text::push(out, tag(finding, name.as_str(), category.as_str()));
                }
                i += 1;
            }
        }
    }
}

pub open spec fn is_wanted_rule(rule: JsonV, want: Option<Text>) -> bool {
    match want {
        Some(want) => is_same_rule(json::str_or(json::field_of(rule, "rule"@), seq![]), want),
        None => true,
    }
}

pub open spec fn all_findings(
    rules: Seq<JsonV>,
    rule: Option<Text>,
    file: Option<Text>,
    n: nat,
) -> Seq<JsonV>
    decreases n,
{
    if n == 0 {
        seq![]
    } else {
        let before = all_findings(rules, rule, file, (n - 1) as nat);
        if is_wanted_rule(rules[n - 1], rule) {
            rule_findings(before, rules[n - 1], file, scan::findings_of(rules[n - 1]).len())
        } else {
            before
        }
    }
}

fn rules_in<'a>(report: &'a Json, none: &'a Vec<Json>) -> (rules: &'a Vec<Json>)
    requires
        none@.len() == 0,
    ensures
        rules.deep_view() == scan::rules_of(report.deep_view()),
{
    assert(none.deep_view() =~= seq![]);
    match report.get("rules") {
        Some(held) => match held.as_list() {
            Some(rules) => rules,
            None => none,
        },
        None => none,
    }
}

fn collect_findings(report: &Json, rule: &Option<String>, file: &Option<String>) -> (j: Json)
    ensures
        j.deep_view() == JsonV::List(
            all_findings(
                scan::rules_of(report.deep_view()),
                rule.deep_view(),
                file.deep_view(),
                scan::rules_of(report.deep_view()).len(),
            ),
        ),
{
    let none: Vec<Json> = Vec::new();
    let rules = rules_in(report, &none);
    let blank = text::empty();
    let mut out: Vec<Json> = Vec::new();
    assert(out.deep_view() =~= seq![]);
    let mut i: usize = 0;
    while i < rules.len()
        invariant
            i <= rules.len(),
            blank@ == Seq::<char>::empty(),
            out.deep_view() == all_findings(
                rules.deep_view(),
                rule.deep_view(),
                file.deep_view(),
                i as nat,
            ),
        decreases rules.len() - i,
    {
        assert(rules.deep_view()[i as int] == rules@[i as int].deep_view());
        let wanted: bool = match rule {
            Some(want) => same_rule(
                rules[i].text_at("rule", blank.as_str()).as_str(),
                want.as_str(),
            ),
            None => true,
        };
        if wanted {
            add_findings(&mut out, &rules[i], file);
        }
        i += 1;
    }
    Json::list(out)
}

/// Whether a rule is deducting anything.
pub open spec fn is_deducting(rule: JsonV) -> bool {
    measure::below(0, scan::cost_of(rule))
}

pub open spec fn rule_answer(rule: JsonV) -> JsonV {
    JsonV::Object(
        seq![("name"@, JsonV::Str(json::str_or(json::field_of(rule, "rule"@), seq![])))].push(
            ("category"@, JsonV::Str(json::str_or(json::field_of(rule, "category"@), seq![]))),
        ).push(
            ("describes"@, JsonV::Str(json::str_or(json::field_of(rule, "describes"@), seq![]))),
        ).push(
            ("remedy"@, JsonV::Str(json::str_or(json::field_of(rule, "remedy"@), seq![]))),
        ).push(("weight"@, field_or(rule, "weight"@, JsonV::Whole(0)))).push(
            ("deducting"@, JsonV::Bool(is_deducting(rule))),
        ),
    )
}

fn write_rule(rule: &Json) -> (j: Json)
    ensures
        j.deep_view() == rule_answer(rule.deep_view()),
{
    let none = text::empty();
    let mut fields = json::no_fields();
    crate::json::add(&mut fields, "name", Json::Str(rule.text_at("rule", none.as_str())));
    crate::json::add(
        &mut fields,
        "category",
        Json::Str(rule.text_at("category", none.as_str())),
    );
    crate::json::add(
        &mut fields,
        "describes",
        Json::Str(rule.text_at("describes", none.as_str())),
    );
    crate::json::add(&mut fields, "remedy", Json::Str(rule.text_at("remedy", none.as_str())));
    crate::json::add(&mut fields, "weight", take_or(rule, "weight", Json::Whole(0)));
    crate::json::add(
        &mut fields,
        "deducting",
        Json::Bool(measure::is_below(0, scan::cost(rule))),
    );
    assert(fields.deep_view() =~= rule_answer(rule.deep_view())->Object_0);
    Json::object(fields)
}

fn collect_rules(report: &Json) -> (j: Json)
    ensures
        j.deep_view() == JsonV::List(
            Seq::new(
                scan::rules_of(report.deep_view()).len(),
                |i: int| rule_answer(scan::rules_of(report.deep_view())[i]),
            ),
        ),
{
    let none: Vec<Json> = Vec::new();
    let rules = rules_in(report, &none);
    let ghost held = rules.deep_view();
    let mut out: Vec<Json> = Vec::new();
    let mut i: usize = 0;
    while i < rules.len()
        invariant
            i <= rules.len(),
            held == rules.deep_view(),
            out.deep_view() == Seq::new(i as nat, |k: int| rule_answer(held[k])),
        decreases rules.len() - i,
    {
        assert(held[i as int] == rules@[i as int].deep_view());
        text::push(&mut out, write_rule(&rules[i]));
        assert(out.deep_view() =~= Seq::new((i + 1) as nat, |k: int| rule_answer(held[k])));
        i += 1;
    }
    assert(out.deep_view() =~= Seq::new(
        scan::rules_of(report.deep_view()).len(),
        |i: int| rule_answer(scan::rules_of(report.deep_view())[i]),
    ));
    Json::list(out)
}

/// The first rule of a name from the `n`th on.
pub open spec fn rule_from(rules: Seq<JsonV>, want: Text, n: nat) -> Option<JsonV>
    decreases rules.len() - n,
{
    if n >= rules.len() {
        None
    } else {
        match json::str_of(json::field_of(rules[n as int], "rule"@)) {
            Some(name) if is_same_rule(name, want) => Some(rules[n as int]),
            _ => rule_from(rules, want, n + 1),
        }
    }
}

fn rule_in_report<'a>(rules: &'a Vec<Json>, want: &str) -> (rule: Option<&'a Json>)
    ensures
        rule.deep_view() == rule_from(rules.deep_view(), want@, 0),
{
    let mut i: usize = 0;
    while i < rules.len()
        invariant
            i <= rules.len(),
            rule_from(rules.deep_view(), want@, 0) == rule_from(
                rules.deep_view(),
                want@,
                i as nat,
            ),
        decreases rules.len() - i,
    {
        assert(rules.deep_view()[i as int] == rules@[i as int].deep_view());
        if let Some(Json::Str(name)) = rules[i].get("rule") {
            if same_rule(name.as_str(), want) {
                return Some(&rules[i]);
            }
        }
        i += 1;
    }
    None
}

/// The rules that a report was made by.
pub open spec fn configured(report: JsonV) -> Seq<(Text, JsonV)> {
    match json::field_of(report, "config"@) {
        Some(config) => json::fields_of(json::field_of(config, "rules"@)),
        None => seq![],
    }
}

/// The first configured rule of a name from the `n`th on.
pub open spec fn configured_from(rules: Seq<(Text, JsonV)>, want: Text, n: nat) -> Option<JsonV>
    decreases rules.len() - n,
{
    if n >= rules.len() {
        None
    } else if is_same_rule(rules[n as int].0, want) {
        Some(rules[n as int].1)
    } else {
        configured_from(rules, want, n + 1)
    }
}

/// A rule by its exact name, or else by another name of it.
pub open spec fn in_config(report: JsonV, want: Text) -> Option<JsonV> {
    match table::lookup(configured(report), want) {
        Some(rule) => Some(rule),
        None => configured_from(configured(report), want, 0),
    }
}

fn rule_in_config<'a>(report: &'a Json, want: &str) -> (rule: Option<&'a Json>)
    ensures
        rule.deep_view() == in_config(report.deep_view(), want@),
{
    let config = match report.get("config") {
        Some(config) => config,
        None => return None,
    };
    let held = match config.get("rules") {
        Some(held) => held,
        None => return None,
    };
    let rules = match held.as_object() {
        Some(rules) => rules,
        None => return None,
    };
    if let Some(rule) = json::field(rules, want) {
        return Some(rule);
    }
    let mut i: usize = 0;
    while i < rules.len()
        invariant
            i <= rules.len(),
            rules.deep_view() == configured(report.deep_view()),
            table::lookup(rules.deep_view(), want@) is None,
            configured_from(rules.deep_view(), want@, 0) == configured_from(
                rules.deep_view(),
                want@,
                i as nat,
            ),
        decreases rules.len() - i,
    {
        assert(rules.deep_view()[i as int] == rules@[i as int].deep_view());
        if same_rule(rules[i].0.as_str(), want) {
            return Some(&rules[i].1);
        }
        i += 1;
    }
    None
}

pub open spec fn description(
    rule: JsonV,
    name: Text,
    deducting: bool,
    findings: JsonV,
) -> JsonV {
    let blank = JsonV::Str(seq![]);
    JsonV::Object(
        seq![("name"@, JsonV::Str(name))].push(("category"@, field_or(rule, "category"@, blank))).push(
            ("describes"@, field_or(rule, "describes"@, blank)),
        ).push(("remedy"@, field_or(rule, "remedy"@, blank))).push(
            ("weight"@, field_or(rule, "weight"@, JsonV::Whole(0))),
        ).push(("deducting"@, JsonV::Bool(deducting))).push(("findings"@, findings)),
    )
}

fn describe(rule: &Json, name: String, deducting: bool, findings: Json) -> (j: Json)
    ensures
        j.deep_view() == description(
            rule.deep_view(),
            name@,
            deducting,
            findings.deep_view(),
        ),
{
    let mut fields = json::no_fields();
    crate::json::add(&mut fields, "name", Json::Str(name));
    crate::json::add(&mut fields, "category", take_or(rule, "category", Json::Str(text::empty())));
    crate::json::add(
        &mut fields,
        "describes",
        take_or(rule, "describes", Json::Str(text::empty())),
    );
    crate::json::add(&mut fields, "remedy", take_or(rule, "remedy", Json::Str(text::empty())));
    crate::json::add(&mut fields, "weight", take_or(rule, "weight", Json::Whole(0)));
    crate::json::add(&mut fields, "deducting", Json::Bool(deducting));
    crate::json::add(&mut fields, "findings", findings);
    assert(fields.deep_view() =~= description(
        rule.deep_view(),
        name@,
        deducting,
        findings.deep_view(),
    )->Object_0);
    Json::object(fields)
}

/// One rule in full. A rule can be configured and still absent from a report,
/// and its description is an answer all the same.
pub open spec fn explanation(report: JsonV, want: Text) -> Result<JsonV, TroubleV> {
    match rule_from(scan::rules_of(report), want, 0) {
        Some(rule) => Ok(
            description(
                rule,
                json::str_or(json::field_of(rule, "rule"@), want),
                is_deducting(rule),
                field_or(rule, "findings"@, JsonV::List(seq![])),
            ),
        ),
        None => match in_config(report, want) {
            Some(rule) => Ok(description(rule, want, false, JsonV::List(seq![]))),
            None => Err(TroubleV::NoSuchRule(want)),
        },
    }
}

fn no_items() -> (j: Json)
    ensures
        j.deep_view() == JsonV::List(seq![]),
{
    let none: Vec<Json> = Vec::new();
    assert(none.deep_view() =~= seq![]);
    Json::list(none)
}

fn explain(report: &Json, want: &str) -> (r: Result<Json, Trouble>)
    ensures
        shown(r) == explanation(report.deep_view(), want@),
{
    let none: Vec<Json> = Vec::new();
    if let Some(rule) = rule_in_report(rules_in(report, &none), want) {
        let name = rule.text_at("rule", want);
        let deducting = measure::is_below(0, scan::cost(rule));
        let findings = take_or(rule, "findings", no_items());
        return Ok(describe(rule, name, deducting, findings));
    }
    if let Some(rule) = rule_in_config(report, want) {
        return Ok(describe(rule, want.to_owned(), false, no_items()));
    }
    Err(Trouble::NoSuchRule(want.to_owned()))
}

/// What a tool answers about a report.
pub open spec fn tool_answer(tool: ToolV, report: JsonV) -> Result<JsonV, TroubleV> {
    match tool {
        ToolV::Score => Ok(score_answer(report)),
        ToolV::Findings { rule, file } => {
            let rules = scan::rules_of(report);
            Ok(
                JsonV::Object(
                    seq![
                        (
                            "findings"@,
                            JsonV::List(all_findings(rules, rule, file, rules.len())),
                        ),
                    ],
                ),
            )
        },
        ToolV::Rules => {
            let rules = scan::rules_of(report);
            Ok(
                JsonV::Object(
                    seq![
                        (
                            "rules"@,
                            JsonV::List(Seq::new(rules.len(), |i: int| rule_answer(rules[i]))),
                        ),
                    ],
                ),
            )
        },
        ToolV::Explain { name } => explanation(report, name),
    }
}

fn run_tool(tool: &Tool, report: &Json) -> (r: Result<Json, Trouble>)
    ensures
        shown(r) == tool_answer(tool.deep_view(), report.deep_view()),
{
    match tool {
        Tool::Score => Ok(score(report)),
        Tool::Findings { rule, file } => {
            Ok(json::holding("findings", collect_findings(report, rule, file)))
        },
        Tool::Rules => {
            let rules = collect_rules(report);
            let ghost held = scan::rules_of(report.deep_view());
            assert(rules.deep_view()->List_0 =~= Seq::new(
                held.len(),
                |i: int| rule_answer(held[i]),
            ));
            Ok(json::holding("rules", rules))
        },
        Tool::Explain { name } => explain(report, name.as_str()),
    }
}

/// What a call is answered, given the report of its tree or why there is none.
pub open spec fn answered(tool: ToolV, report: Result<JsonV, Text>) -> JsonV {
    match report {
        Ok(report) => wrapped(tool_answer(tool, report)),
        Err(why) => fail_json(why),
    }
}

/// The line that answers a call.
pub fn answer(id: &Json, tool: &Tool, report: &Result<Json, String>) -> (s: String)
    ensures
        writes(
            s@,
            ok_value(
                id.deep_view(),
                answered(
                    tool.deep_view(),
                    match *report {
                        Ok(report) => Ok(report.deep_view()),
                        Err(why) => Err(why@),
                    },
                ),
            ),
        ),
{
    let result = match report {
        Ok(report) => {
            let answer = run_tool(tool, report);
            wrap(&answer)
        },
        Err(why) => fail(why.clone()),
    };
    ok_reply(id, result)
}

proof fn lemma_rule_findings(out: Seq<JsonV>, rule: JsonV, file: Text, n: nat)
    requires
        forall|i: int| 0 <= i < out.len() ==> from_file(#[trigger] out[i], file),
    ensures
        forall|i: int|
            0 <= i < rule_findings(out, rule, Some(file), n).len() ==> from_file(
                #[trigger] rule_findings(out, rule, Some(file), n)[i],
                file,
            ),
    decreases n,
{
    if n > 0 {
        lemma_rule_findings(out, rule, file, (n - 1) as nat);
        let before = rule_findings(out, rule, Some(file), (n - 1) as nat);
        let after = rule_findings(out, rule, Some(file), n);
        let finding = scan::findings_of(rule)[n - 1];
        assert forall|i: int| 0 <= i < after.len() implies from_file(#[trigger] after[i], file) by {
            if i < before.len() {
                assert(after[i] == before[i]);
            } else {
                lemma_tagged_file(
                    finding,
                    json::str_or(json::field_of(rule, "rule"@), seq![]),
                    json::str_or(json::field_of(rule, "category"@), seq![]),
                );
            }
        }
    }
}

proof fn lemma_tagged_file(finding: JsonV, rule: Text, category: Text)
    ensures
        json::field_of(tagged(finding, rule, category), "file"@) == json::field_of(
            finding,
            "file"@,
        ),
{
    if let JsonV::Object(fields) = finding {
        reveal_strlit("file");
        reveal_strlit("rule");
        reveal_strlit("category");
        assert("file"@[0] != "rule"@[0]);
        assert("file"@.len() != "category"@.len());
        json::lemma_with_field(fields, "rule"@, JsonV::Str(rule), "file"@);
        json::lemma_with_field(
            json::with_field(fields, "rule"@, JsonV::Str(rule)),
            "category"@,
            JsonV::Str(category),
            "file"@,
        );
    }
}

/// A finding in the file that is meant.
pub open spec fn from_file(finding: JsonV, file: Text) -> bool {
    is_file(json::str_or(json::field_of(finding, "file"@), seq![]), file)
}

/// The findings that are asked for in one file are in that file.
pub proof fn lemma_findings_in_file(rules: Seq<JsonV>, rule: Option<Text>, file: Text, n: nat)
    ensures
        forall|i: int|
            0 <= i < all_findings(rules, rule, Some(file), n).len() ==> from_file(
                #[trigger] all_findings(rules, rule, Some(file), n)[i],
                file,
            ),
    decreases n,
{
    if n > 0 {
        lemma_findings_in_file(rules, rule, file, (n - 1) as nat);
        lemma_rule_findings(
            all_findings(rules, rule, Some(file), (n - 1) as nat),
            rules[n - 1],
            file,
            scan::findings_of(rules[n - 1]).len(),
        );
    }
}

// --- raising the standard ----------------------------------------------------

/// A change to a rule that somebody asks for, and why.
pub struct Wanted {
    pub rule: String,
    pub field: String,
    pub value: String,
    pub because: String,
}

pub struct WantedV {
    pub rule: Text,
    pub field: Text,
    pub value: Text,
    pub because: Text,
}

impl DeepView for Wanted {
    type V = WantedV;

    open spec fn deep_view(&self) -> WantedV {
        WantedV {
            rule: self.rule@,
            field: self.field@,
            value: self.value@,
            because: self.because@,
        }
    }
}

/// A value as it would be typed.
pub open spec fn typed(value: Option<JsonV>) -> Option<Text> {
    match value {
        Some(JsonV::Str(s)) => Some(s),
        Some(JsonV::Bool(b)) => Some(json::json_written(json::json_stored(JsonV::Bool(b)))),
        Some(v) => if json::is_number(v) {
            Some(json::json_written(json::json_stored(v)))
        } else {
            None
        },
        None => None,
    }
}

fn read_typed(value: Option<&Json>) -> (s: Option<String>)
    ensures
        s.deep_view() == typed(value.deep_view()),
{
    match value {
        Some(Json::Str(s)) => Some(s.clone()),
        Some(Json::Bool(b)) => Some(Json::Bool(*b).write()),
        Some(Json::Whole(n)) => Some(Json::Whole(*n).write()),
        Some(Json::Minus(n)) => Some(Json::Minus(*n).write()),
        Some(Json::Part(r)) => Some(Json::Part(r.copy()).write()),
        _ => None,
    }
}

/// The change that is asked for, or what was left out.
pub open spec fn wanted_of(args: JsonV) -> Result<WantedV, TroubleV> {
    match given(args, "rule"@) {
        None => Err(TroubleV::Missing("propose_rule needs the name of a rule."@)),
        Some(rule) => match given(args, "field"@) {
            None => Err(TroubleV::Missing("propose_rule needs the name of a field."@)),
            Some(field) => match given(args, "because"@) {
                None => Err(
                    TroubleV::Missing(
                        "propose_rule needs `because`: why this rule should be stricter. It is kept in cqx.json beside the rule."@,
                    ),
                ),
                Some(because) => match typed(json::field_of(args, "value"@)) {
                    None => Err(
                        TroubleV::Missing(
                            "propose_rule needs a value: a number, or true/false for enabled."@,
                        ),
                    ),
                    Some(value) => Ok(WantedV { rule, field, value, because }),
                },
            },
        },
    }
}

/// Reads what change is asked for. A reason is required: a threshold that
/// somebody finds in a year with no explanation is one nobody dares change.
pub fn read_wanted(args: &Json) -> (r: Result<Wanted, Trouble>)
    ensures
        match r {
            Ok(wanted) => wanted_of(args.deep_view()) == Ok::<WantedV, TroubleV>(
                wanted.deep_view(),
            ),
            Err(e) => wanted_of(args.deep_view()) == Err::<WantedV, TroubleV>(e.deep_view()),
        },
{
    let rule = match read_given(args, "rule") {
        Some(rule) => rule,
        None => return Err(Trouble::Missing("propose_rule needs the name of a rule.".to_owned())),
    };
    let field = match read_given(args, "field") {
        Some(field) => field,
        None => return Err(
            Trouble::Missing("propose_rule needs the name of a field.".to_owned()),
        ),
    };
    let because = match read_given(args, "because") {
        Some(because) => because,
        None => return Err(
            Trouble::Missing(
                "propose_rule needs `because`: why this rule should be stricter. It is kept in cqx.json beside the rule.".to_owned(),
            ),
        ),
    };
    let value = match read_typed(args.get("value")) {
        Some(value) => value,
        None => return Err(
            Trouble::Missing(
                "propose_rule needs a value: a number, or true/false for enabled.".to_owned(),
            ),
        ),
    };
    Ok(Wanted { rule, field, value, because })
}

pub open spec fn objection_line(c: ChangeV) -> Text {
    c.field + " "@ + c.before + " → "@ + c.after + ": "@ + c.why
}

pub open spec fn objection_lines(changes: Seq<ChangeV>) -> Seq<Text> {
    Seq::new(changes.len(), |i: int| objection_line(changes[i]))
}

pub open spec fn any_looser(changes: Seq<ChangeV>) -> bool {
    exists|i: int| 0 <= i < changes.len() && (#[trigger] changes[i]).direction == Direction::Looser
}

fn list_objections(changes: &Vec<Change>) -> (r: (Vec<String>, bool))
    ensures
        r.0.deep_view() == objection_lines(changes.deep_view()),
        r.1 == any_looser(changes.deep_view()),
{
    let mut out: Vec<String> = Vec::new();
    let mut looser = false;
    let mut i: usize = 0;
    while i < changes.len()
        invariant
            i <= changes.len(),
            out.deep_view() == Seq::new(
                i as nat,
                |k: int| objection_line(changes.deep_view()[k]),
            ),
            looser == exists|k: int|
                0 <= k < i && (#[trigger] changes.deep_view()[k]).direction == Direction::Looser,
        decreases changes.len() - i,
    {
        let c = &changes[i];
        assert(changes.deep_view()[i as int] == c.deep_view());
        let mut s = text::cat5(c.field.as_str(), " ", c.before.as_str(), " → ", c.after.as_str());
        text::extend(&mut s, ": ");
        text::extend(&mut s, c.why.as_str());
        text::push(&mut out, s);
        if c.direction == Direction::Looser {
            looser = true;
        }
        assert(out.deep_view() =~= Seq::new(
            (i + 1) as nat,
            |k: int| objection_line(changes.deep_view()[k]),
        ));
        i += 1;
    }
    (out, looser)
}

pub open spec fn direction_name(d: Direction) -> Text {
    match d {
        Direction::Tighter => "tighter"@,
        Direction::Looser => "looser"@,
        Direction::Unclear => "unclear"@,
    }
}

pub open spec fn change_json(c: ChangeV) -> JsonV {
    JsonV::Object(
        seq![("rule"@, JsonV::Str(c.rule))].push(("field"@, JsonV::Str(c.field))).push(
            ("before"@, JsonV::Str(c.before)),
        ).push(("after"@, JsonV::Str(c.after))).push(
            ("direction"@, JsonV::Str(direction_name(c.direction))),
        ).push(("why"@, JsonV::Str(c.why))),
    )
}

pub open spec fn changes_json(changes: Seq<ChangeV>) -> JsonV {
    JsonV::List(Seq::new(changes.len(), |i: int| change_json(changes[i])))
}

/// Changes as a list of objects.
pub fn write_changes(changes: &Vec<Change>) -> (j: Json)
    ensures
        j.deep_view() == changes_json(changes.deep_view()),
{
    let mut items: Vec<Json> = Vec::new();
    let mut i: usize = 0;
    while i < changes.len()
        invariant
            i <= changes.len(),
            items.deep_view() == Seq::new(
                i as nat,
                |k: int| change_json(changes.deep_view()[k]),
            ),
        decreases changes.len() - i,
    {
        let c = &changes[i];
        assert(changes.deep_view()[i as int] == c.deep_view());
        let mut fields = json::no_fields();
        crate::json::add(&mut fields, "rule", Json::str(c.rule.as_str()));
        crate::json::add(&mut fields, "field", Json::str(c.field.as_str()));
        crate::json::add(&mut fields, "before", Json::str(c.before.as_str()));
        crate::json::add(&mut fields, "after", Json::str(c.after.as_str()));
        crate::json::add(&mut fields, "direction", Json::str(c.direction.name()));
        crate::json::add(&mut fields, "why", Json::str(c.why.as_str()));
        assert(fields.deep_view() =~= change_json(c.deep_view())->Object_0);
        text::push(&mut items, Json::object(fields));
        assert(items.deep_view() =~= Seq::new(
            (i + 1) as nat,
            |k: int| change_json(changes.deep_view()[k]),
        ));
        i += 1;
    }
    Json::list(items)
}

pub open spec fn raised_json(wanted: WantedV, p: ProposalV) -> JsonV {
    JsonV::Object(
        seq![("written"@, JsonV::Str(p.path))].push(("rule"@, JsonV::Str(wanted.rule))).push(
            ("field"@, JsonV::Str(wanted.field)),
        ).push(("value"@, p.value)).push(("because"@, JsonV::Str(wanted.because))).push(
            ("changes"@, changes_json(p.changes)),
        ).push(
            (
                "note"@,
                JsonV::Str(
                    "The standard is now stricter. Re-run score to see what it cost."@,
                ),
            ),
        ),
    )
}

/// What becomes of a change that an agent asks for. It is taken only where
/// every difference it makes is a tightening.
pub open spec fn judged(wanted: WantedV, p: ProposalV) -> Result<JsonV, TroubleV> {
    if p.tightens {
        Ok(raised_json(wanted, p))
    } else {
        let objections = ratchet::objected(p.changes, p.changes.len());
        Err(
            TroubleV::NotATightening {
                rule: wanted.rule,
                field: wanted.field,
                loosening: any_looser(objections),
                objections: objection_lines(objections),
                nothing: p.changes.len() == 0,
            },
        )
    }
}

/// Raises the standard, and only ever raises it: what is answered once a change
/// has been worked out. Where the answer is no refusal, the proposal is to be
/// written.
pub fn propose_rule(wanted: &Wanted, proposal: &Result<Proposal, String>) -> (r: Result<Json, Trouble>)
    ensures
        shown(r) == (match *proposal {
            Ok(p) => judged(wanted.deep_view(), p.deep_view()),
            Err(e) => Err(TroubleV::Analysis(e@)),
        }),
{
    let p = match proposal {
        Ok(p) => p,
        Err(e) => return Err(Trouble::Analysis(e.clone())),
    };
    if !p.tightens {
        let (objections, loosening) = list_objections(&p.objections());
        return Err(
            Trouble::NotATightening {
                rule: wanted.rule.clone(),
                field: wanted.field.clone(),
                loosening,
                objections,
                nothing: p.changes.len() == 0,
            },
        );
    }
    let mut fields = json::no_fields();
    crate::json::add(&mut fields, "written", Json::str(p.path.as_str()));
    crate::json::add(&mut fields, "rule", Json::str(wanted.rule.as_str()));
    crate::json::add(&mut fields, "field", Json::str(wanted.field.as_str()));
    crate::json::add(&mut fields, "value", p.value.copy());
    crate::json::add(&mut fields, "because", Json::str(wanted.because.as_str()));
    crate::json::add(&mut fields, "changes", write_changes(&p.changes));
    crate::json::add(
        &mut fields,
        "note",
        Json::str("The standard is now stricter. Re-run score to see what it cost."),
    );
    assert(fields.deep_view() =~= raised_json(wanted.deep_view(), p.deep_view())->Object_0);
    Ok(Json::object(fields))
}

/// An agent can only raise the standard: where a change it asked for is not
/// refused, every difference that the change makes is a tightening.
pub proof fn lemma_agent_only_tightens(
    wanted: WantedV,
    path: Text,
    before: ConfigV,
    document: JsonV,
    number: Option<RealV>,
)
    requires
        ({
            let p = edit::proposed(
                path,
                before,
                document,
                wanted.rule,
                wanted.field,
                wanted.value,
                number,
                Some(wanted.because),
            );
            p is Ok && judged(wanted, p->Ok_0) is Ok
        }),
    ensures
        ({
            let p = edit::proposed(
                path,
                before,
                document,
                wanted.rule,
                wanted.field,
                wanted.value,
                number,
                Some(wanted.because),
            )->Ok_0;
            let after = edit::config_applied(before, wanted.rule, wanted.field, p.value);
            &&& ratchet::all_tighten(ratchet::differences(before, after))
            &&& !ratchet::all_tighten(ratchet::differences(after, before))
        }),
{
    let p = edit::proposed(
        path,
        before,
        document,
        wanted.rule,
        wanted.field,
        wanted.value,
        number,
        Some(wanted.because),
    )->Ok_0;
    ratchet::lemma_ratchet(
        before,
        edit::config_applied(before, wanted.rule, wanted.field, p.value),
    );
}

// --- what is answered --------------------------------------------------------

/// A finding is answered as it stands, with the rule and the category that it is
/// of.
pub proof fn lemma_tagged(fields: Seq<(Text, JsonV)>, rule: Text, category: Text, other: Text)
    ensures
        ({
            let after = tagged(JsonV::Object(fields), rule, category);
            &&& json::field_of(after, "rule"@) == Some(JsonV::Str(rule))
            &&& json::field_of(after, "category"@) == Some(JsonV::Str(category))
            &&& other != "rule"@ && other != "category"@ ==> json::field_of(after, other)
                == table::lookup(fields, other)
        }),
{
    reveal_strlit("rule");
    reveal_strlit("category");
    assert("rule"@.len() == 4 && "category"@.len() == 8);
    let once = json::with_field(fields, "rule"@, JsonV::Str(rule));
    json::lemma_with_field(fields, "rule"@, JsonV::Str(rule), "rule"@);
    json::lemma_with_field(fields, "rule"@, JsonV::Str(rule), other);
    json::lemma_with_field(once, "category"@, JsonV::Str(category), "rule"@);
    json::lemma_with_field(once, "category"@, JsonV::Str(category), "category"@);
    json::lemma_with_field(once, "category"@, JsonV::Str(category), other);
}

/// The findings of a rule that are answered are those whose file is meant, in
/// their order, each tagged with the rule's own name and category.
pub proof fn lemma_rule_answered(
    out: Seq<JsonV>,
    rule: JsonV,
    file: Option<Text>,
    name: Text,
    category: Text,
    n: nat,
)
    requires
        n <= scan::findings_of(rule).len(),
        json::field_of(rule, "rule"@) == Some(JsonV::Str(name)),
        json::field_of(rule, "category"@) == Some(JsonV::Str(category)),
    ensures
        rule_findings(out, rule, file, n) == out + scan::findings_of(rule).take(n as int).filter(
            |finding: JsonV|
                file is None || is_file(
                    json::str_or(json::field_of(finding, "file"@), seq![]),
                    file.unwrap(),
                ),
        ).map_values(|finding: JsonV| tagged(finding, name, category)),
    decreases n,
{
    reveal(Seq::filter);
    let findings = scan::findings_of(rule);
    let wanted = |finding: JsonV|
        file is None || is_file(
            json::str_or(json::field_of(finding, "file"@), seq![]),
            file.unwrap(),
        );
    let tag = |finding: JsonV| tagged(finding, name, category);
    let all = findings.take(n as int);
    if n > 0 {
        lemma_rule_answered(out, rule, file, name, category, (n - 1) as nat);
        let front = findings.take(n - 1);
        assert(all.drop_last() =~= front);
        assert(all.last() == findings[n - 1]);
        if wanted(findings[n - 1]) {
            assert(front.filter(wanted).push(findings[n - 1]).map_values(tag)
                =~= front.filter(wanted).map_values(tag).push(tag(findings[n - 1])));
            assert(out + front.filter(wanted).map_values(tag).push(tag(findings[n - 1])) =~= (out
                + front.filter(wanted).map_values(tag)).push(tag(findings[n - 1])));
        }
    } else {
        assert(out + all.filter(wanted).map_values(tag) =~= out);
    }
}

/// The findings of a rule that is not asked for are not answered, and those of
/// one that is are.
pub proof fn lemma_rules_asked(rules: Seq<JsonV>, want: Text, file: Option<Text>, n: nat)
    requires
        0 < n <= rules.len(),
    ensures
        ({
            let name = json::str_or(json::field_of(rules[n - 1], "rule"@), seq![]);
            let before = all_findings(rules, Some(want), file, (n - 1) as nat);
            let after = all_findings(rules, Some(want), file, n);
            let whole = rule_findings(
                before,
                rules[n - 1],
                file,
                scan::findings_of(rules[n - 1]).len(),
            );
            &&& name == want ==> after == whole
            &&& want == "rust/"@ + name && !text::has_part(name, "/"@) ==> after == whole
            &&& name != want && !text::has_part(name, "/"@) && !text::has_part(want, "/"@)
                ==> after == before
            &&& all_findings(rules, None, file, n) == rule_findings(
                all_findings(rules, None, file, (n - 1) as nat),
                rules[n - 1],
                file,
                scan::findings_of(rules[n - 1]).len(),
            )
        }),
{
    let name = json::str_or(json::field_of(rules[n - 1], "rule"@), seq![]);
    reveal_strlit("/");
    reveal_strlit("rust/");
    text::lemma_rfind_from(name, "/"@, (name.len() - 1) as int);
    text::lemma_rfind_from(want, "/"@, (want.len() - 1) as int);
    if want == "rust/"@ + name && !text::has_part(name, "/"@) {
        assert(want.subrange(4, 5) =~= "/"@);
        assert(text::occurs_at(want, "/"@, 4));
        let at = text::rfind_from(want, "/"@, (want.len() - 1) as int).unwrap();
        if at > 4 {
            assert(want.subrange(at, at + 1)[0] == '/');
            assert(name.subrange(at - 5, at - 4) =~= "/"@);
            assert(text::occurs_at(name, "/"@, at - 5));
        }
        assert(want.skip(5) =~= name);
    }
}

/// A rule is answered by its name, its category, what it says and what to do about
/// it, and as deducting where it took something.
#[verifier::rlimit(40)]
pub proof fn lemma_rule_described(rule: JsonV, name: Text, category: Text)
    requires
        json::field_of(rule, "rule"@) == Some(JsonV::Str(name)),
        json::field_of(rule, "category"@) == Some(JsonV::Str(category)),
    ensures
        ({
            let answer = rule_answer(rule);
            &&& json::field_of(answer, "name"@) == Some(JsonV::Str(name))
            &&& json::field_of(answer, "category"@) == Some(JsonV::Str(category))
            &&& json::field_of(rule, "describes"@) matches Some(JsonV::Str(s)) ==> json::field_of(
                answer,
                "describes"@,
            ) == Some(JsonV::Str(s))
            &&& json::field_of(rule, "remedy"@) matches Some(JsonV::Str(s)) ==> json::field_of(
                answer,
                "remedy"@,
            ) == Some(JsonV::Str(s))
            &&& json::field_of(rule, "weight"@) matches Some(w) ==> json::field_of(
                answer,
                "weight"@,
            ) == Some(w)
            &&& json::field_of(answer, "deducting"@) == Some(
                JsonV::Bool(measure::below(0, scan::cost_of(rule))),
            )
        }),
{
    broadcast use crate::table::lemma_lookup_push;

    reveal_strlit("name");
    reveal_strlit("category");
    reveal_strlit("describes");
    reveal_strlit("remedy");
    reveal_strlit("weight");
    reveal_strlit("deducting");
    assert("describes"@[2] == 's' && "deducting"@[2] == 'd' && "remedy"@[0] == 'r');
    assert("weight"@[0] == 'w' && "name"@.len() == 4 && "category"@.len() == 8);
    assert("describes"@.len() == 9 && "deducting"@.len() == 9 && "remedy"@.len() == 6);
    let first = seq![("name"@, JsonV::Str(name))];
    assert(first.skip(1) =~= seq![]);
    assert(table::lookup(first, "name"@) == Some(JsonV::Str(name)));
    assert(forall|other: Text| other != "name"@ ==> #[trigger] table::lookup(first, other) is None);
}

/// A rule of the report that has the name is the one that is explained, with its
/// findings; else the one of the configuration; and else there is none.
pub proof fn lemma_explained(report: JsonV, want: Text, i: int)
    requires
        0 <= i < scan::rules_of(report).len(),
        json::field_of(scan::rules_of(report)[i], "rule"@) == Some(JsonV::Str(want)),
        forall|j: int|
            0 <= j < i ==> (json::str_of(
                json::field_of(#[trigger] scan::rules_of(report)[j], "rule"@),
            ) matches Some(name) ==> !is_same_rule(name, want)),
    ensures
        explanation(report, want) == Ok::<JsonV, TroubleV>(
            description(
                scan::rules_of(report)[i],
                want,
                measure::below(0, scan::cost_of(scan::rules_of(report)[i])),
                field_or(scan::rules_of(report)[i], "findings"@, JsonV::List(seq![])),
            ),
        ),
{
    lemma_rule_from(scan::rules_of(report), want, 0, i);
}

proof fn lemma_rule_from(rules: Seq<JsonV>, want: Text, n: nat, i: int)
    requires
        n <= i < rules.len(),
        json::field_of(rules[i], "rule"@) == Some(JsonV::Str(want)),
        forall|j: int|
            n <= j < i ==> (json::str_of(json::field_of(#[trigger] rules[j], "rule"@)) matches Some(
                name,
            ) ==> !is_same_rule(name, want)),
    ensures
        rule_from(rules, want, n) == Some(rules[i]),
    decreases i - n,
{
    if n < i {
        lemma_rule_from(rules, want, n + 1, i);
    }
}

/// The scores that are answered are the report's.
pub proof fn lemma_scores_answered(report: JsonV, scores: JsonV)
    requires
        json::field_of(report, "scores"@) == Some(scores),
    ensures
        json::field_of(score_answer(report), "scores"@) == Some(scores),
{
    broadcast use crate::table::lemma_lookup_push;

    let first = seq![("scores"@, scores)];
    assert(table::lookup(first, "scores"@) == Some(scores));
}


/// A call names its tool, and hands it the path, the rule and the file that its
/// arguments hold under those names.
pub proof fn lemma_call_read(params: JsonV, args: JsonV, path: Text, rule: Text, file: Text)
    requires
        json::field_of(params, "arguments"@) == Some(args),
        json::field_of(args, "path"@) == Some(JsonV::Str(path)),
        path.len() > 0,
        json::field_of(args, "rule"@) == Some(JsonV::Str(rule)),
        json::field_of(args, "file"@) == Some(JsonV::Str(file)),
    ensures
        json::field_of(params, "name"@) == Some(JsonV::Str("score"@)) ==> call_of(params) == Ok::<
            CallV,
            TroubleV,
        >(CallV { tool: ToolV::Score, path: Some(path) }),
        json::field_of(params, "name"@) == Some(JsonV::Str("findings"@)) ==> call_of(params) == Ok::<
            CallV,
            TroubleV,
        >(CallV { tool: ToolV::Findings { rule: Some(rule), file: Some(file) }, path: Some(path) }),
        json::field_of(params, "name"@) == Some(JsonV::Str("rules"@)) ==> call_of(params) == Ok::<
            CallV,
            TroubleV,
        >(CallV { tool: ToolV::Rules, path: Some(path) }),
        json::field_of(params, "name"@) == Some(JsonV::Str("explain"@)) && text::trimmed(rule).len()
            > 0 ==> call_of(params) == Ok::<CallV, TroubleV>(
            CallV { tool: ToolV::Explain { name: text::trimmed(rule) }, path: Some(path) },
        ),
        json::field_of(params, "name"@) == Some(JsonV::Str("explain"@)) && text::trimmed(rule).len()
            == 0 ==> call_of(params) is Err,
{
    reveal_strlit("score");
    reveal_strlit("findings");
    reveal_strlit("rules");
    reveal_strlit("explain");
    assert("score"@[0] == 's' && "findings"@[0] == 'f' && "rules"@[0] == 'r' && "explain"@[0]
        == 'e');
}

}
