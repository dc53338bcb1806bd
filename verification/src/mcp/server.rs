//! The server's configuration and the decisions it takes on each request.
use vstd::prelude::*;
use crate::text::{owned, split_char, split_spec, trim, trimmed, views, str_eq, is_prefix, starts_with};
use crate::json::{Json, JsonValue, member, members_view, lemma_members_view, items_view, lemma_items_view, push_item};
use crate::error::GwsError;

verus! {

/// How API methods are offered as tools.
#[derive(Debug, Clone, Copy, PartialEq, Eq, Structural)]
pub enum ToolMode {
    /// One tool per API method.
    Full,
    /// One tool per service, plus the discovery tool.
    Compact,
}

/// What the server was started with.
pub struct ServerConfig {
    pub services: Vec<String>,
    pub workflows: bool,
    pub _helpers: bool,
    pub tool_mode: ToolMode,
}

/// The tool mode a `--tool-mode` value selects: compact only when asked for.
pub open spec fn tool_mode_of(arg: Option<Seq<char>>) -> ToolMode {
    if arg == Some("compact"@) {
        ToolMode::Compact
    } else {
        ToolMode::Full
    }
}

/// The services a `--services` value selects: none for the empty value,
/// every known service for `all`, else the comma-separated names trimmed of
/// white space.
pub open spec fn services_of(arg: Seq<char>, known: Seq<Seq<char>>) -> Seq<Seq<char>> {
    if arg.len() == 0 {
        Seq::empty()
    } else if arg == "all"@ {
        known
    } else {
        split_spec(arg, ',').map_values(|p: Seq<char>| trimmed(p))
    }
}

/// The configuration that the server's arguments describe. `known` lists
/// the first alias of every service, used for `all`.
pub fn server_config(
    services: &str,
    known: &Vec<String>,
    workflows: bool,
    helpers: bool,
    tool_mode: Option<&str>,
) -> (res: ServerConfig)
    ensures
        views(res.services@) == services_of(services@, views(known@)),
        res.workflows == workflows,
        res._helpers == helpers,
        res.tool_mode == tool_mode_of(
            match tool_mode {
                Some(m) => Some(m@),
                None => None,
            },
        ),
{
    let mode = match tool_mode {
        Some(m) => {
            proof {
                reveal_strlit("compact");
            }
            if str_eq(m, "compact") {
                ToolMode::Compact
            } else {
                ToolMode::Full
            }
        },
        None => ToolMode::Full,
    };
    let mut list: Vec<String> = Vec::new();
    if !services.is_empty() {
        if str_eq(services, "all") {
            let mut i: usize = 0;
            while i < known.len()
                invariant
                    i <= known.len(),
                    views(list@) == views(known@).take(i as int),
                decreases known.len() - i,
            {
                let ghost before = list@;
                list.push(owned(known[i].as_str()));
                proof {
                    assert(list@.drop_last() == before);
                    assert(views(list@) =~= views(before).push(known@[i as int]@));
                    assert(views(list@) =~= views(known@).take(i + 1));
                }
                i = i + 1;
            }
            proof {
                assert(views(known@).take(known@.len() as int) =~= views(known@));
            }
        } else {
            let parts = split_char(services, ',');
            let ghost want = split_spec(services@, ',').map_values(|p: Seq<char>| trimmed(p));
            let mut i: usize = 0;
            while i < parts.len()
                invariant
                    i <= parts.len(),
                    views(parts@) == split_spec(services@, ','),
                    want == split_spec(services@, ',').map_values(|p: Seq<char>| trimmed(p)),
                    views(list@) == want.take(i as int),
                decreases parts.len() - i,
            {
                let ghost before = list@;
                list.push(owned(trim(parts[i].as_str())));
                proof {
                    assert(list@.drop_last() == before);
                    assert(views(list@) =~= views(before).push(trimmed(parts@[i as int]@)));
                    assert(views(parts@)[i as int] == parts@[i as int]@);
                    assert(views(list@) =~= want.take(i + 1));
                }
                i = i + 1;
            }
            proof {
                assert(want.take(want.len() as int) =~= want);
            }
        }
    } else {
        proof {
            assert(views(list@) =~= Seq::<Seq<char>>::empty());
        }
    }
    ServerConfig { services: list, workflows, _helpers: helpers, tool_mode: mode }
}

} // verus!

verus! {

/// The JSON-RPC methods the server tells apart.
pub enum McpMethod {
    Initialize,
    Initialized,
    ToolsList,
    ToolsCall,
    Unsupported,
}

/// The method a request's `method` member names.
pub open spec fn method_of(name: Seq<char>) -> McpMethod {
    if name == "initialize"@ {
        McpMethod::Initialize
    } else if name == "notifications/initialized"@ {
        McpMethod::Initialized
    } else if name == "tools/list"@ {
        McpMethod::ToolsList
    } else if name == "tools/call"@ {
        McpMethod::ToolsCall
    } else {
        McpMethod::Unsupported
    }
}

/// Which JSON-RPC method a request calls.
pub fn route_method(name: &str) -> (res: McpMethod)
    ensures
        res == method_of(name@),
{
    if str_eq(name, "initialize") {
        McpMethod::Initialize
    } else if str_eq(name, "notifications/initialized") {
        McpMethod::Initialized
    } else if str_eq(name, "tools/list") {
        McpMethod::ToolsList
    } else if str_eq(name, "tools/call") {
        McpMethod::ToolsCall
    } else {
        McpMethod::Unsupported
    }
}

/// A JSON-RPC request as the server reads it.
pub struct McpRequest {
    /// The request's `id`; a notification has none.
    pub id: Option<JsonValue>,
    /// The method name, empty when missing or not a string.
    pub method: String,
    /// The parameters, an empty object when missing.
    pub params: JsonValue,
}

/// The models of an optional value.
pub open spec fn opt_json(v: Option<JsonValue>) -> Option<Json> {
    match v {
        Some(x) => Some(x@),
        None => None,
    }
}

/// `v`, or the empty object.
pub open spec fn or_empty_object(v: Option<Json>) -> Json {
    match v {
        Some(x) => x,
        None => Json::Object(Seq::empty()),
    }
}

/// Reads the id, method name and parameters of a request.
pub fn parse_request(req: &JsonValue) -> (res: McpRequest)
    ensures
        opt_json(res.id) == req@.get("id"@),
        res.method@ == req@.str_or_empty("method"@),
        res.params@ == or_empty_object(req@.get("params"@)),
{
    let id = match req.get("id") {
        Some(v) => Some(v.duplicate()),
        None => None,
    };
    let method = req.str_or_empty("method");
    let params = match req.get("params") {
        Some(v) => v.duplicate(),
        None => empty_object(),
    };
    McpRequest { id, method, params }
}

/// `{}`.
pub fn empty_object() -> (res: JsonValue)
    ensures
        res@ == Json::Object(Seq::empty()),
{
    let members: Vec<(String, JsonValue)> = Vec::new();
    proof {
        assert(members_view(members@) =~= Seq::<(Seq<char>, Json)>::empty());
    }
    JsonValue::object(members)
}

/// The answer to `initialize`.
pub open spec fn initialize_json(version: Seq<char>) -> Json {
    Json::Object(
        seq![
            ("protocolVersion"@, Json::Str("2024-11-05"@)),
            (
                "serverInfo"@,
                Json::Object(seq![("name"@, Json::Str("gws-mcp"@)), ("version"@, Json::Str(version))]),
            ),
            ("capabilities"@, Json::Object(seq![("tools"@, Json::Object(Seq::empty()))])),
        ],
    )
}

/// Builds the answer to `initialize` for the server's version.
pub fn initialize_result(version: &str) -> (res: JsonValue)
    ensures
        res@ == initialize_json(version@),
{
    let info = vec![member("name", JsonValue::string("gws-mcp")), member("version", JsonValue::string(version))];
    let caps = vec![member("tools", empty_object())];
    proof {
        lemma_members_view(info@);
        lemma_members_view(caps@);
        assert(members_view(info@) =~= seq![("name"@, Json::Str("gws-mcp"@)), ("version"@, Json::Str(version@))]);
        assert(members_view(caps@) =~= seq![("tools"@, Json::Object(Seq::empty()))]);
    }
    let info_v = JsonValue::object(info);
    let caps_v = JsonValue::object(caps);
    let top = vec![
        member("protocolVersion", JsonValue::string("2024-11-05")),
        member("serverInfo", info_v),
        member("capabilities", caps_v),
    ];
    proof {
        lemma_members_view(top@);
        assert(members_view(top@) =~= initialize_json(version@)->Object_0);
    }
    JsonValue::object(top)
}

/// The answer to `tools/list`.
pub fn tools_list_result(tools: Vec<JsonValue>) -> (res: JsonValue)
    ensures
        res@ == Json::Object(seq![("tools"@, Json::Array(items_view(tools@)))]),
{
    let top = vec![member("tools", JsonValue::array(tools))];
    proof {
        lemma_members_view(top@);
        assert(members_view(top@) =~= seq![("tools"@, Json::Array(items_view(tools@)))]);
    }
    JsonValue::object(top)
}

/// A tool result holding one text item.
pub open spec fn text_result_json(text: Seq<char>, is_error: bool) -> Json {
    Json::Object(
        seq![
            (
                "content"@,
                Json::Array(
                    seq![Json::Object(seq![("type"@, Json::Str("text"@)), ("text"@, Json::Str(text))])],
                ),
            ),
            ("isError"@, Json::Bool(is_error)),
        ],
    )
}

/// Builds a tool result holding one text item.
pub fn text_result(text: &str, is_error: bool) -> (res: JsonValue)
    ensures
        res@ == text_result_json(text@, is_error),
{
    let item = vec![member("type", JsonValue::string("text")), member("text", JsonValue::string(text))];
    proof {
        lemma_members_view(item@);
        assert(members_view(item@) =~= seq![("type"@, Json::Str("text"@)), ("text"@, Json::Str(text@))]);
    }
    let content = vec![JsonValue::object(item)];
    proof {
        lemma_items_view(content@);
        assert(items_view(content@) =~= seq![Json::Object(seq![("type"@, Json::Str("text"@)), ("text"@, Json::Str(text@))])]);
    }
    let top = vec![member("content", JsonValue::array(content)), member("isError", JsonValue::Bool(is_error))];
    proof {
        lemma_members_view(top@);
        assert(members_view(top@) =~= text_result_json(text@, is_error)->Object_0);
    }
    JsonValue::object(top)
}

/// The answer to `tools/call`: a failed call is answered as a result
/// flagged `isError` that carries the error's message, not as a protocol
/// error.
pub fn tool_call_answer(outcome: Result<JsonValue, GwsError>) -> (res: JsonValue)
    ensures
        match outcome {
            Ok(v) => res@ == v@,
            Err(e) => res@ == text_result_json(e.spec_message(), true),
        },
{
    match outcome {
        Ok(v) => v,
        Err(e) => {
            let msg = e.to_string();
            text_result(msg.as_str(), true)
        },
    }
}

/// The error for a JSON-RPC method the server does not support.
pub fn unsupported_method(method: &str) -> (res: GwsError)
    ensures
        res is Validation,
        res.spec_message() == "Method not supported: "@ + method@,
{
    let mut msg = owned("Method not supported: ");
    msg.append(method);
    GwsError::Validation(msg)
}

/// The JSON-RPC response to a request with the given id.
pub open spec fn response_json(id: Json, outcome: Result<Json, Seq<char>>) -> Json {
    match outcome {
        Ok(r) => Json::Object(
            seq![("jsonrpc"@, Json::Str("2.0"@)), ("id"@, id), ("result"@, r)],
        ),
        Err(m) => Json::Object(
            seq![
                ("jsonrpc"@, Json::Str("2.0"@)),
                ("id"@, id),
                (
                    "error"@,
                    Json::Object(seq![("code"@, Json::Number("-32603"@)), ("message"@, Json::Str(m))]),
                ),
            ],
        ),
    }
}

/// The model of a handler's outcome: its result, or its error's message.
pub open spec fn outcome_view(outcome: Result<JsonValue, GwsError>) -> Result<Json, Seq<char>> {
    match outcome {
        Ok(v) => Ok(v@),
        Err(e) => Err(e.spec_message()),
    }
}

/// Frames a handler's outcome as the JSON-RPC response to request `id`;
/// an error becomes an internal error (-32603) with the error's message.
pub fn jsonrpc_response(id: JsonValue, outcome: Result<JsonValue, GwsError>) -> (res: JsonValue)
    ensures
        res@ == response_json(id@, outcome_view(outcome)),
{
    let ghost idv = id@;
    let ghost ov = outcome_view(outcome);
    let top = match outcome {
        Ok(r) => vec![member("jsonrpc", JsonValue::string("2.0")), member("id", id), member("result", r)],
        Err(e) => {
            let msg = e.to_string();
            let err = vec![
                member("code", JsonValue::Number(owned("-32603"))),
                member("message", JsonValue::string(msg.as_str())),
            ];
            proof {
                lemma_members_view(err@);
                assert(members_view(err@) =~= seq![("code"@, Json::Number("-32603"@)), ("message"@, Json::Str(msg@))]);
            }
            vec![member("jsonrpc", JsonValue::string("2.0")), member("id", id), member("error", JsonValue::object(err))]
        },
    };
    proof {
        lemma_members_view(top@);
        assert(members_view(top@) =~= response_json(idv, ov)->Object_0);
    }
    JsonValue::object(top)
}

/// The response to a request: none for a notification (a request without
/// an id), else the framed outcome.
pub fn respond(id: Option<JsonValue>, outcome: Result<JsonValue, GwsError>) -> (res: Option<JsonValue>)
    ensures
        match id {
            None => res is None,
            Some(i) => res matches Some(r) && r@ == response_json(i@, outcome_view(outcome)),
        },
{
    match id {
        None => None,
        Some(i) => Some(jsonrpc_response(i, outcome)),
    }
}

/// The response to a line that is not JSON.
pub open spec fn parse_error_json() -> Json {
    Json::Object(
        seq![
            ("jsonrpc"@, Json::Str("2.0"@)),
            ("id"@, Json::Null),
            (
                "error"@,
                Json::Object(seq![("code"@, Json::Number("-32700"@)), ("message"@, Json::Str("Parse error"@))]),
            ),
        ],
    )
}

/// Builds the response to a line that is not JSON.
pub fn parse_error_response() -> (res: JsonValue)
    ensures
        res@ == parse_error_json(),
{
    let err = vec![
        member("code", JsonValue::Number(owned("-32700"))),
        member("message", JsonValue::string("Parse error")),
    ];
    proof {
        lemma_members_view(err@);
        assert(members_view(err@) =~= seq![("code"@, Json::Number("-32700"@)), ("message"@, Json::Str("Parse error"@))]);
    }
    let top = vec![
        member("jsonrpc", JsonValue::string("2.0")),
        member("id", JsonValue::Null),
        member("error", JsonValue::object(err)),
    ];
    proof {
        lemma_members_view(top@);
        assert(members_view(top@) =~= parse_error_json()->Object_0);
    }
    JsonValue::object(top)
}

} // verus!

verus! {

/// Whether `name` is among the strings.
pub fn contains_str(v: &Vec<String>, name: &str) -> (res: bool)
    ensures
        res == views(v@).contains(name@),
{
    let mut i: usize = 0;
    while i < v.len()
        invariant
            i <= v.len(),
            forall|j: int| 0 <= j < i ==> #[trigger] v@[j]@ != name@,
        decreases v.len() - i,
    {
        if str_eq(v[i].as_str(), name) {
            proof {
                assert(views(v@)[i as int] == name@);
            }
            return true;
        }
        i = i + 1;
    }
    proof {
        if views(v@).contains(name@) {
            let k = choose|k: int| 0 <= k < views(v@).len() && views(v@)[k] == name@;
            assert(v@[k]@ == name@);
        }
    }
    false
}

/// The model of a tool call: what it asks for, or why it is refused.
pub enum CallPlan {
    /// Refused as invalid, with this message.
    Refused(Seq<char>),
    /// Refused as not implemented, with this message.
    Unimplemented(Seq<char>),
    /// The discovery tool.
    Discover,
    /// A compact-mode call: service, resource path and method.
    Compact(Seq<char>, Seq<char>, Seq<char>),
    /// A full-mode call: service, resource names from the outermost, method.
    Full(Seq<char>, Seq<Seq<char>>, Seq<char>),
}

/// The message refusing a call to a service that is not enabled.
pub open spec fn not_enabled(service: Seq<char>) -> Seq<char> {
    "Service '"@ + service + "' is not enabled in this MCP session"@
}

/// What a `tools/call` request with these parameters asks for. Workflow
/// tools are refused; in compact mode the tool is the service and the
/// resource and method are arguments; in full mode the tool's name is
/// the service, the resource names and the method joined with `-`.
pub open spec fn call_plan(params: Json, services: Seq<Seq<char>>, mode: ToolMode) -> CallPlan {
    match params.get_str("name"@) {
        None => CallPlan::Refused("Missing 'name' in tools/call"@),
        Some(name) => if is_prefix("workflow-"@, name) {
            CallPlan::Unimplemented("Workflows are not yet fully implemented via MCP"@)
        } else if name == "gws-discover"@ {
            CallPlan::Discover
        } else if mode == ToolMode::Compact {
            let args = or_empty_object(params.get("arguments"@));
            match args.get_str("resource"@) {
                None => CallPlan::Refused("Missing 'resource' argument"@),
                Some(r) => match args.get_str("method"@) {
                    None => CallPlan::Refused("Missing 'method' argument"@),
                    Some(m) => if services.contains(name) {
                        CallPlan::Compact(name, r, m)
                    } else {
                        CallPlan::Refused(not_enabled(name))
                    },
                },
            }
        } else {
            let parts = split_spec(name, '-');
            if parts.len() < 3 {
                CallPlan::Refused("Invalid API tool name: "@ + name)
            } else if !services.contains(parts[0]) {
                CallPlan::Refused(not_enabled(parts[0]))
            } else {
                CallPlan::Full(parts[0], parts.subrange(1, parts.len() - 1), parts.last())
            }
        },
    }
}

/// A tool call the server goes on with.
pub enum ToolCall {
    /// The discovery tool.
    Discover,
    /// A compact-mode call.
    Compact { service: String, resource: String, method: String },
    /// A full-mode call.
    Full { service: String, resources: Vec<String>, method: String },
}

/// The model of a tool call.
pub open spec fn tool_call_view(c: ToolCall) -> CallPlan {
    match c {
        ToolCall::Discover => CallPlan::Discover,
        ToolCall::Compact { service, resource, method } => CallPlan::Compact(
            service@,
            resource@,
            method@,
        ),
        ToolCall::Full { service, resources, method } => CallPlan::Full(
            service@,
            views(resources@),
            method@,
        ),
    }
}

/// `e` is the error that refuses a call as `plan` says.
pub open spec fn refuses(plan: CallPlan, e: GwsError) -> bool {
    match plan {
        CallPlan::Refused(m) => e is Validation && e.spec_message() == m,
        CallPlan::Unimplemented(m) => e matches GwsError::Other { message, chain } && message@ == m && chain@ == m,
        _ => false,
    }
}

/// Decides what a `tools/call` request asks for, before any API document
/// is read.
pub fn plan_tool_call(params: &JsonValue, config: &ServerConfig) -> (res: Result<ToolCall, GwsError>)
    ensures
        match res {
            Ok(c) => call_plan(params@, views(config.services@), config.tool_mode) == tool_call_view(c),
            Err(e) => refuses(call_plan(params@, views(config.services@), config.tool_mode), e),
        },
{
    let name = match params.get_str("name") {
        Some(n) => n,
        None => return Err(GwsError::Validation(owned("Missing 'name' in tools/call"))),
    };
    if starts_with(name, "workflow-") {
        return Err(GwsError::Other {
            message: owned("Workflows are not yet fully implemented via MCP"),
            chain: owned("Workflows are not yet fully implemented via MCP"),
        });
    }
    if str_eq(name, "gws-discover") {
        return Ok(ToolCall::Discover);
    }
    if config.tool_mode == ToolMode::Compact {
        let empty = empty_object();
        let args = match params.get("arguments") {
            Some(a) => a,
            None => &empty,
        };
        let resource = match args.get_str("resource") {
            Some(r) => r,
            None => return Err(GwsError::Validation(owned("Missing 'resource' argument"))),
        };
        let method = match args.get_str("method") {
            Some(m) => m,
            None => return Err(GwsError::Validation(owned("Missing 'method' argument"))),
        };
        if !contains_str(&config.services, name) {
            return Err(GwsError::Validation(not_enabled_error(name)));
        }
        return Ok(ToolCall::Compact { service: owned(name), resource: owned(resource), method: owned(method) });
    }
    let parts = split_char(name, '-');
    if parts.len() < 3 {
        let mut msg = owned("Invalid API tool name: ");
        msg.append(name);
        return Err(GwsError::Validation(msg));
    }
    if !contains_str(&config.services, parts[0].as_str()) {
        return Err(GwsError::Validation(not_enabled_error(parts[0].as_str())));
    }
    let mut resources: Vec<String> = Vec::new();
    let last = parts.len() - 1;
    let mut i: usize = 1;
    while i < last
        invariant
            1 <= i <= last,
            last == parts.len() - 1,
            views(resources@) == views(parts@).subrange(1, i as int),
        decreases last - i,
    {
        let ghost before = resources@;
        resources.push(owned(parts[i].as_str()));
        proof {
            assert(resources@.drop_last() == before);
            assert(views(resources@) =~= views(before).push(parts@[i as int]@));
            assert(views(resources@) =~= views(parts@).subrange(1, i + 1));
        }
        i = i + 1;
    }
    proof {
        assert(views(parts@).last() == parts@[last as int]@);
    }
    Ok(ToolCall::Full { service: owned(parts[0].as_str()), resources, method: owned(parts[last].as_str()) })
}

fn not_enabled_error(service: &str) -> (res: String)
    ensures
        res@ == not_enabled(service@),
{
    let mut msg = owned("Service '");
    msg.append(service);
    msg.append("' is not enabled in this MCP session");
    msg
}

/// The arguments of a `tools/call` request, an empty object when missing.
pub fn tool_arguments(params: &JsonValue) -> (res: JsonValue)
    ensures
        res@ == or_empty_object(params@.get("arguments"@)),
{
    match params.get("arguments") {
        Some(a) => a.duplicate(),
        None => empty_object(),
    }
}

} // verus!

verus! {

/// Deep copies of the values, in order.
pub fn duplicate_all(values: &Vec<JsonValue>) -> (res: Vec<JsonValue>)
    ensures
        items_view(res@) == items_view(values@),
{
    let mut out: Vec<JsonValue> = Vec::new();
    let mut i: usize = 0;
    proof {
        lemma_items_view(values@);
    }
    while i < values.len()
        invariant
            i <= values.len(),
            items_view(values@).len() == values@.len(),
            items_view(out@) == items_view(values@).take(i as int),
        decreases values.len() - i,
    {
        proof {
            lemma_items_view(values@);
        }
        push_item(&mut out, values[i].duplicate());
        proof {
            assert(items_view(out@) =~= items_view(values@).take(i + 1));
        }
        i = i + 1;
    }
    proof {
        assert(items_view(values@).take(values@.len() as int) =~= items_view(values@));
    }
    out
}

/// The successful answer to `tools/list` with this tool list.
pub open spec fn tools_list_json(tools: Seq<Json>) -> Json {
    Json::Object(seq![("tools"@, Json::Array(tools))])
}

/// Answers `tools/list` with the tool list; the list itself is kept.
pub fn tools_list_reply(tools: &Vec<JsonValue>) -> (res: Result<JsonValue, GwsError>)
    ensures
        res matches Ok(v) && v@ == tools_list_json(items_view(tools@)),
{
    Ok(tools_list_result(duplicate_all(tools)))
}

/// Answers `tools/call`: always successfully at the protocol level, with a
/// failed call's message flagged `isError`.
pub fn tool_call_reply(outcome: Result<JsonValue, GwsError>) -> (res: Result<JsonValue, GwsError>)
    ensures
        res matches Ok(v) && match outcome {
            Ok(r) => v@ == r@,
            Err(e) => v@ == text_result_json(e.spec_message(), true),
        },
{
    Ok(tool_call_answer(outcome))
}

/// What answering a request needs next.
pub enum RequestStep {
    /// The answer is ready.
    Reply(Result<JsonValue, GwsError>),
    /// The tool list has to be built first (its Discovery Documents read),
    /// then answered with `tools_list_reply`.
    BuildTools,
    /// The tool call has to be carried out first, then answered with
    /// `tool_call_reply`.
    CallTool,
}

/// Handles a request as far as no outside work is needed. `tools_cache` is
/// the tool list built for an earlier `tools/list`, if any; it is only read.
pub fn handle_request(method: &str, version: &str, tools_cache: &Option<Vec<JsonValue>>) -> (res: RequestStep)
    ensures
        match method_of(method@) {
            McpMethod::Initialize => res matches RequestStep::Reply(Ok(v)) && v@ == initialize_json(version@),
            McpMethod::Initialized => res matches RequestStep::Reply(Ok(v)) && v@ == Json::Object(Seq::empty()),
            McpMethod::ToolsList => match tools_cache {
                Some(t) => res matches RequestStep::Reply(Ok(v)) && v@ == tools_list_json(items_view(t@)),
                None => res is BuildTools,
            },
            McpMethod::ToolsCall => res is CallTool,
            McpMethod::Unsupported => res matches RequestStep::Reply(Err(e)) && e is Validation
                && e.spec_message() == "Method not supported: "@ + method@,
        },
{
    match route_method(method) {
        McpMethod::Initialize => RequestStep::Reply(Ok(initialize_result(version))),
        McpMethod::Initialized => RequestStep::Reply(Ok(empty_object())),
        McpMethod::ToolsList => match tools_cache {
            Some(t) => RequestStep::Reply(tools_list_reply(t)),
            None => RequestStep::BuildTools,
        },
        McpMethod::ToolsCall => RequestStep::CallTool,
        McpMethod::Unsupported => RequestStep::Reply(Err(unsupported_method(method))),
    }
}

/// What the server does with one line of input.
pub enum LineStep {
    /// A blank line: nothing is answered.
    Skip,
    /// The line is not JSON: answered with this parse error.
    Reply(JsonValue),
    /// A request to handle; its answer goes out through `respond`.
    Handle(McpRequest),
}

/// Reads one line of input; `parsed` is the JSON value the line holds,
/// where it is JSON. A blank line is skipped, a line that is not JSON is
/// answered with a parse error, and any other line is a request.
pub fn read_line(line: &str, parsed: Option<JsonValue>) -> (res: LineStep)
    ensures
        trimmed(line@).len() == 0 ==> res is Skip,
        trimmed(line@).len() > 0 ==> match parsed {
            None => res matches LineStep::Reply(r) && r@ == parse_error_json(),
            Some(v) => res matches LineStep::Handle(req) && opt_json(req.id) == v@.get("id"@)
                && req.method@ == v@.str_or_empty("method"@) && req.params@ == or_empty_object(
                v@.get("params"@),
            ),
        },
{
    if trim(line).is_empty() {
        return LineStep::Skip;
    }
    match parsed {
        None => LineStep::Reply(parse_error_response()),
        Some(v) => LineStep::Handle(parse_request(&v)),
    }
}

} // verus!
