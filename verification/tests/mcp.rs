use gws::discovery::{MethodParameter, RestDescription, RestMethod, RestResource};
use gws::error::GwsError;
use gws::json::JsonValue;
use gws::mcp::call::{
    call_arguments, check_upload_path, execution_result, has_parent_dir, resolve_compact_method,
    resolve_full_method, PathPart,
};
use gws::mcp::discover::{collect_resource_entries, discover_result, discover_service};
use gws::mcp::resources::{collect_resource_paths, find_resource};
use gws::mcp::server::{
    initialize_result, jsonrpc_response, parse_error_response, parse_request, plan_tool_call, respond,
    route_method, server_config, tool_arguments, tool_call_answer, tools_list_result,
    unsupported_method, McpMethod, ServerConfig, ToolCall, ToolMode,
};
use gws::mcp::server::{
    duplicate_all, handle_request, read_line, tool_call_reply, tools_list_reply, LineStep,
    RequestStep,
};
use gws::mcp::tools::{
    append_workflow_tools, build_tools_list, compact_description, walk_resources,
};

/// The serde_json form of a value, to compare and serialize it.
fn to_serde(v: &JsonValue) -> serde_json::Value {
    match v {
        JsonValue::Null => serde_json::Value::Null,
        JsonValue::Bool(b) => serde_json::Value::Bool(*b),
        JsonValue::Number(n) => serde_json::from_str(n).unwrap(),
        JsonValue::Str(s) => serde_json::Value::String(s.clone()),
        JsonValue::Array(items) => serde_json::Value::Array(items.iter().map(to_serde).collect()),
        JsonValue::Object(members) => {
            let mut map = serde_json::Map::new();
            for (k, v) in members {
                map.insert(k.clone(), to_serde(v));
            }
            serde_json::Value::Object(map)
        }
    }
}

/// The library form of a serde_json value.
fn from_serde(v: &serde_json::Value) -> JsonValue {
    match v {
        serde_json::Value::Null => JsonValue::Null,
        serde_json::Value::Bool(b) => JsonValue::Bool(*b),
        serde_json::Value::Number(n) => JsonValue::Number(n.to_string()),
        serde_json::Value::String(s) => JsonValue::Str(s.clone()),
        serde_json::Value::Array(a) => JsonValue::Array(a.iter().map(from_serde).collect()),
        serde_json::Value::Object(o) => {
            JsonValue::Object(o.iter().map(|(k, v)| (k.clone(), from_serde(v))).collect())
        }
    }
}

/// A library value from JSON text.
fn from_text(text: &str) -> JsonValue {
    from_serde(&serde_json::from_str::<serde_json::Value>(text).unwrap())
}

fn mock_config_compact(services: Vec<&str>) -> ServerConfig {
    ServerConfig {
        services: services.into_iter().map(String::from).collect(),
        workflows: false,
        _helpers: false,
        tool_mode: ToolMode::Compact,
    }
}

fn mock_config_full(services: Vec<&str>) -> ServerConfig {
    ServerConfig {
        services: services.into_iter().map(String::from).collect(),
        workflows: false,
        _helpers: false,
        tool_mode: ToolMode::Full,
    }
}

fn mock_doc() -> RestDescription {
    let params = vec![
        (
            "fileId".to_string(),
            MethodParameter {
                param_type: Some("string".to_string()),
                required: true,
                location: Some("path".to_string()),
                description: Some("The ID of the file".to_string()),
            },
        ),
        (
            "fields".to_string(),
            MethodParameter {
                param_type: Some("string".to_string()),
                required: false,
                location: Some("query".to_string()),
                description: Some("Selector specifying fields".to_string()),
            },
        ),
    ];
    let methods = vec![
        (
            "list".to_string(),
            RestMethod {
                http_method: "GET".to_string(),
                path: "files".to_string(),
                description: Some("Lists files".to_string()),
                ..Default::default()
            },
        ),
        (
            "get".to_string(),
            RestMethod {
                http_method: "GET".to_string(),
                path: "files/{fileId}".to_string(),
                description: Some("Gets a file".to_string()),
                parameters: params,
                ..Default::default()
            },
        ),
    ];
    let resources = vec![(
        "files".to_string(),
        RestResource {
            methods,
            ..Default::default()
        },
    )];
    RestDescription {
        name: "drive".to_string(),
        resources,
    }
}

/// A nested document like Gmail's: users -> messages, threads.
fn mock_nested_doc() -> RestDescription {
    let messages = RestResource {
        methods: vec![
            (
                "list".to_string(),
                RestMethod {
                    http_method: "GET".to_string(),
                    path: "messages".to_string(),
                    description: Some("Lists messages".to_string()),
                    ..Default::default()
                },
            ),
            (
                "get".to_string(),
                RestMethod {
                    http_method: "GET".to_string(),
                    path: "messages/{id}".to_string(),
                    description: Some("Gets a message".to_string()),
                    ..Default::default()
                },
            ),
        ],
        ..Default::default()
    };
    let threads = RestResource {
        methods: vec![(
            "list".to_string(),
            RestMethod {
                http_method: "GET".to_string(),
                path: "threads".to_string(),
                ..Default::default()
            },
        )],
        ..Default::default()
    };
    let users = RestResource {
        methods: vec![(
            "getProfile".to_string(),
            RestMethod {
                http_method: "GET".to_string(),
                path: "users/{userId}/profile".to_string(),
                ..Default::default()
            },
        )],
        resources: vec![
            ("messages".to_string(), messages),
            ("threads".to_string(), threads),
        ],
    };
    RestDescription {
        name: "gmail".to_string(),
        resources: vec![("users".to_string(), users)],
    }
}

fn method_names(r: &RestResource) -> Vec<&str> {
    r.methods.iter().map(|(n, _)| n.as_str()).collect()
}

// -- find_resource --

#[test]
fn test_find_resource_top_level() {
    let doc = mock_doc();
    let res = find_resource(&doc.resources, "files");
    assert!(res.is_some());
    assert!(method_names(res.unwrap()).contains(&"list"));
}

#[test]
fn test_find_resource_not_found() {
    let doc = mock_doc();
    assert!(find_resource(&doc.resources, "missing").is_none());
}

#[test]
fn test_find_resource_nested_dot_path() {
    let inner = RestResource {
        methods: vec![(
            "create".to_string(),
            RestMethod {
                http_method: "POST".to_string(),
                path: "permissions".to_string(),
                ..Default::default()
            },
        )],
        ..Default::default()
    };
    let outer = RestResource {
        resources: vec![("permissions".to_string(), inner)],
        ..Default::default()
    };
    let top = vec![("files".to_string(), outer)];

    let res = find_resource(&top, "files.permissions");
    assert!(res.is_some());
    assert!(method_names(res.unwrap()).contains(&"create"));
}

#[test]
fn find_resource_rejects_partial_and_empty_paths() {
    let doc = mock_nested_doc();
    assert!(find_resource(&doc.resources, "users.missing").is_none());
    assert!(find_resource(&doc.resources, "").is_none());
    assert!(find_resource(&doc.resources, "users.").is_none());
    assert!(find_resource(&doc.resources, "users.threads").is_some());
}

// -- collect_resource_paths --

#[test]
fn test_collect_resource_paths_flat() {
    let doc = mock_doc();
    let mut paths = Vec::new();
    collect_resource_paths(&doc.resources, "", &mut paths);
    paths.sort();
    assert_eq!(paths, vec!["files"]);
}

#[test]
fn test_collect_resource_paths_nested() {
    let doc = mock_nested_doc();
    let mut paths = Vec::new();
    collect_resource_paths(&doc.resources, "", &mut paths);
    paths.sort();
    assert!(paths.contains(&"users".to_string()));
    assert!(paths.contains(&"users.messages".to_string()));
}

#[test]
fn collected_paths_lead_back_to_resources() {
    let doc = mock_nested_doc();
    let mut paths = Vec::new();
    collect_resource_paths(&doc.resources, "", &mut paths);
    assert_eq!(paths, vec!["users", "users.messages", "users.threads"]);
    for p in &paths {
        assert!(find_resource(&doc.resources, p).is_some(), "{p}");
    }
}

// -- collect_resource_entries --

#[test]
fn test_collect_resource_entries_includes_nested() {
    let doc = mock_nested_doc();
    let mut entries = Vec::new();
    collect_resource_entries(&doc.resources, "", &mut entries);
    let names: Vec<&str> = entries
        .iter()
        .filter_map(|e| e.get("name").and_then(|n| n.as_str()))
        .collect();
    assert!(names.contains(&"users"));
    assert!(names.contains(&"users.messages"));
}

#[test]
fn resource_entries_skip_resources_without_methods() {
    let outer = RestResource {
        resources: vec![(
            "inner".to_string(),
            RestResource {
                methods: vec![("m".to_string(), RestMethod::default())],
                ..Default::default()
            },
        )],
        ..Default::default()
    };
    let top = vec![("outer".to_string(), outer)];
    let mut entries = Vec::new();
    collect_resource_entries(&top, "", &mut entries);
    assert_eq!(entries.len(), 1);
    assert_eq!(
        to_serde(&entries[0]).to_string(),
        r#"{"methods":["m"],"name":"outer.inner"}"#
    );
}

// -- discover --

#[test]
fn test_discover_service_not_enabled() {
    let config = mock_config_compact(vec!["gmail"]);
    let args = from_text(r#"{"service": "drive"}"#);
    let result = discover_service(&args, &config);
    assert!(result.is_err());
    let err_msg = result.unwrap_err().to_string();
    assert!(err_msg.contains("not enabled"));
    assert_eq!(err_msg, "Service 'drive' is not enabled. Enabled: gmail");
}

#[test]
fn test_discover_missing_service_arg() {
    let config = mock_config_compact(vec!["drive"]);
    let args = from_text("{}");
    let result = discover_service(&args, &config);
    assert!(result.is_err());
    let err_msg = result.unwrap_err().to_string();
    assert!(err_msg.contains("Missing 'service'"));
}

#[test]
fn discover_service_accepts_enabled_service() {
    let config = mock_config_compact(vec!["gmail", "drive"]);
    let args = from_text(r#"{"service": "drive"}"#);
    assert_eq!(discover_service(&args, &config).unwrap(), "drive");
}

#[test]
fn discover_levels() {
    let doc = mock_nested_doc();
    let level1 = discover_result("gmail", &doc, &from_text("{}")).unwrap();
    let v = to_serde(&level1);
    assert_eq!(v["service"], "gmail");
    assert_eq!(v["resources"].as_array().unwrap().len(), 3);

    let level2 = discover_result("gmail", &doc, &from_text(r#"{"resource": "users"}"#)).unwrap();
    let v = to_serde(&level2);
    assert_eq!(v["methods"][0]["name"], "getProfile");
    assert_eq!(v["methods"][0]["description"], "");
    assert_eq!(v["subResources"], serde_json::Value::from(vec!["messages", "threads"]));

    let level2_leaf =
        discover_result("gmail", &doc, &from_text(r#"{"resource": "users.threads"}"#)).unwrap();
    assert!(to_serde(&level2_leaf).get("subResources").is_none());

    let drive = mock_doc();
    let level3 = discover_result(
        "drive",
        &drive,
        &from_text(r#"{"resource": "files", "method": "get"}"#),
    )
    .unwrap();
    let v = to_serde(&level3);
    assert_eq!(v["httpMethod"], "GET");
    assert_eq!(v["parameters"][0]["name"], "fileId");
    assert_eq!(v["parameters"][0]["required"], true);
    assert_eq!(v["parameters"][1]["location"], "query");
    assert_eq!(v["supportsMediaUpload"], false);
}

#[test]
fn discover_errors_list_what_is_available() {
    let doc = mock_nested_doc();
    match discover_result("gmail", &doc, &from_text(r#"{"resource": "labels"}"#)) {
        Err(GwsError::Validation(m)) => assert_eq!(
            m,
            "Resource 'labels' not found in gmail. Available: users, users.messages, users.threads"
        ),
        _ => panic!("expected a validation error"),
    }
    match discover_result(
        "gmail",
        &doc,
        &from_text(r#"{"resource": "users.messages", "method": "send"}"#),
    ) {
        Err(GwsError::Validation(m)) => assert_eq!(
            m,
            "Method 'send' not found in gmail.users.messages. Available: list, get"
        ),
        _ => panic!("expected a validation error"),
    }
}

// -- tool mode and config --

#[test]
fn test_tool_mode_enum_equality() {
    assert_eq!(ToolMode::Compact, ToolMode::Compact);
    assert_ne!(ToolMode::Compact, ToolMode::Full);
}

#[test]
fn server_config_reads_services_and_mode() {
    let known = vec!["drive".to_string(), "gmail".to_string()];
    let c = server_config(" drive , gmail,sheets", &known, true, false, Some("compact"));
    assert_eq!(c.services, vec!["drive", "gmail", "sheets"]);
    assert!(c.workflows);
    assert_eq!(c.tool_mode, ToolMode::Compact);
    let c = server_config("all", &known, false, true, Some("full"));
    assert_eq!(c.services, known);
    assert_eq!(c.tool_mode, ToolMode::Full);
    let c = server_config("", &known, false, false, None);
    assert!(c.services.is_empty());
    assert_eq!(c.tool_mode, ToolMode::Full);
}

// -- workflow tools --

#[test]
fn test_append_workflow_tools_adds_five() {
    let mut tools = Vec::new();
    append_workflow_tools(&mut tools);
    assert_eq!(tools.len(), 5);
    assert_eq!(tools[0].get("name").and_then(|n| n.as_str()), Some("workflow-standup-report"));
    assert_eq!(tools[4].get("name").and_then(|n| n.as_str()), Some("workflow-file-announce"));
}

// -- tool lists --

#[test]
fn full_mode_tools_are_named_by_path() {
    let doc = mock_nested_doc();
    let mut tools = Vec::new();
    walk_resources("gmail", &doc.resources, &mut tools);
    let names: Vec<String> = tools
        .iter()
        .map(|t| t.get("name").unwrap().as_str().unwrap().to_string())
        .collect();
    assert_eq!(
        names,
        vec![
            "gmail-users-getProfile",
            "gmail-users-messages-list",
            "gmail-users-messages-get",
            "gmail-users-threads-list",
        ]
    );
    let v = to_serde(&tools[3]);
    assert_eq!(v["description"], "Execute the gmail-users-threads-list Google API method");
    assert!(v["inputSchema"]["properties"].get("params").is_some());
    assert!(v["inputSchema"]["properties"].get("body").is_none());
}

#[test]
fn listed_full_mode_tools_resolve_to_their_methods() {
    let doc = mock_nested_doc();
    let config = mock_config_full(vec!["gmail"]);
    let mut tools = Vec::new();
    walk_resources("gmail", &doc.resources, &mut tools);
    for tool in &tools {
        let name = tool.get("name").unwrap().as_str().unwrap();
        let params = JsonValue::Object(vec![("name".to_string(), JsonValue::Str(name.to_string()))]);
        match plan_tool_call(&params, &config).unwrap() {
            ToolCall::Full { service, resources, method } => {
                assert_eq!(service, "gmail");
                let found = resolve_full_method(&doc, &resources, &method).unwrap();
                let expected = tool.get("description").unwrap().as_str().unwrap();
                if let Some(d) = &found.description {
                    assert_eq!(d, expected);
                }
            }
            _ => panic!("expected a full-mode call"),
        }
    }
}

#[test]
fn compact_description_sorts_resource_paths() {
    let doc = mock_nested_doc();
    let d = compact_description("gmail", Some(&doc), Some("Gmail API"));
    assert_eq!(d, "Gmail API. Resources: users, users.messages, users.threads");
    let mut reversed = mock_nested_doc();
    reversed.resources[0].1.resources.reverse();
    let d = compact_description("gmail", Some(&reversed), None);
    assert_eq!(d, "Google API. Resources: users, users.messages, users.threads");
    assert_eq!(compact_description("x", None, None), "Google Workspace API: x");
    let empty = RestDescription::default();
    assert_eq!(compact_description("x", Some(&empty), Some("Known")), "Known");
}

#[test]
fn tools_list_in_each_mode() {
    let mut config = mock_config_compact(vec!["gmail", "drive"]);
    config.workflows = true;
    let docs = vec![Some(mock_nested_doc()), None];
    let known = vec![Some("Gmail API".to_string()), None];
    let tools = build_tools_list(&config, &docs, &known);
    assert_eq!(tools.len(), 2 + 1 + 5);
    assert_eq!(tools[1].get("name").unwrap().as_str(), Some("drive"));
    assert_eq!(
        tools[1].get("description").unwrap().as_str(),
        Some("Google Workspace API: drive")
    );
    assert_eq!(tools[2].get("name").unwrap().as_str(), Some("gws-discover"));

    let config = mock_config_full(vec!["gmail", "drive"]);
    let docs = vec![Some(mock_nested_doc()), Some(mock_doc())];
    let known = vec![None, None];
    let tools = build_tools_list(&config, &docs, &known);
    assert_eq!(tools.len(), 4 + 2);
    assert_eq!(tools[4].get("name").unwrap().as_str(), Some("drive-files-list"));
}

// -- tool calls --

#[test]
fn tool_call_plans_and_refusals() {
    let compact = mock_config_compact(vec!["drive"]);
    let full = mock_config_full(vec!["drive"]);

    let refused = |p: &str, c: &ServerConfig| match plan_tool_call(&from_text(p), c) {
        Err(e) => e.to_string(),
        Ok(_) => panic!("expected a refusal"),
    };
    assert_eq!(refused("{}", &full), "Missing 'name' in tools/call");
    match plan_tool_call(&from_text(r#"{"name": "workflow-meeting-prep"}"#), &full) {
        Err(GwsError::Other { message, chain }) => {
            assert_eq!(message, "Workflows are not yet fully implemented via MCP");
            assert_eq!(chain, message);
        }
        _ => panic!("expected an internal error"),
    }
    assert!(matches!(
        plan_tool_call(&from_text(r#"{"name": "gws-discover"}"#), &full),
        Ok(ToolCall::Discover)
    ));
    assert_eq!(refused(r#"{"name": "drive"}"#, &compact), "Missing 'resource' argument");
    assert_eq!(
        refused(r#"{"name": "drive", "arguments": {"resource": "files"}}"#, &compact),
        "Missing 'method' argument"
    );
    assert_eq!(
        refused(
            r#"{"name": "gmail", "arguments": {"resource": "users", "method": "x"}}"#,
            &compact
        ),
        "Service 'gmail' is not enabled in this MCP session"
    );
    match plan_tool_call(
        &from_text(r#"{"name": "drive", "arguments": {"resource": "files", "method": "list"}}"#),
        &compact,
    ) {
        Ok(ToolCall::Compact { service, resource, method }) => {
            assert_eq!((service.as_str(), resource.as_str(), method.as_str()), ("drive", "files", "list"));
        }
        _ => panic!("expected a compact call"),
    }
    assert_eq!(refused(r#"{"name": "drive-files"}"#, &full), "Invalid API tool name: drive-files");
    assert_eq!(
        refused(r#"{"name": "gmail-users-list"}"#, &full),
        "Service 'gmail' is not enabled in this MCP session"
    );
}

#[test]
fn resolution_errors_name_what_is_missing() {
    let doc = mock_nested_doc();
    match resolve_compact_method(&doc, "gmail", "users.labels", "list") {
        Err(GwsError::Validation(m)) => assert_eq!(m, "Resource 'users.labels' not found in gmail"),
        _ => panic!(),
    }
    match resolve_compact_method(&doc, "gmail", "users.messages", "send") {
        Err(GwsError::Validation(m)) => assert_eq!(m, "Method 'send' not found in gmail.users.messages"),
        _ => panic!(),
    }
    assert_eq!(
        resolve_compact_method(&doc, "gmail", "users.messages", "get").unwrap().path,
        "messages/{id}"
    );
    let segs = vec!["users".to_string(), "drafts".to_string()];
    match resolve_full_method(&doc, &segs, "list") {
        Err(GwsError::Validation(m)) => assert_eq!(m, "Resource 'drafts' not found in Discovery Document"),
        _ => panic!(),
    }
    let segs = vec!["users".to_string()];
    match resolve_full_method(&doc, &segs, "watch") {
        Err(GwsError::Validation(m)) => assert_eq!(m, "Method 'watch' not found"),
        _ => panic!(),
    }
    match resolve_full_method(&doc, &Vec::new(), "list") {
        Err(GwsError::Validation(m)) => assert_eq!(m, "Resource not found"),
        _ => panic!(),
    }
}

#[test]
fn call_arguments_drop_empty_body_and_read_page_all() {
    let args = from_text(r#"{"params": {"q": "x"}, "body": {}, "page_all": true}"#);
    let c = call_arguments(&args).unwrap();
    assert_eq!(to_serde(c.params.as_ref().unwrap()).to_string(), r#"{"q":"x"}"#);
    assert!(c.body.is_none());
    assert!(c.page_all);
    assert!(c.upload.is_none());

    let args = from_text(r#"{"body": {"a": 1}, "page_all": "yes", "upload": "data/file.txt"}"#);
    let c = call_arguments(&args).unwrap();
    assert!(c.params.is_none());
    assert!(c.body.is_some());
    assert!(!c.page_all);
    assert_eq!(c.upload.as_deref(), Some("data/file.txt"));

    let args = from_text(r#"{"upload": ""}"#);
    assert!(call_arguments(&args).unwrap().upload.is_none());
}

#[test]
fn upload_paths_outside_the_directory_are_refused() {
    for raw in ["/etc/passwd", "../secret.txt", "a/../../b"] {
        let args = JsonValue::Object(vec![("upload".to_string(), JsonValue::Str(raw.to_string()))]);
        match call_arguments(&args) {
            Err(GwsError::Validation(m)) => assert_eq!(
                m,
                format!("Upload path '{raw}' is not allowed. Paths must be relative and within the current directory.")
            ),
            _ => panic!("expected a refusal for {raw}"),
        }
    }
    assert_eq!(check_upload_path("ok.txt", false, false).unwrap(), "ok.txt");
    assert!(check_upload_path("x", true, false).is_err());
    assert!(check_upload_path("x", false, true).is_err());
}

#[test]
fn tool_arguments_default_to_empty_object() {
    assert_eq!(to_serde(&tool_arguments(&from_text("{}"))).to_string(), "{}");
    assert_eq!(
        to_serde(&tool_arguments(&from_text(r#"{"arguments": {"k": [1, null]}}"#))).to_string(),
        r#"{"k":[1,null]}"#
    );
}

// -- JSON-RPC framing --

#[test]
fn requests_are_routed_by_method() {
    assert!(matches!(route_method("initialize"), McpMethod::Initialize));
    assert!(matches!(route_method("notifications/initialized"), McpMethod::Initialized));
    assert!(matches!(route_method("tools/list"), McpMethod::ToolsList));
    assert!(matches!(route_method("tools/call"), McpMethod::ToolsCall));
    assert!(matches!(route_method("resources/list"), McpMethod::Unsupported));
    assert_eq!(unsupported_method("ping").to_string(), "Method not supported: ping");
}

#[test]
fn request_fields_are_read() {
    let r = parse_request(&from_text(r#"{"jsonrpc": "2.0", "id": 7, "method": "tools/list"}"#));
    assert_eq!(to_serde(r.id.as_ref().unwrap()), serde_json::Value::from(7));
    assert_eq!(r.method, "tools/list");
    assert_eq!(to_serde(&r.params).to_string(), "{}");
    let n = parse_request(&from_text(r#"{"method": 3, "params": {"a": true}}"#));
    assert!(n.id.is_none());
    assert_eq!(n.method, "");
    assert_eq!(to_serde(&n.params).to_string(), r#"{"a":true}"#);
}

#[test]
fn responses_are_framed() {
    let ok = jsonrpc_response(JsonValue::Number("1".to_string()), Ok(JsonValue::Bool(true)));
    assert_eq!(to_serde(&ok).to_string(), r#"{"id":1,"jsonrpc":"2.0","result":true}"#);
    let err = jsonrpc_response(
        JsonValue::Str("a".to_string()),
        Err(GwsError::Validation("Method not supported: x".to_string())),
    );
    assert_eq!(
        to_serde(&err).to_string(),
        r#"{"error":{"code":-32603,"message":"Method not supported: x"},"id":"a","jsonrpc":"2.0"}"#
    );
    assert_eq!(
        to_serde(&parse_error_response()).to_string(),
        r#"{"error":{"code":-32700,"message":"Parse error"},"id":null,"jsonrpc":"2.0"}"#
    );
    let init = to_serde(&initialize_result("1.2.3"));
    assert_eq!(init["protocolVersion"], "2024-11-05");
    assert_eq!(init["serverInfo"]["name"], "gws-mcp");
    assert_eq!(init["serverInfo"]["version"], "1.2.3");
    let list = to_serde(&tools_list_result(vec![JsonValue::Null]));
    assert_eq!(list.to_string(), r#"{"tools":[null]}"#);
}

#[test]
fn failed_tool_calls_are_error_results() {
    let answer = tool_call_answer(Err(GwsError::Validation("nope".to_string())));
    assert_eq!(
        to_serde(&answer).to_string(),
        r#"{"content":[{"text":"nope","type":"text"}],"isError":true}"#
    );
    let passed = tool_call_answer(Ok(JsonValue::Str("fine".to_string())));
    assert_eq!(to_serde(&passed), serde_json::Value::from("fine"));
    let none = execution_result(None);
    assert_eq!(to_serde(&none)["content"][0]["text"], "Execution completed with no output.");
    assert_eq!(to_serde(&none)["isError"], false);
}

#[test]
fn notifications_get_no_response() {
    assert!(respond(None, Ok(JsonValue::Null)).is_none());
    let r = respond(Some(JsonValue::Number("2".to_string())), Ok(JsonValue::Null)).unwrap();
    assert_eq!(to_serde(&r).to_string(), r#"{"id":2,"jsonrpc":"2.0","result":null}"#);
}

#[test]
fn parent_dir_is_found_among_components() {
    let parts = vec![PathPart::CurDir, PathPart::Normal("a".to_string()), PathPart::ParentDir];
    assert!(has_parent_dir(&parts));
    let parts = vec![PathPart::RootDir, PathPart::Normal("..x".to_string())];
    assert!(!has_parent_dir(&parts));
    assert!(!has_parent_dir(&Vec::new()));
}

#[test]
fn requests_are_handled_without_outside_work_where_possible() {
    let empty: Option<Vec<JsonValue>> = None;
    match handle_request("initialize", "9.9", &empty) {
        RequestStep::Reply(Ok(v)) => assert_eq!(to_serde(&v)["serverInfo"]["version"], "9.9"),
        _ => panic!("expected a reply"),
    }
    match handle_request("notifications/initialized", "1", &empty) {
        RequestStep::Reply(Ok(v)) => assert_eq!(to_serde(&v).to_string(), "{}"),
        _ => panic!("expected a reply"),
    }
    assert!(matches!(handle_request("tools/list", "1", &empty), RequestStep::BuildTools));
    assert!(matches!(handle_request("tools/call", "1", &empty), RequestStep::CallTool));
    match handle_request("ping", "1", &empty) {
        RequestStep::Reply(Err(GwsError::Validation(m))) => assert_eq!(m, "Method not supported: ping"),
        _ => panic!("expected an error"),
    }
    let cache = Some(vec![JsonValue::Str("t".to_string())]);
    match handle_request("tools/list", "1", &cache) {
        RequestStep::Reply(Ok(v)) => assert_eq!(to_serde(&v).to_string(), r#"{"tools":["t"]}"#),
        _ => panic!("expected the cached list"),
    }
    assert_eq!(cache.as_ref().unwrap().len(), 1);
}

#[test]
fn list_and_call_replies_always_succeed() {
    let tools = vec![JsonValue::Bool(true)];
    let reply = tools_list_reply(&tools).unwrap();
    assert_eq!(to_serde(&reply).to_string(), r#"{"tools":[true]}"#);
    assert_eq!(duplicate_all(&tools).len(), 1);
    let reply = tool_call_reply(Err(GwsError::Auth("no".to_string()))).unwrap();
    assert_eq!(to_serde(&reply)["isError"], true);
    assert_eq!(to_serde(&reply)["content"][0]["text"], "no");
}

#[test]
fn lines_are_skipped_rejected_or_handled() {
    assert!(matches!(read_line("   ", None), LineStep::Skip));
    assert!(matches!(read_line("", None), LineStep::Skip));
    match read_line("{oops", None) {
        LineStep::Reply(r) => assert_eq!(to_serde(&r)["error"]["code"], -32700),
        _ => panic!("expected a parse error"),
    }
    let text = r#"{"id": 1, "method": "tools/list"}"#;
    match read_line(text, Some(from_text(text))) {
        LineStep::Handle(req) => {
            assert_eq!(req.method, "tools/list");
            assert!(req.id.is_some());
        }
        _ => panic!("expected a request"),
    }
}

#[test]
fn only_collected_paths_are_found() {
    let doc = mock_nested_doc();
    let mut paths = Vec::new();
    collect_resource_paths(&doc.resources, "", &mut paths);
    for q in ["users.labels", "messages", "users.messages.x", "users..messages"] {
        assert!(!paths.contains(&q.to_string()));
        assert!(find_resource(&doc.resources, q).is_none(), "{q}");
    }
}

#[test]
fn collected_paths_occur_once() {
    let doc = mock_nested_doc();
    let mut paths = Vec::new();
    collect_resource_paths(&doc.resources, "", &mut paths);
    let unique: std::collections::HashSet<&String> = paths.iter().collect();
    assert_eq!(unique.len(), paths.len());
}
