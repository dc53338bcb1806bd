//! The tool list the server offers: one tool per API method (full mode) or
//! per service (compact mode), the discovery meta-tool, and workflow tools.
use vstd::prelude::*;
use crate::discovery::{RestDescription, RestMethod, RestResource, lookup, has_entry};
use crate::mcp::resources::{collect_resource_paths, resource_paths};
use crate::mcp::server::{ServerConfig, ToolMode};
use crate::cli::opt_string_view;
use crate::json::{Json, JsonValue, member, push_member, push_item, lemma_get_first, lemma_get_concat,
    lemma_get_single, lemma_get_empty, members_view, lemma_members_view, items_view, lemma_items_view};
use crate::text::{owned, join, join_spec, sort_strings, is_sorted_permutation, views};

verus! {

/// `{"type": t, "description": d}`.
pub open spec fn typed(t: Seq<char>, d: Seq<char>) -> Json {
    Json::Object(seq![("type"@, Json::Str(t)), ("description"@, Json::Str(d))])
}

/// Builds `{"type": t, "description": d}`.
pub fn typed_value(t: &str, d: &str) -> (res: JsonValue)
    ensures
        res@ == typed(t@, d@),
{
    let members = vec![member("type", JsonValue::string(t)), member("description", JsonValue::string(d))];
    proof {
        lemma_members_view(members@);
        assert(members_view(members@) =~= seq![("type"@, Json::Str(t@)), ("description"@, Json::Str(d@))]);
    }
    JsonValue::object(members)
}

/// The input schema properties of a method's tool: `params` always; `body`
/// when the method takes a request body; `upload` when it accepts media;
/// `page_all` when it pages (has a `pageToken` parameter).
pub open spec fn method_properties(m: RestMethod) -> Seq<(Seq<char>, Json)> {
    seq![("params"@, typed("object"@, "Query or path parameters (e.g. fileId, q, pageSize)"@))] + (
    if m.request is Some {
        seq![("body"@, typed("object"@, "Request body API object"@))]
    } else {
        Seq::empty()
    }) + (if m.supports_media_upload {
        seq![("upload"@, typed("string"@, "Local file path to upload as media content"@))]
    } else {
        Seq::empty()
    }) + (if lookup(m.parameters@, "pageToken"@) is Some {
        seq![("page_all"@, typed("boolean"@, "Auto-paginate, returning all pages"@))]
    } else {
        Seq::empty()
    })
}

/// A method's description, or a generic one naming the tool when it has none.
pub open spec fn tool_description(tool_name: Seq<char>, m: RestMethod) -> Seq<char> {
    match m.description {
        Some(d) if d@.len() > 0 => d@,
        _ => "Execute the "@ + tool_name + " Google API method"@,
    }
}

/// The tool of one API method.
pub open spec fn method_tool(tool_name: Seq<char>, m: RestMethod) -> Json {
    Json::Object(
        seq![
            ("name"@, Json::Str(tool_name)),
            ("description"@, Json::Str(tool_description(tool_name, m))),
            (
                "inputSchema"@,
                Json::Object(
                    seq![
                        ("type"@, Json::Str("object"@)),
                        ("properties"@, Json::Object(method_properties(m))),
                    ],
                ),
            ),
        ],
    )
}

fn describe(tool_name: &str, method: &RestMethod) -> (res: String)
    ensures
        res@ == tool_description(tool_name@, *method),
{
    if let Some(d) = &method.description {
        if !d.as_str().is_empty() {
            return d.clone();
        }
    }
    let mut s = owned("Execute the ");
    s.append(tool_name);
    s.append(" Google API method");
    s
}

/// Builds the tool of one API method.
pub fn method_tool_value(tool_name: &str, method: &RestMethod) -> (res: JsonValue)
    ensures
        res@ == method_tool(tool_name@, *method),
{
    let description = describe(tool_name, method);
    let mut properties: Vec<(String, JsonValue)> = Vec::new();
    assert(members_view(properties@) == Seq::<(Seq<char>, Json)>::empty());
    push_member(
        &mut properties,
        "params",
        typed_value("object", "Query or path parameters (e.g. fileId, q, pageSize)"),
    );
    let ghost p1 = members_view(properties@);
    if method.request.is_some() {
        push_member(&mut properties, "body", typed_value("object", "Request body API object"));
    }
    let ghost p2 = members_view(properties@);
    if method.supports_media_upload {
        push_member(
            &mut properties,
            "upload",
            typed_value("string", "Local file path to upload as media content"),
        );
    }
    let ghost p3 = members_view(properties@);
    if has_entry(&method.parameters, "pageToken") {
        push_member(
            &mut properties,
            "page_all",
            typed_value("boolean", "Auto-paginate, returning all pages"),
        );
    }
    proof {
        assert(members_view(properties@) =~= method_properties(*method));
    }
    let props = JsonValue::object(properties);
    assert(props@ == Json::Object(method_properties(*method)));
    let mut schema: Vec<(String, JsonValue)> = Vec::new();
    assert(members_view(schema@) == Seq::<(Seq<char>, Json)>::empty());
    push_member(&mut schema, "type", JsonValue::string("object"));
    push_member(&mut schema, "properties", props);
    assert(members_view(schema@) =~= method_tool(tool_name@, *method)->Object_0[2].1->Object_0);
    let schema_value = JsonValue::object(schema);
    let mut tool: Vec<(String, JsonValue)> = Vec::new();
    assert(members_view(tool@) == Seq::<(Seq<char>, Json)>::empty());
    push_member(&mut tool, "name", JsonValue::string(tool_name));
    push_member(&mut tool, "description", JsonValue::Str(description));
    push_member(&mut tool, "inputSchema", schema_value);
    proof {
        assert(members_view(tool@) =~= method_tool(tool_name@, *method)->Object_0);
    }
    JsonValue::object(tool)
}

} // verus!

verus! {

/// The tools of a resource's methods, named `prefix-method`.
pub open spec fn method_tools(methods: Seq<(String, RestMethod)>, prefix: Seq<char>) -> Seq<Json>
    decreases methods.len(),
{
    if methods.len() == 0 {
        Seq::empty()
    } else {
        seq![method_tool(prefix + "-"@ + methods[0].0@, methods[0].1)] + method_tools(
            methods.subrange(1, methods.len() as int),
            prefix,
        )
    }
}

/// The tools of every method under `entries`, depth first: each resource's
/// methods (named `prefix-resource-method`), then its nested resources,
/// then its later siblings.
pub open spec fn resource_tools(entries: Seq<(String, RestResource)>, prefix: Seq<char>) -> Seq<Json>
    decreases entries,
{
    if entries.len() == 0 {
        Seq::empty()
    } else {
        let p = prefix + "-"@ + entries[0].0@;
        proof {
            assert(decreases_to!(entries => entries[0]));
            assert(decreases_to!(entries[0] => entries[0].1));
            assert(decreases_to!(entries[0].1 => entries[0].1.resources));
            assert(decreases_to!(entries[0].1.resources => entries[0].1.resources@));
            assert(decreases_to!(entries => entries.subrange(1, entries.len() as int)));
        }
        method_tools(entries[0].1.methods@, p) + resource_tools(entries[0].1.resources@, p)
            + resource_tools(entries.subrange(1, entries.len() as int), prefix)
    }
}

fn dash_join(prefix: &str, name: &str) -> (res: String)
    ensures
        res@ == prefix@ + "-"@ + name@,
{
    let mut s = owned(prefix);
    s.append("-");
    s.append(name);
    s
}

/// Appends one tool per method of every resource, recursively; tool names
/// are the resource path joined with `-` after `prefix`.
pub fn walk_resources(prefix: &str, resources: &Vec<(String, RestResource)>, tools: &mut Vec<JsonValue>)
    ensures
        items_view(final(tools)@) == items_view(old(tools)@) + resource_tools(resources@, prefix@),
    decreases resources@,
{
    let ghost start = items_view(tools@);
    proof {
        assert(resources@.subrange(0, resources@.len() as int) == resources@);
    }
    let mut i: usize = 0;
    while i < resources.len()
        invariant
            i <= resources.len(),
            items_view(tools@) + resource_tools(resources@.subrange(i as int, resources@.len() as int), prefix@)
                == start + resource_tools(resources@, prefix@),
        decreases resources.len() - i,
    {
        let ghost rest = resources@.subrange(i as int, resources@.len() as int);
        let (res_name, res) = &resources[i];
        let new_prefix = dash_join(prefix, res_name.as_str());
        proof {
            assert(rest[0] == resources@[i as int]);
            assert(rest.subrange(1, rest.len() as int) =~= resources@.subrange(
                i + 1,
                resources@.len() as int,
            ));
            assert(decreases_to!(resources@ => resources@[i as int]));
            assert(decreases_to!(resources@[i as int] => resources@[i as int].1));
            assert(decreases_to!(resources@[i as int].1 => resources@[i as int].1.resources));
            assert(decreases_to!(resources@[i as int].1.resources => resources@[i as int].1.resources@));
        }
        let ghost before = items_view(tools@);
        let mut k: usize = 0;
        proof {
            assert(res.methods@.subrange(0, res.methods@.len() as int) == res.methods@);
        }
        while k < res.methods.len()
            invariant
                k <= res.methods.len(),
                items_view(tools@) + method_tools(
                    res.methods@.subrange(k as int, res.methods@.len() as int),
                    new_prefix@,
                ) == before + method_tools(res.methods@, new_prefix@),
            decreases res.methods.len() - k,
        {
            let ghost mrest = res.methods@.subrange(k as int, res.methods@.len() as int);
            let (method_name, method) = &res.methods[k];
            let tool_name = dash_join(new_prefix.as_str(), method_name.as_str());
            let tool = method_tool_value(tool_name.as_str(), method);
            let ghost t0 = items_view(tools@);
            let ghost v0 = tools@;
            tools.push(tool);
            proof {
                assert(tools@.drop_last() =~= v0);
                assert(mrest[0] == res.methods@[k as int]);
                assert(mrest.subrange(1, mrest.len() as int) =~= res.methods@.subrange(
                    k + 1,
                    res.methods@.len() as int,
                ));
                assert(items_view(tools@) == t0.push(tool@));
                assert(items_view(tools@) + method_tools(
                    res.methods@.subrange(k + 1, res.methods@.len() as int),
                    new_prefix@,
                ) =~= t0 + method_tools(mrest, new_prefix@));
            }
            k = k + 1;
        }
        proof {
            assert(res.methods@.subrange(res.methods@.len() as int, res.methods@.len() as int)
                =~= Seq::<(String, RestMethod)>::empty());
            assert(items_view(tools@) + Seq::<Json>::empty() == items_view(tools@));
        }
        let ghost after_methods = items_view(tools@);
        if !res.resources.is_empty() {
            walk_resources(new_prefix.as_str(), &res.resources, tools);
        } else {
            proof {
                assert(resource_tools(res.resources@, new_prefix@) =~= Seq::<Json>::empty());
                assert(items_view(tools@) + resource_tools(res.resources@, new_prefix@) == items_view(tools@));
            }
        }
        proof {
            assert(items_view(tools@) + resource_tools(
                resources@.subrange(i + 1, resources@.len() as int),
                prefix@,
            ) =~= before + resource_tools(rest, prefix@));
        }
        i = i + 1;
    }
    proof {
        assert(resources@.subrange(resources@.len() as int, resources@.len() as int)
            =~= Seq::<(String, RestResource)>::empty());
        assert(items_view(tools@) + Seq::<Json>::empty() == items_view(tools@));
    }
}

} // verus!

verus! {

/// The characters of each string.
pub open spec fn str_views(v: Seq<&str>) -> Seq<Seq<char>> {
    v.map_values(|s: &str| s@)
}

/// String values for each text.
pub open spec fn str_values(v: Seq<Seq<char>>) -> Seq<Json> {
    v.map_values(|s: Seq<char>| Json::Str(s))
}

/// An object input schema with the given properties, and the required
/// properties when there are any.
pub open spec fn object_schema(props: Seq<(Seq<char>, Json)>, required: Seq<Seq<char>>) -> Json {
    if required.len() == 0 {
        Json::Object(seq![("type"@, Json::Str("object"@)), ("properties"@, Json::Object(props))])
    } else {
        Json::Object(
            seq![
                ("type"@, Json::Str("object"@)),
                ("properties"@, Json::Object(props)),
                ("required"@, Json::Array(str_values(required))),
            ],
        )
    }
}

/// A tool: its name, description and input schema.
pub open spec fn tool_json(name: Seq<char>, description: Seq<char>, schema: Json) -> Json {
    Json::Object(
        seq![
            ("name"@, Json::Str(name)),
            ("description"@, Json::Str(description)),
            ("inputSchema"@, schema),
        ],
    )
}

/// Builds an object input schema.
fn object_schema_value(props: Vec<(String, JsonValue)>, required: Vec<&str>) -> (res: JsonValue)
    ensures
        res@ == object_schema(members_view(props@), str_views(required@)),
{
    let ghost pv = members_view(props@);
    let mut schema: Vec<(String, JsonValue)> = Vec::new();
    assert(members_view(schema@) == Seq::<(Seq<char>, Json)>::empty());
    push_member(&mut schema, "type", JsonValue::string("object"));
    push_member(&mut schema, "properties", JsonValue::object(props));
    if required.len() > 0 {
        let mut items: Vec<JsonValue> = Vec::new();
        let mut i: usize = 0;
        while i < required.len()
            invariant
                i <= required.len(),
                items_view(items@) == str_values(str_views(required@)).take(i as int),
            decreases required.len() - i,
        {
            let ghost v0 = items@;
            items.push(JsonValue::string(required[i]));
            proof {
                assert(items@.drop_last() =~= v0);
                assert(str_values(str_views(required@)).take(i + 1) =~= str_values(
                    str_views(required@),
                ).take(i as int).push(Json::Str(required@[i as int]@)));
            }
            i = i + 1;
        }
        proof {
            assert(str_values(str_views(required@)).take(required@.len() as int) =~= str_values(
                str_views(required@),
            ));
        }
        push_member(&mut schema, "required", JsonValue::array(items));
        proof {
            assert(members_view(schema@) =~= object_schema(pv, str_views(required@))->Object_0);
        }
    } else {
        proof {
            assert(members_view(schema@) =~= object_schema(pv, str_views(required@))->Object_0);
        }
    }
    JsonValue::object(schema)
}

/// Builds a tool.
fn tool_value(name: &str, description: &str, schema: JsonValue) -> (res: JsonValue)
    ensures
        res@ == tool_json(name@, description@, schema@),
{
    let mut tool: Vec<(String, JsonValue)> = Vec::new();
    assert(members_view(tool@) == Seq::<(Seq<char>, Json)>::empty());
    push_member(&mut tool, "name", JsonValue::string(name));
    push_member(&mut tool, "description", JsonValue::string(description));
    push_member(&mut tool, "inputSchema", schema);
    proof {
        assert(members_view(tool@) =~= tool_json(name@, description@, schema@)->Object_0);
    }
    JsonValue::object(tool)
}

/// The five workflow tools, in order.
pub open spec fn workflow_tools() -> Seq<Json> {
    seq![
        tool_json(
            "workflow-standup-report"@,
            "Today's meetings + open tasks as a standup summary"@,
            object_schema(
                seq![("format"@, typed("string"@, "Output format: json, table, yaml, csv"@))],
                Seq::empty(),
            ),
        ),
        tool_json(
            "workflow-meeting-prep"@,
            "Prepare for your next meeting: agenda, attendees, and linked docs"@,
            object_schema(
                seq![("calendar"@, typed("string"@, "Calendar ID (default: primary)"@))],
                Seq::empty(),
            ),
        ),
        tool_json(
            "workflow-email-to-task"@,
            "Convert a Gmail message into a Google Tasks entry"@,
            object_schema(
                seq![
                    ("message_id"@, typed("string"@, "Gmail message ID"@)),
                    ("tasklist"@, typed("string"@, "Task list ID"@)),
                ],
                seq!["message_id"@],
            ),
        ),
        tool_json(
            "workflow-weekly-digest"@,
            "Weekly summary: this week's meetings + unread email count"@,
            object_schema(seq![("format"@, typed("string"@, "Output format"@))], Seq::empty()),
        ),
        tool_json(
            "workflow-file-announce"@,
            "Announce a Drive file in a Chat space"@,
            object_schema(
                seq![
                    ("file_id"@, typed("string"@, "Drive file ID"@)),
                    ("space"@, typed("string"@, "Chat space name"@)),
                    ("message"@, typed("string"@, "Custom message"@)),
                ],
                seq!["file_id"@, "space"@],
            ),
        ),
    ]
}

/// Appends the five workflow tools.
pub fn append_workflow_tools(tools: &mut Vec<JsonValue>)
    ensures
        items_view(final(tools)@) == items_view(old(tools)@) + workflow_tools(),
{
    let ghost start = items_view(tools@);
    let mut p1: Vec<(String, JsonValue)> = Vec::new();
    assert(members_view(p1@) == Seq::<(Seq<char>, Json)>::empty());
    push_member(&mut p1, "format", typed_value("string", "Output format: json, table, yaml, csv"));
    let t1 = tool_value(
        "workflow-standup-report",
        "Today's meetings + open tasks as a standup summary",
        object_schema_value(p1, vec![]),
    );
    let mut p2: Vec<(String, JsonValue)> = Vec::new();
    assert(members_view(p2@) == Seq::<(Seq<char>, Json)>::empty());
    push_member(&mut p2, "calendar", typed_value("string", "Calendar ID (default: primary)"));
    let t2 = tool_value(
        "workflow-meeting-prep",
        "Prepare for your next meeting: agenda, attendees, and linked docs",
        object_schema_value(p2, vec![]),
    );
    let mut p3: Vec<(String, JsonValue)> = Vec::new();
    assert(members_view(p3@) == Seq::<(Seq<char>, Json)>::empty());
    push_member(&mut p3, "message_id", typed_value("string", "Gmail message ID"));
    push_member(&mut p3, "tasklist", typed_value("string", "Task list ID"));
    let r3 = vec!["message_id"];
    proof {
        assert(str_views(r3@) =~= seq!["message_id"@]);
        assert(str_values(str_views(r3@)) =~= str_values(seq!["message_id"@]));
    }
    let t3 = tool_value(
        "workflow-email-to-task",
        "Convert a Gmail message into a Google Tasks entry",
        object_schema_value(p3, r3),
    );
    let mut p4: Vec<(String, JsonValue)> = Vec::new();
    assert(members_view(p4@) == Seq::<(Seq<char>, Json)>::empty());
    push_member(&mut p4, "format", typed_value("string", "Output format"));
    let t4 = tool_value(
        "workflow-weekly-digest",
        "Weekly summary: this week's meetings + unread email count",
        object_schema_value(p4, vec![]),
    );
    let mut p5: Vec<(String, JsonValue)> = Vec::new();
    assert(members_view(p5@) == Seq::<(Seq<char>, Json)>::empty());
    push_member(&mut p5, "file_id", typed_value("string", "Drive file ID"));
    push_member(&mut p5, "space", typed_value("string", "Chat space name"));
    push_member(&mut p5, "message", typed_value("string", "Custom message"));
    let r5 = vec!["file_id", "space"];
    proof {
        assert(str_views(r5@) =~= seq!["file_id"@, "space"@]);
        assert(str_values(str_views(r5@)) =~= str_values(seq!["file_id"@, "space"@]));
    }
    let t5 = tool_value(
        "workflow-file-announce",
        "Announce a Drive file in a Chat space",
        object_schema_value(p5, r5),
    );
    proof {
        assert(str_views(Seq::<&str>::empty()) =~= Seq::<Seq<char>>::empty());
    }
    let ghost w = seq![t1@, t2@, t3@, t4@, t5@];
    push_item(tools, t1);
    push_item(tools, t2);
    push_item(tools, t3);
    push_item(tools, t4);
    push_item(tools, t5);
    proof {
        assert(items_view(tools@) =~= start + w);
        let wt = workflow_tools();
        assert(t1@ == wt[0]);
        assert(t2@ == wt[1]);
        assert(members_view(p3@) =~= seq![
            ("message_id"@, typed("string"@, "Gmail message ID"@)),
            ("tasklist"@, typed("string"@, "Task list ID"@)),
        ]);
        assert(object_schema(members_view(p3@), str_views(r3@)) == object_schema(
            seq![
                ("message_id"@, typed("string"@, "Gmail message ID"@)),
                ("tasklist"@, typed("string"@, "Task list ID"@)),
            ],
            seq!["message_id"@],
        ));
        assert(t3@ == wt[2]);
        assert(t4@ == wt[3]);
        assert(members_view(p5@) =~= seq![
            ("file_id"@, typed("string"@, "Drive file ID"@)),
            ("space"@, typed("string"@, "Chat space name"@)),
            ("message"@, typed("string"@, "Custom message"@)),
        ]);
        assert(object_schema(members_view(p5@), str_views(r5@)) == object_schema(
            seq![
                ("file_id"@, typed("string"@, "Drive file ID"@)),
                ("space"@, typed("string"@, "Chat space name"@)),
                ("message"@, typed("string"@, "Custom message"@)),
            ],
            seq!["file_id"@, "space"@],
        ));
        assert(t5@ == wt[4]);
        assert(w =~= workflow_tools());
    }
}

} // verus!

verus! {

/// The tool of one service in compact mode: resource, method and call
/// arguments are given in the input.
pub open spec fn compact_tool(service: Seq<char>, description: Seq<char>) -> Json {
    tool_json(
        service,
        description,
        object_schema(
            seq![
                ("resource"@, typed("string"@, "Resource name (e.g., files, permissions)"@)),
                ("method"@, typed("string"@, "Method name (e.g., list, get, create)"@)),
                ("params"@, typed("object"@, "Query or path parameters"@)),
                ("body"@, typed("object"@, "Request body"@)),
                ("upload"@, typed("string"@, "Local file path to upload"@)),
                ("page_all"@, typed("boolean"@, "Auto-paginate, returning all pages"@)),
            ],
            seq!["resource"@, "method"@],
        ),
    )
}

/// Builds the compact-mode tool of a service.
pub fn compact_tool_value(service: &str, description: &str) -> (res: JsonValue)
    ensures
        res@ == compact_tool(service@, description@),
{
    let mut p: Vec<(String, JsonValue)> = Vec::new();
    assert(members_view(p@) == Seq::<(Seq<char>, Json)>::empty());
    push_member(&mut p, "resource", typed_value("string", "Resource name (e.g., files, permissions)"));
    push_member(&mut p, "method", typed_value("string", "Method name (e.g., list, get, create)"));
    push_member(&mut p, "params", typed_value("object", "Query or path parameters"));
    push_member(&mut p, "body", typed_value("object", "Request body"));
    push_member(&mut p, "upload", typed_value("string", "Local file path to upload"));
    push_member(&mut p, "page_all", typed_value("boolean", "Auto-paginate, returning all pages"));
    let ghost pv = members_view(p@);
    let r = vec!["resource", "method"];
    proof {
        assert(str_views(r@) =~= seq!["resource"@, "method"@]);
        assert(str_values(str_views(r@)) =~= str_values(seq!["resource"@, "method"@]));
    }
    let schema = object_schema_value(p, r);
    let res = tool_value(service, description, schema);
    proof {
        let expected = compact_tool(service@, description@);
        assert(pv =~= expected->Object_0[2].1->Object_0[1].1->Object_0);
    }
    res
}

/// The discovery meta-tool of compact mode.
pub open spec fn discover_tool() -> Json {
    tool_json(
        "gws-discover"@,
        "Query available resources, methods, and parameter schemas for any enabled service. Call with service only to list resources; add resource to list methods; add method to get full parameter schema."@,
        object_schema(
            seq![
                ("service"@, typed("string"@, "Service name (e.g., drive, gmail)"@)),
                ("resource"@, typed("string"@, "Resource name to list methods for"@)),
                ("method"@, typed("string"@, "Method name to get full parameter schema"@)),
            ],
            seq!["service"@],
        ),
    )
}

/// Builds the discovery meta-tool.
pub fn discover_tool_value() -> (res: JsonValue)
    ensures
        res@ == discover_tool(),
{
    let mut p: Vec<(String, JsonValue)> = Vec::new();
    assert(members_view(p@) == Seq::<(Seq<char>, Json)>::empty());
    push_member(&mut p, "service", typed_value("string", "Service name (e.g., drive, gmail)"));
    push_member(&mut p, "resource", typed_value("string", "Resource name to list methods for"));
    push_member(&mut p, "method", typed_value("string", "Method name to get full parameter schema"));
    let ghost pv = members_view(p@);
    let r = vec!["service"];
    proof {
        assert(str_views(r@) =~= seq!["service"@]);
        assert(str_values(str_views(r@)) =~= str_values(seq!["service"@]));
    }
    let schema = object_schema_value(p, r);
    let res = tool_value(
        "gws-discover",
        "Query available resources, methods, and parameter schemas for any enabled service. Call with service only to list resources; add resource to list methods; add method to get full parameter schema.",
        schema,
    );
    proof {
        assert(pv =~= discover_tool()->Object_0[2].1->Object_0[1].1->Object_0);
    }
    res
}

} // verus!

verus! {

/// `desc` describes a service's compact tool: without its Discovery Document
/// a generic line naming the service; with it, the service's known
/// description (or "Google API") and, when it has resources, their paths in
/// sorted order.
pub open spec fn is_compact_description(
    desc: Seq<char>,
    service: Seq<char>,
    doc: Option<RestDescription>,
    known: Option<Seq<char>>,
) -> bool {
    match doc {
        None => desc == "Google Workspace API: "@ + service,
        Some(d) => {
            let base = match known {
                Some(k) => k,
                None => "Google API"@,
            };
            let paths = resource_paths(d.resources@, Seq::empty());
            if paths.len() == 0 {
                desc == base
            } else {
                exists|sorted: Seq<Seq<char>>|
                    is_sorted_permutation(sorted, paths) && desc == base + ". Resources: "@
                        + join_spec(sorted, ", "@)
            }
        },
    }
}

/// The description of a service's compact tool.
pub fn compact_description(
    service: &str,
    doc: Option<&RestDescription>,
    known: Option<&str>,
) -> (res: String)
    ensures
        is_compact_description(
            res@,
            service@,
            match doc {
                Some(d) => Some(*d),
                None => None,
            },
            match known {
                Some(k) => Some(k@),
                None => None,
            },
        ),
{
    match doc {
        None => {
            let mut s = owned("Google Workspace API: ");
            s.append(service);
            s
        },
        Some(d) => {
            let mut names: Vec<String> = Vec::new();
            proof {
                reveal_strlit("");
                assert(""@ =~= Seq::<char>::empty());
                assert(views(names@) =~= Seq::<Seq<char>>::empty());
            }
            let ghost v0 = views(names@);
            collect_resource_paths(&d.resources, "", &mut names);
            proof {
                assert(views(names@) == v0 + resource_paths(d.resources@, ""@));
                assert(views(names@) =~= resource_paths(d.resources@, Seq::empty()));
            }
            let ghost paths = views(names@);
            sort_strings(&mut names);
            let base = match known {
                Some(k) => k,
                None => "Google API",
            };
            if names.is_empty() {
                proof {
                    broadcast use vstd::seq_lib::group_to_multiset_ensures;
                    assert(views(names@).to_multiset() == paths.to_multiset());
                    assert(views(names@).to_multiset().len() == views(names@).len());
                    assert(paths.to_multiset().len() == paths.len());
                    assert(paths.len() == 0);
                }
                owned(base)
            } else {
                let mut s = owned(base);
                s.append(". Resources: ");
                let joined = join(&names, ", ");
                s.append(joined.as_str());
                proof {
                    assert(is_sorted_permutation(views(names@), paths));
                    broadcast use vstd::seq_lib::group_to_multiset_ensures;
                    assert(views(names@).to_multiset() == paths.to_multiset());
                    assert(views(names@).to_multiset().len() == views(names@).len());
                    assert(paths.to_multiset().len() == paths.len());
                }
                s
            }
        },
    }
}

} // verus!

verus! {

/// The full-mode tools of each service whose Discovery Document was loaded,
/// service after service; a service without its document offers none.
pub open spec fn full_tools(services: Seq<Seq<char>>, docs: Seq<Option<RestDescription>>) -> Seq<Json>
    decreases services.len(),
{
    if services.len() == 0 || docs.len() == 0 {
        Seq::empty()
    } else {
        full_tools(services.drop_last(), docs.drop_last()) + match docs.last() {
            Some(d) => resource_tools(d.resources@, services.last()),
            None => Seq::empty(),
        }
    }
}

/// `tool` is the compact-mode tool of `service`, with a description that
/// `is_compact_description` admits.
pub open spec fn is_compact_tool(
    tool: Json,
    service: Seq<char>,
    doc: Option<RestDescription>,
    known: Option<Seq<char>>,
) -> bool {
    exists|d: Seq<char>| #[trigger]
        is_compact_description(d, service, doc, known) && tool == compact_tool(service, d)
}

/// The workflow tools when they are enabled.
pub open spec fn optional_workflows(enabled: bool) -> Seq<Json> {
    if enabled {
        workflow_tools()
    } else {
        Seq::empty()
    }
}

/// The list `tools/list` answers with. `docs[i]` is the Discovery Document
/// of `config.services[i]` where it could be loaded, and `known[i]` that
/// service's description where the service is known.
pub fn build_tools_list(
    config: &ServerConfig,
    docs: &Vec<Option<RestDescription>>,
    known: &Vec<Option<String>>,
) -> (res: Vec<JsonValue>)
    requires
        docs.len() == config.services.len(),
        known.len() == config.services.len(),
    ensures
        config.tool_mode == ToolMode::Full ==> items_view(res@) == full_tools(
            views(config.services@),
            docs@,
        ) + optional_workflows(config.workflows),
        config.tool_mode == ToolMode::Compact ==> {
            let n = config.services.len() as int;
            &&& items_view(res@).len() == n + 1 + optional_workflows(config.workflows).len()
            &&& forall|i: int|
                0 <= i < n ==> #[trigger] is_compact_tool(
                    items_view(res@)[i],
                    config.services@[i]@,
                    docs@[i],
                    opt_string_view(known@[i]),
                )
            &&& items_view(res@)[n] == discover_tool()
            &&& items_view(res@).skip(n + 1) == optional_workflows(config.workflows)
        },
{
    let mut tools: Vec<JsonValue> = Vec::new();
    let n = config.services.len();
    let ghost svcs = views(config.services@);
    if config.tool_mode == ToolMode::Compact {
        let mut i: usize = 0;
        while i < n
            invariant
                i <= n,
                n == config.services.len(),
                docs.len() == n,
                known.len() == n,
                items_view(tools@).len() == i,
                forall|j: int|
                    0 <= j < i ==> #[trigger] is_compact_tool(
                        items_view(tools@)[j],
                        config.services@[j]@,
                        docs@[j],
                        opt_string_view(known@[j]),
                    ),
            decreases n - i,
        {
            let svc = config.services[i].as_str();
            let doc = match &docs[i] {
                Some(d) => Some(d),
                None => None,
            };
            let k = match &known[i] {
                Some(s) => Some(s.as_str()),
                None => None,
            };
            let desc = compact_description(svc, doc, k);
            let tool = compact_tool_value(svc, desc.as_str());
            let ghost t0 = items_view(tools@);
            push_item(&mut tools, tool);
            proof {
                lemma_items_view(tools@);
                assert(is_compact_description(desc@, config.services@[i as int]@, docs@[i as int], opt_string_view(known@[i as int])));
                assert forall|j: int| 0 <= j < i + 1 implies #[trigger] is_compact_tool(
                    items_view(tools@)[j],
                    config.services@[j]@,
                    docs@[j],
                    opt_string_view(known@[j]),
                ) by {
                    if j < i {
                        assert(items_view(tools@)[j] == t0[j]);
                        assert(is_compact_tool(t0[j], config.services@[j]@, docs@[j], opt_string_view(known@[j])));
                    } else {
                        assert(items_view(tools@)[j] == compact_tool(config.services@[j]@, desc@));
                    }
                }
            }
            i = i + 1;
        }
        let ghost t1 = items_view(tools@);
        push_item(&mut tools, discover_tool_value());
        let ghost t2 = items_view(tools@);
        if config.workflows {
            append_workflow_tools(&mut tools);
        }
        proof {
            assert(items_view(tools@) =~= t2 + optional_workflows(config.workflows));
            assert(items_view(tools@).skip(n + 1) =~= optional_workflows(config.workflows));
            assert forall|j: int| 0 <= j < n implies #[trigger] is_compact_tool(
                items_view(tools@)[j],
                config.services@[j]@,
                docs@[j],
                opt_string_view(known@[j]),
            ) by {
                assert(items_view(tools@)[j] == t1[j]);
                assert(is_compact_tool(t1[j], config.services@[j]@, docs@[j], opt_string_view(known@[j])));
            }
        }
    } else {
        let mut i: usize = 0;
        proof {
            assert(items_view(tools@) =~= Seq::<Json>::empty());
        }
        while i < n
            invariant
                i <= n,
                n == config.services.len(),
                docs.len() == n,
                svcs == views(config.services@),
                items_view(tools@) == full_tools(svcs.take(i as int), docs@.take(i as int)),
            decreases n - i,
        {
            proof {
                assert(svcs.take(i + 1).drop_last() =~= svcs.take(i as int));
                assert(docs@.take(i + 1).drop_last() =~= docs@.take(i as int));
                assert(svcs.take(i + 1).last() == config.services@[i as int]@);
            }
            match &docs[i] {
                Some(d) => {
                    walk_resources(config.services[i].as_str(), &d.resources, &mut tools);
                },
                None => {
                    assert(items_view(tools@) =~= items_view(tools@) + Seq::<Json>::empty());
                },
            }
            i = i + 1;
        }
        proof {
            assert(svcs.take(n as int) =~= svcs);
            assert(docs@.take(n as int) =~= docs@);
        }
        let ghost t1 = items_view(tools@);
        if config.workflows {
            append_workflow_tools(&mut tools);
        }
        proof {
            assert(items_view(tools@) =~= t1 + optional_workflows(config.workflows));
        }
    }
    tools
}

/// The input-schema properties of a tool (`Null` where it has none).
pub open spec fn tool_properties(tool: Json) -> Json {
    match tool.get("inputSchema"@) {
        Some(schema) => match schema.get("properties"@) {
            Some(props) => props,
            None => Json::Null,
        },
        None => Json::Null,
    }
}

proof fn lemma_optional_member(c: bool, k: Seq<char>, v: Json, key: Seq<char>)
    ensures
        Json::Object(if c { seq![(k, v)] } else { Seq::empty() }).get(key) == if c && k == key {
            Some(v)
        } else {
            None
        },
{
    if c {
        lemma_get_single(k, v, key);
    } else {
        lemma_get_empty(key);
    }
}

/// The input schema of a method's tool offers `params` always, `body`
/// exactly when the method takes a request body (whatever its media flags),
/// `upload` exactly when it accepts media uploads, and `page_all` exactly
/// when it pages (has a `pageToken` parameter).
pub proof fn method_tool_schema(name: Seq<char>, m: RestMethod)
    ensures
        tool_properties(method_tool(name, m)).get("params"@) == Some(
            typed("object"@, "Query or path parameters (e.g. fileId, q, pageSize)"@),
        ),
        tool_properties(method_tool(name, m)).get("body"@) is Some <==> m.request is Some,
        m.request is Some ==> tool_properties(method_tool(name, m)).get("body"@) == Some(
            typed("object"@, "Request body API object"@),
        ),
        tool_properties(method_tool(name, m)).get("upload"@) is Some <==> m.supports_media_upload,
        tool_properties(method_tool(name, m)).get("page_all"@) is Some <==> lookup(
            m.parameters@,
            "pageToken"@,
        ) is Some,
{
    reveal_strlit("name");
    reveal_strlit("description");
    reveal_strlit("inputSchema");
    reveal_strlit("type");
    reveal_strlit("properties");
    reveal_strlit("params");
    reveal_strlit("body");
    reveal_strlit("upload");
    reveal_strlit("page_all");
    let top = seq![
        ("name"@, Json::Str(name)),
        ("description"@, Json::Str(tool_description(name, m))),
        (
            "inputSchema"@,
            Json::Object(
                seq![("type"@, Json::Str("object"@)), ("properties"@, Json::Object(method_properties(m)))],
            ),
        ),
    ];
    assert("name"@.len() != "inputSchema"@.len());
    assert("description"@[0] != "inputSchema"@[0]);
    lemma_get_first(top, "inputSchema"@, 2);
    let schema = seq![("type"@, Json::Str("object"@)), ("properties"@, Json::Object(method_properties(m)))];
    assert("type"@.len() != "properties"@.len());
    lemma_get_first(schema, "properties"@, 1);
    assert(tool_properties(method_tool(name, m)) == Json::Object(method_properties(m)));
    let c0 = seq![("params"@, typed("object"@, "Query or path parameters (e.g. fileId, q, pageSize)"@))];
    let c1 = if m.request is Some {
        seq![("body"@, typed("object"@, "Request body API object"@))]
    } else {
        Seq::empty()
    };
    let c2 = if m.supports_media_upload {
        seq![("upload"@, typed("string"@, "Local file path to upload as media content"@))]
    } else {
        Seq::empty()
    };
    let paging = lookup(m.parameters@, "pageToken"@) is Some;
    let c3 = if paging {
        seq![("page_all"@, typed("boolean"@, "Auto-paginate, returning all pages"@))]
    } else {
        Seq::empty()
    };
    assert(method_properties(m) == c0 + c1 + c2 + c3);
    assert("params"@.len() != "body"@.len());
    assert("params"@ != "upload"@) by {
        assert("params"@[0] != "upload"@[0]);
    }
    assert("params"@.len() != "page_all"@.len());
    assert("body"@.len() != "upload"@.len());
    assert("body"@.len() != "page_all"@.len());
    assert("upload"@.len() != "page_all"@.len());
    let keys = seq!["params"@, "body"@, "upload"@, "page_all"@];
    assert forall|i: int| 0 <= i < 4 implies {
        let key = #[trigger] keys[i];
        Json::Object(c0 + c1 + c2 + c3).get(key) == match Json::Object(c0).get(key) {
            Some(v) => Some(v),
            None => match Json::Object(c1).get(key) {
                Some(v) => Some(v),
                None => match Json::Object(c2).get(key) {
                    Some(v) => Some(v),
                    None => Json::Object(c3).get(key),
                },
            },
        }
    } by {
        let key = keys[i];
        lemma_get_concat(c0 + c1 + c2, c3, key);
        lemma_get_concat(c0 + c1, c2, key);
        lemma_get_concat(c0, c1, key);
    }
    assert forall|i: int| 0 <= i < 4 implies {
        let key = #[trigger] keys[i];
        &&& Json::Object(c0).get(key) == if "params"@ == key { Some(c0[0].1) } else { None }
        &&& Json::Object(c1).get(key) == if m.request is Some && "body"@ == key {
            Some(typed("object"@, "Request body API object"@))
        } else {
            None
        }
        &&& Json::Object(c2).get(key) == if m.supports_media_upload && "upload"@ == key {
            Some(typed("string"@, "Local file path to upload as media content"@))
        } else {
            None
        }
        &&& Json::Object(c3).get(key) == if paging && "page_all"@ == key {
            Some(typed("boolean"@, "Auto-paginate, returning all pages"@))
        } else {
            None
        }
    } by {
        let key = keys[i];
        lemma_get_single(c0[0].0, c0[0].1, key);
        lemma_optional_member(m.request is Some, "body"@, typed("object"@, "Request body API object"@), key);
        lemma_optional_member(
            m.supports_media_upload,
            "upload"@,
            typed("string"@, "Local file path to upload as media content"@),
            key,
        );
        lemma_optional_member(paging, "page_all"@, typed("boolean"@, "Auto-paginate, returning all pages"@), key);
    }
    assert(keys[0] == "params"@);
    assert(keys[1] == "body"@);
    assert(keys[2] == "upload"@);
    assert(keys[3] == "page_all"@);
}

} // verus!
