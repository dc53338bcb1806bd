//! The discovery tool: what an enabled service offers, at three levels of
//! detail (its resources; one resource's methods; one method's parameters).
use vstd::prelude::*;
use crate::discovery::{MethodParameter, RestDescription, RestMethod, RestResource, lookup, get_entry};
use crate::error::GwsError;
use crate::json::{Json, JsonValue, push_member, push_item, members_view, items_view, lemma_get_first};
use crate::mcp::resources::{collect_resource_paths, find_in, find_resource, path_of, resource_paths};
use crate::mcp::server::{ServerConfig, contains_str};
use crate::mcp::tools::str_values;
use crate::text::{owned, join, join_spec, split_spec, views};

verus! {

/// The names of named entries, in order.
pub open spec fn names_of<T>(entries: Seq<(String, T)>) -> Seq<Seq<char>> {
    entries.map_values(|e: (String, T)| e.0@)
}

/// The names of named entries, in order.
pub fn entry_names<T>(entries: &Vec<(String, T)>) -> (res: Vec<String>)
    ensures
        views(res@) == names_of(entries@),
{
    let mut out: Vec<String> = Vec::new();
    let mut i: usize = 0;
    while i < entries.len()
        invariant
            i <= entries.len(),
            views(out@) == names_of(entries@).take(i as int),
        decreases entries.len() - i,
    {
        let ghost before = out@;
        out.push(owned(entries[i].0.as_str()));
        proof {
            assert(out@.drop_last() == before);
            assert(views(out@) =~= views(before).push(entries@[i as int].0@));
            assert(views(out@) =~= names_of(entries@).take(i + 1));
        }
        i = i + 1;
    }
    proof {
        assert(names_of(entries@).take(entries@.len() as int) =~= names_of(entries@));
    }
    out
}

/// An array of the strings.
pub fn string_array(names: &Vec<String>) -> (res: JsonValue)
    ensures
        res@ == Json::Array(str_values(views(names@))),
{
    let mut items: Vec<JsonValue> = Vec::new();
    let mut i: usize = 0;
    while i < names.len()
        invariant
            i <= names.len(),
            items_view(items@) == str_values(views(names@)).take(i as int),
        decreases names.len() - i,
    {
        push_item(&mut items, JsonValue::string(names[i].as_str()));
        proof {
            assert(items_view(items@) =~= str_values(views(names@)).take(i + 1));
        }
        i = i + 1;
    }
    proof {
        assert(str_values(views(names@)).take(names@.len() as int) =~= str_values(views(names@)));
    }
    JsonValue::array(items)
}

/// The text of an optional string, or `default`.
pub open spec fn text_or(v: Option<String>, default: Seq<char>) -> Seq<char> {
    match v {
        Some(s) => s@,
        None => default,
    }
}

fn text_or_value(v: &Option<String>, default: &str) -> (res: JsonValue)
    ensures
        res@ == Json::Str(text_or(*v, default@)),
{
    match v {
        Some(s) => JsonValue::string(s.as_str()),
        None => JsonValue::string(default),
    }
}

/// The entry of one resource in the first level of discovery: its path and
/// the names of its methods.
pub open spec fn resource_entry(path: Seq<char>, r: RestResource) -> Json {
    Json::Object(
        seq![("name"@, Json::Str(path)), ("methods"@, Json::Array(str_values(names_of(r.methods@))))],
    )
}

/// The entries of every resource under `prefix` that has methods, depth
/// first, in the order of `resource_paths`.
pub open spec fn resource_entries(entries: Seq<(String, RestResource)>, prefix: Seq<char>) -> Seq<Json>
    decreases entries,
{
    if entries.len() == 0 {
        Seq::empty()
    } else {
        let path = path_of(prefix, entries[0].0@);
        proof {
            assert(decreases_to!(entries => entries[0]));
            assert(decreases_to!(entries[0] => entries[0].1));
            assert(decreases_to!(entries[0].1 => entries[0].1.resources));
            assert(decreases_to!(entries[0].1.resources => entries[0].1.resources@));
            assert(decreases_to!(entries => entries.subrange(1, entries.len() as int)));
        }
        (if entries[0].1.methods@.len() > 0 {
            seq![resource_entry(path, entries[0].1)]
        } else {
            Seq::empty()
        }) + resource_entries(entries[0].1.resources@, path) + resource_entries(
            entries.subrange(1, entries.len() as int),
            prefix,
        )
    }
}

fn joined_path(prefix: &str, name: &str) -> (res: String)
    ensures
        res@ == path_of(prefix@, name@),
{
    if prefix.is_empty() {
        owned(name)
    } else {
        let mut p = owned(prefix);
        p.append(".");
        p.append(name);
        p
    }
}

/// Recursively collect resource entries (name + methods) for discover Level 1.
pub fn collect_resource_entries(resources: &Vec<(String, RestResource)>, prefix: &str, out: &mut Vec<JsonValue>)
    ensures
        items_view(final(out)@) == items_view(old(out)@) + resource_entries(resources@, prefix@),
    decreases resources@,
{
    let ghost start = items_view(out@);
    let mut i: usize = 0;
    proof {
        assert(resources@.subrange(0, resources@.len() as int) == resources@);
    }
    while i < resources.len()
        invariant
            i <= resources.len(),
            items_view(out@) + resource_entries(resources@.subrange(i as int, resources@.len() as int), prefix@)
                == start + resource_entries(resources@, prefix@),
        decreases resources.len() - i,
    {
        let ghost rest = resources@.subrange(i as int, resources@.len() as int);
        let (name, res) = &resources[i];
        let path = joined_path(prefix, name.as_str());
        proof {
            assert(rest[0] == resources@[i as int]);
            assert(rest.subrange(1, rest.len() as int) =~= resources@.subrange(
                i + 1,
                resources@.len() as int,
            ));
            assert(decreases_to!(resources@ => resources@[i as int]));
            assert(decreases_to!(resources@[i as int] => resources@[i as int].1));
            assert(decreases_to!(resources@[i as int].1 => resources@[i as int].1.resources));
            assert(decreases_to!(resources@[i as int].1.resources => resources@[i as int].1.resources@));
        }
        let ghost before = items_view(out@);
        if res.methods.len() > 0 {
            let names = entry_names(&res.methods);
            let mut members: Vec<(String, JsonValue)> = Vec::new();
            assert(members_view(members@) == Seq::<(Seq<char>, Json)>::empty());
            push_member(&mut members, "name", JsonValue::string(path.as_str()));
            push_member(&mut members, "methods", string_array(&names));
            proof {
                assert(members_view(members@) =~= resource_entry(path@, *res)->Object_0);
            }
            push_item(out, JsonValue::object(members));
        }
        proof {
            assert(items_view(out@) =~= before + (if res.methods@.len() > 0 {
                seq![resource_entry(path@, *res)]
            } else {
                Seq::empty()
            }));
        }
        let ghost after_entry = items_view(out@);
        if !res.resources.is_empty() {
            collect_resource_entries(&res.resources, path.as_str(), out);
        } else {
            proof {
                assert(resource_entries(res.resources@, path@) =~= Seq::<Json>::empty());
                assert(items_view(out@) + resource_entries(res.resources@, path@) == items_view(out@));
            }
        }
        proof {
            assert(items_view(out@) + resource_entries(
                resources@.subrange(i + 1, resources@.len() as int),
                prefix@,
            ) =~= before + resource_entries(rest, prefix@));
        }
        i = i + 1;
    }
    proof {
        assert(resources@.subrange(resources@.len() as int, resources@.len() as int)
            =~= Seq::<(String, RestResource)>::empty());
        assert(items_view(out@) + Seq::<Json>::empty() == items_view(out@));
    }
}

} // verus!

verus! {

/// One method in the second level of discovery.
pub open spec fn method_summary(name: Seq<char>, m: RestMethod) -> Json {
    Json::Object(
        seq![
            ("name"@, Json::Str(name)),
            ("httpMethod"@, Json::Str(m.http_method@)),
            ("description"@, Json::Str(text_or(m.description, Seq::empty()))),
        ],
    )
}

/// The summaries of the methods, in order.
pub open spec fn method_summaries(methods: Seq<(String, RestMethod)>) -> Seq<Json> {
    methods.map_values(|e: (String, RestMethod)| method_summary(e.0@, e.1))
}

/// The second level of discovery: a resource's methods, and the names of
/// its nested resources when it has any.
pub open spec fn resource_json(service: Seq<char>, path: Seq<char>, r: RestResource) -> Json {
    let base = seq![
        ("service"@, Json::Str(service)),
        ("resource"@, Json::Str(path)),
        ("methods"@, Json::Array(method_summaries(r.methods@))),
    ];
    Json::Object(
        if r.resources@.len() > 0 {
            base.push(("subResources"@, Json::Array(str_values(names_of(r.resources@)))))
        } else {
            base
        },
    )
}

/// One parameter in the third level of discovery; the type defaults to
/// `string` and the location to `query`.
pub open spec fn param_summary(name: Seq<char>, p: MethodParameter) -> Json {
    Json::Object(
        seq![
            ("name"@, Json::Str(name)),
            ("type"@, Json::Str(text_or(p.param_type, "string"@))),
            ("required"@, Json::Bool(p.required)),
            ("location"@, Json::Str(text_or(p.location, "query"@))),
            ("description"@, Json::Str(text_or(p.description, Seq::empty()))),
        ],
    )
}

/// The summaries of the parameters, in order.
pub open spec fn param_summaries(params: Seq<(String, MethodParameter)>) -> Seq<Json> {
    params.map_values(|e: (String, MethodParameter)| param_summary(e.0@, e.1))
}

/// The third level of discovery: one method in full.
pub open spec fn method_json(service: Seq<char>, path: Seq<char>, name: Seq<char>, m: RestMethod) -> Json {
    Json::Object(
        seq![
            ("service"@, Json::Str(service)),
            ("resource"@, Json::Str(path)),
            ("method"@, Json::Str(name)),
            ("httpMethod"@, Json::Str(m.http_method@)),
            ("description"@, Json::Str(text_or(m.description, Seq::empty()))),
            ("parameters"@, Json::Array(param_summaries(m.parameters@))),
            ("supportsMediaUpload"@, Json::Bool(m.supports_media_upload)),
            ("supportsMediaDownload"@, Json::Bool(m.supports_media_download)),
        ],
    )
}

/// The message for a resource path that the document does not have; it
/// lists every path it has.
pub open spec fn resource_not_found(service: Seq<char>, path: Seq<char>, doc: RestDescription) -> Seq<char> {
    "Resource '"@ + path + "' not found in "@ + service + ". Available: "@ + join_spec(
        resource_paths(doc.resources@, Seq::empty()),
        ", "@,
    )
}

/// The message for a method that the resource does not have; it lists the
/// methods it has.
pub open spec fn method_not_found(service: Seq<char>, path: Seq<char>, name: Seq<char>, r: RestResource) -> Seq<
    char,
> {
    "Method '"@ + name + "' not found in "@ + service + "."@ + path + ". Available: "@ + join_spec(
        names_of(r.methods@),
        ", "@,
    )
}

/// What the discovery tool answers about `service`: every resource with
/// its methods when no resource is named; the named resource when no
/// method is named; else the named method.
pub open spec fn discover_json(
    service: Seq<char>,
    doc: RestDescription,
    resource: Option<Seq<char>>,
    method: Option<Seq<char>>,
) -> Result<Json, Seq<char>> {
    match resource {
        None => Ok(
            Json::Object(
                seq![
                    ("service"@, Json::Str(service)),
                    ("resources"@, Json::Array(resource_entries(doc.resources@, Seq::empty()))),
                ],
            ),
        ),
        Some(path) => match find_in(doc.resources@, split_spec(path, '.')) {
            None => Err(resource_not_found(service, path, doc)),
            Some(r) => match method {
                None => Ok(resource_json(service, path, r)),
                Some(name) => match lookup(r.methods@, name) {
                    None => Err(method_not_found(service, path, name, r)),
                    Some(m) => Ok(method_json(service, path, name, m)),
                },
            },
        },
    }
}

fn resource_not_found_error(service: &str, path: &str, doc: &RestDescription) -> (res: GwsError)
    ensures
        res is Validation,
        res.spec_message() == resource_not_found(service@, path@, *doc),
{
    let mut all: Vec<String> = Vec::new();
    proof {
        reveal_strlit("");
        assert(""@ =~= Seq::<char>::empty());
        assert(views(all@) =~= Seq::<Seq<char>>::empty());
    }
    let ghost v0 = views(all@);
    collect_resource_paths(&doc.resources, "", &mut all);
    proof {
        assert(views(all@) == v0 + resource_paths(doc.resources@, ""@));
        assert(views(all@) =~= resource_paths(doc.resources@, Seq::empty()));
    }
    let mut msg = owned("Resource '");
    msg.append(path);
    msg.append("' not found in ");
    msg.append(service);
    msg.append(". Available: ");
    let listed = join(&all, ", ");
    msg.append(listed.as_str());
    GwsError::Validation(msg)
}

fn method_summary_values(methods: &Vec<(String, RestMethod)>) -> (res: Vec<JsonValue>)
    ensures
        items_view(res@) == method_summaries(methods@),
{
    let mut out: Vec<JsonValue> = Vec::new();
    let mut i: usize = 0;
    while i < methods.len()
        invariant
            i <= methods.len(),
            items_view(out@) == method_summaries(methods@).take(i as int),
        decreases methods.len() - i,
    {
        let (name, m) = &methods[i];
        let mut members: Vec<(String, JsonValue)> = Vec::new();
        assert(members_view(members@) == Seq::<(Seq<char>, Json)>::empty());
        push_member(&mut members, "name", JsonValue::string(name.as_str()));
        push_member(&mut members, "httpMethod", JsonValue::string(m.http_method.as_str()));
        proof {
            reveal_strlit("");
            assert(""@ =~= Seq::<char>::empty());
        }
        push_member(&mut members, "description", text_or_value(&m.description, ""));
        proof {
            assert(members_view(members@) =~= method_summary(name@, *m)->Object_0);
        }
        push_item(&mut out, JsonValue::object(members));
        proof {
            assert(items_view(out@) =~= method_summaries(methods@).take(i + 1));
        }
        i = i + 1;
    }
    proof {
        assert(method_summaries(methods@).take(methods@.len() as int) =~= method_summaries(methods@));
    }
    out
}

fn param_summary_values(params: &Vec<(String, MethodParameter)>) -> (res: Vec<JsonValue>)
    ensures
        items_view(res@) == param_summaries(params@),
{
    let mut out: Vec<JsonValue> = Vec::new();
    let mut i: usize = 0;
    while i < params.len()
        invariant
            i <= params.len(),
            items_view(out@) == param_summaries(params@).take(i as int),
        decreases params.len() - i,
    {
        let (name, p) = &params[i];
        let mut members: Vec<(String, JsonValue)> = Vec::new();
        assert(members_view(members@) == Seq::<(Seq<char>, Json)>::empty());
        push_member(&mut members, "name", JsonValue::string(name.as_str()));
        push_member(&mut members, "type", text_or_value(&p.param_type, "string"));
        push_member(&mut members, "required", JsonValue::Bool(p.required));
        push_member(&mut members, "location", text_or_value(&p.location, "query"));
        proof {
            reveal_strlit("");
            assert(""@ =~= Seq::<char>::empty());
        }
        push_member(&mut members, "description", text_or_value(&p.description, ""));
        proof {
            assert(members_view(members@) =~= param_summary(name@, *p)->Object_0);
        }
        push_item(&mut out, JsonValue::object(members));
        proof {
            assert(items_view(out@) =~= param_summaries(params@).take(i + 1));
        }
        i = i + 1;
    }
    proof {
        assert(param_summaries(params@).take(params@.len() as int) =~= param_summaries(params@));
    }
    out
}

/// The models of an optional string.
pub open spec fn opt_str(v: Option<&str>) -> Option<Seq<char>> {
    match v {
        Some(s) => Some(s@),
        None => None,
    }
}

/// What the discovery tool answers about `service`, whose Discovery
/// Document is `doc`, for the `resource` and `method` that the call's
/// arguments name.
pub fn discover_result(service: &str, doc: &RestDescription, arguments: &JsonValue) -> (res: Result<
    JsonValue,
    GwsError,
>)
    ensures
        match res {
            Ok(v) => discover_json(
                service@,
                *doc,
                arguments@.get_str("resource"@),
                arguments@.get_str("method"@),
            ) == Ok::<Json, Seq<char>>(v@),
            Err(e) => e is Validation && discover_json(
                service@,
                *doc,
                arguments@.get_str("resource"@),
                arguments@.get_str("method"@),
            ) == Err::<Json, Seq<char>>(e.spec_message()),
        },
{
    let resource = arguments.get_str("resource");
    let method = arguments.get_str("method");
    proof {
        assert(opt_str(resource) == arguments@.get_str("resource"@));
        assert(opt_str(method) == arguments@.get_str("method"@));
    }
    let path = match resource {
        None => {
            let mut entries: Vec<JsonValue> = Vec::new();
            proof {
                reveal_strlit("");
                assert(""@ =~= Seq::<char>::empty());
                assert(items_view(entries@) =~= Seq::<Json>::empty());
            }
            let ghost e0 = items_view(entries@);
            collect_resource_entries(&doc.resources, "", &mut entries);
            proof {
                assert(items_view(entries@) == e0 + resource_entries(doc.resources@, ""@));
                assert(items_view(entries@) =~= resource_entries(doc.resources@, Seq::empty()));
            }
            let mut members: Vec<(String, JsonValue)> = Vec::new();
            assert(members_view(members@) == Seq::<(Seq<char>, Json)>::empty());
            push_member(&mut members, "service", JsonValue::string(service));
            push_member(&mut members, "resources", JsonValue::array(entries));
            proof {
                assert(members_view(members@) =~= discover_json(service@, *doc, None, opt_str(method))->Ok_0->Object_0);
            }
            return Ok(JsonValue::object(members));
        },
        Some(p) => p,
    };
    let r = match find_resource(&doc.resources, path) {
        Some(r) => r,
        None => return Err(resource_not_found_error(service, path, doc)),
    };
    match method {
        None => {
            let mut members: Vec<(String, JsonValue)> = Vec::new();
            assert(members_view(members@) == Seq::<(Seq<char>, Json)>::empty());
            push_member(&mut members, "service", JsonValue::string(service));
            push_member(&mut members, "resource", JsonValue::string(path));
            push_member(&mut members, "methods", JsonValue::array(method_summary_values(&r.methods)));
            if r.resources.len() > 0 {
                let names = entry_names(&r.resources);
                push_member(&mut members, "subResources", string_array(&names));
            }
            proof {
                assert(members_view(members@) =~= resource_json(service@, path@, *r)->Object_0);
            }
            Ok(JsonValue::object(members))
        },
        Some(name) => {
            let m = match get_entry(&r.methods, name) {
                Some(m) => m,
                None => {
                    let names = entry_names(&r.methods);
                    let mut msg = owned("Method '");
                    msg.append(name);
                    msg.append("' not found in ");
                    msg.append(service);
                    msg.append(".");
                    msg.append(path);
                    msg.append(". Available: ");
                    let listed = join(&names, ", ");
                    msg.append(listed.as_str());
                    return Err(GwsError::Validation(msg));
                },
            };
            let mut members: Vec<(String, JsonValue)> = Vec::new();
            assert(members_view(members@) == Seq::<(Seq<char>, Json)>::empty());
            push_member(&mut members, "service", JsonValue::string(service));
            push_member(&mut members, "resource", JsonValue::string(path));
            push_member(&mut members, "method", JsonValue::string(name));
            push_member(&mut members, "httpMethod", JsonValue::string(m.http_method.as_str()));
            proof {
                reveal_strlit("");
                assert(""@ =~= Seq::<char>::empty());
            }
            push_member(&mut members, "description", text_or_value(&m.description, ""));
            push_member(&mut members, "parameters", JsonValue::array(param_summary_values(&m.parameters)));
            push_member(&mut members, "supportsMediaUpload", JsonValue::Bool(m.supports_media_upload));
            push_member(&mut members, "supportsMediaDownload", JsonValue::Bool(m.supports_media_download));
            proof {
                assert(members_view(members@) =~= method_json(service@, path@, name@, *m)->Object_0);
            }
            Ok(JsonValue::object(members))
        },
    }
}

/// The enabled service a discovery call asks about.
pub fn discover_service(arguments: &JsonValue, config: &ServerConfig) -> (res: Result<String, GwsError>)
    ensures
        match arguments@.get_str("service"@) {
            None => res matches Err(e) && e is Validation && e.spec_message()
                == "Missing 'service' in gws_discover"@,
            Some(s) => if views(config.services@).contains(s) {
                res matches Ok(v) && v@ == s
            } else {
                res matches Err(e) && e is Validation && e.spec_message() == "Service '"@ + s
                    + "' is not enabled. Enabled: "@ + join_spec(views(config.services@), ", "@)
            },
        },
{
    let service = match arguments.get_str("service") {
        Some(s) => s,
        None => return Err(GwsError::Validation(owned("Missing 'service' in gws_discover"))),
    };
    if !contains_str(&config.services, service) {
        let mut msg = owned("Service '");
        msg.append(service);
        msg.append("' is not enabled. Enabled: ");
        let listed = join(&config.services, ", ");
        msg.append(listed.as_str());
        return Err(GwsError::Validation(msg));
    }
    Ok(owned(service))
}


/// Each parameter's summary reports the parameter's own fields: its name, its
/// type (`"string"` when it has none), whether it is required, where it goes
/// (its own location, and `"query"` only when it has none) and its
/// description (empty when it has none).
pub proof fn param_summary_fields(params: Seq<(String, MethodParameter)>, i: int)
    requires
        0 <= i < params.len(),
    ensures
        param_summaries(params)[i].get("name"@) == Some(Json::Str(params[i].0@)),
        param_summaries(params)[i].get("type"@) == Some(
            Json::Str(
                match params[i].1.param_type {
                    Some(t) => t@,
                    None => "string"@,
                },
            ),
        ),
        param_summaries(params)[i].get("required"@) == Some(Json::Bool(params[i].1.required)),
        param_summaries(params)[i].get("location"@) == Some(
            Json::Str(
                match params[i].1.location {
                    Some(l) => l@,
                    None => "query"@,
                },
            ),
        ),
        params[i].1.location is Some ==> param_summaries(params)[i].get("location"@) == Some(
            Json::Str(params[i].1.location->0@),
        ),
        param_summaries(params)[i].get("description"@) == Some(
            Json::Str(
                match params[i].1.description {
                    Some(d) => d@,
                    None => Seq::empty(),
                },
            ),
        ),
{
    reveal_strlit("name");
    reveal_strlit("type");
    reveal_strlit("required");
    reveal_strlit("location");
    reveal_strlit("description");
    let p = params[i].1;
    let members = seq![
        ("name"@, Json::Str(params[i].0@)),
        ("type"@, Json::Str(text_or(p.param_type, "string"@))),
        ("required"@, Json::Bool(p.required)),
        ("location"@, Json::Str(text_or(p.location, "query"@))),
        ("description"@, Json::Str(text_or(p.description, Seq::empty()))),
    ];
    assert(param_summaries(params)[i] == Json::Object(members));
    assert("name"@[0] != "type"@[0]);
    assert("name"@.len() != "required"@.len());
    assert("name"@.len() != "location"@.len());
    assert("name"@.len() != "description"@.len());
    assert("type"@.len() != "required"@.len());
    assert("type"@.len() != "location"@.len());
    assert("type"@.len() != "description"@.len());
    assert("required"@[0] != "location"@[0]);
    assert("required"@.len() != "description"@.len());
    assert("location"@.len() != "description"@.len());
    lemma_get_first(members, "name"@, 0);
    lemma_get_first(members, "type"@, 1);
    lemma_get_first(members, "required"@, 2);
    lemma_get_first(members, "location"@, 3);
    lemma_get_first(members, "description"@, 4);
}

} // verus!
