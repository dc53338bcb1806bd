//! Carrying out a tool call once the service's Discovery Document is read:
//! finding the method and reading the call's arguments.
use vstd::prelude::*;
use crate::discovery::{RestDescription, RestMethod, RestResource, lookup, get_entry, names_distinct, lemma_lookup_distinct};
use crate::error::GwsError;
use crate::json::{Json, JsonValue, member_index};
use crate::mcp::resources::{find_in, find_resource};
use crate::mcp::server::{text_result, text_result_json, call_plan, CallPlan, ToolMode};
use crate::mcp::tools::{method_tool, method_tools, resource_tools};
use crate::text::{owned, split_spec, views, free_of, is_prefix, lemma_split_push, lemma_split_free};

verus! {

/// The method a compact-mode call names: the resource at the dot-separated
/// path, then its method; or the message of the lookup that fails.
pub open spec fn compact_method(
    doc: RestDescription,
    service: Seq<char>,
    resource: Seq<char>,
    method: Seq<char>,
) -> Result<RestMethod, Seq<char>> {
    match find_in(doc.resources@, split_spec(resource, '.')) {
        None => Err("Resource '"@ + resource + "' not found in "@ + service),
        Some(r) => match lookup(r.methods@, method) {
            None => Err("Method '"@ + method + "' not found in "@ + service + "."@ + resource),
            Some(m) => Ok(m),
        },
    }
}

/// Finds the method of a compact-mode call.
pub fn resolve_compact_method<'a>(
    doc: &'a RestDescription,
    service: &str,
    resource: &str,
    method: &str,
) -> (res: Result<&'a RestMethod, GwsError>)
    ensures
        match res {
            Ok(m) => compact_method(*doc, service@, resource@, method@) == Ok::<RestMethod, Seq<char>>(*m),
            Err(e) => e is Validation && compact_method(*doc, service@, resource@, method@) == Err::<
                RestMethod,
                Seq<char>,
            >(e.spec_message()),
        },
{
    let r = match find_resource(&doc.resources, resource) {
        Some(r) => r,
        None => {
            let mut msg = owned("Resource '");
            msg.append(resource);
            msg.append("' not found in ");
            msg.append(service);
            return Err(GwsError::Validation(msg));
        },
    };
    match get_entry(&r.methods, method) {
        Some(m) => Ok(m),
        None => {
            let mut msg = owned("Method '");
            msg.append(method);
            msg.append("' not found in ");
            msg.append(service);
            msg.append(".");
            msg.append(resource);
            Err(GwsError::Validation(msg))
        },
    }
}

/// The resource reached by following `segs` from `entries`, each name
/// looked up among the previous resource's nested ones; or the message of
/// the lookup that fails.
pub open spec fn walk_segments(entries: Seq<(String, RestResource)>, segs: Seq<Seq<char>>) -> Result<
    RestResource,
    Seq<char>,
>
    decreases segs.len(),
{
    if segs.len() == 0 {
        Err("Resource not found"@)
    } else {
        match lookup(entries, segs[0]) {
            None => Err("Resource '"@ + segs[0] + "' not found in Discovery Document"@),
            Some(r) => if segs.len() == 1 {
                Ok(r)
            } else {
                walk_segments(r.resources@, segs.drop_first())
            },
        }
    }
}

/// The method a full-mode call names.
pub open spec fn full_method(doc: RestDescription, segs: Seq<Seq<char>>, method: Seq<char>) -> Result<
    RestMethod,
    Seq<char>,
> {
    match walk_segments(doc.resources@, segs) {
        Err(m) => Err(m),
        Ok(r) => match lookup(r.methods@, method) {
            None => Err("Method '"@ + method + "' not found"@),
            Some(m) => Ok(m),
        },
    }
}

/// Finds the method of a full-mode call: the resources named in `segments`,
/// outermost first, then the method.
pub fn resolve_full_method<'a>(doc: &'a RestDescription, segments: &Vec<String>, method: &str) -> (res:
    Result<&'a RestMethod, GwsError>)
    ensures
        match res {
            Ok(m) => full_method(*doc, views(segments@), method@) == Ok::<RestMethod, Seq<char>>(*m),
            Err(e) => e is Validation && full_method(*doc, views(segments@), method@) == Err::<
                RestMethod,
                Seq<char>,
            >(e.spec_message()),
        },
{
    let ghost segs = views(segments@);
    if segments.len() == 0 {
        return Err(GwsError::Validation(owned("Resource not found")));
    }
    let mut entries: &Vec<(String, RestResource)> = &doc.resources;
    let mut i: usize = 0;
    let mut current: &RestResource;
    proof {
        assert(segs.subrange(0, segs.len() as int) =~= segs);
    }
    loop
        invariant
            i < segments.len(),
            segs == views(segments@),
            walk_segments(doc.resources@, segs) == walk_segments(
                entries@,
                segs.subrange(i as int, segs.len() as int),
            ),
        ensures
            walk_segments(doc.resources@, segs) == Ok::<RestResource, Seq<char>>(*current),
        decreases segments.len() - i,
    {
        let ghost rest = segs.subrange(i as int, segs.len() as int);
        proof {
            assert(rest[0] == segments@[i as int]@);
            assert(rest.drop_first() =~= segs.subrange(i + 1, segs.len() as int));
        }
        match get_entry(entries, segments[i].as_str()) {
            Some(r) => {
                if i + 1 == segments.len() {
                    current = r;
                    break;
                }
                entries = &r.resources;
            },
            None => {
                let mut msg = owned("Resource '");
                msg.append(segments[i].as_str());
                msg.append("' not found in Discovery Document");
                return Err(GwsError::Validation(msg));
            },
        }
        i = i + 1;
    }
    match get_entry(&current.methods, method) {
        Some(m) => Ok(m),
        None => {
            let mut msg = owned("Method '");
            msg.append(method);
            msg.append("' not found");
            Err(GwsError::Validation(msg))
        },
    }
}

} // verus!

verus! {

/// `std::path::Path::is_absolute` on the path `raw`. What it answers
/// depends on the platform's path rules, so nothing is stated of it.
#[verifier::external_body]
fn path_is_absolute(raw: &str) -> bool {
    std::path::Path::new(raw).is_absolute()
}

/// One component of a path, as `std::path::Component` tells them apart.
pub enum PathPart {
    /// A Windows path prefix such as `C:`.
    Prefix,
    /// The root directory.
    RootDir,
    /// `.`
    CurDir,
    /// `..`
    ParentDir,
    /// A name, with any text that is not Unicode replaced.
    Normal(String),
}

/// `std::path::Path::components` of the path `raw`, each component turned
/// into a [`PathPart`]. How a path splits into components depends on the
/// platform's path rules, so nothing is stated of the result.
#[verifier::external_body]
fn path_components(raw: &str) -> Vec<PathPart> {
    let mut parts = Vec::new();
    for c in std::path::Path::new(raw).components() {
        parts.push(match c {
            std::path::Component::Prefix(_) => PathPart::Prefix,
            std::path::Component::RootDir => PathPart::RootDir,
            std::path::Component::CurDir => PathPart::CurDir,
            std::path::Component::ParentDir => PathPart::ParentDir,
            std::path::Component::Normal(n) => PathPart::Normal(n.to_string_lossy().into_owned()),
        });
    }
    parts
}

/// Whether one of the components climbs to the parent directory.
pub fn has_parent_dir(parts: &Vec<PathPart>) -> (res: bool)
    ensures
        res == exists|i: int| 0 <= i < parts@.len() && #[trigger] parts@[i] is ParentDir,
{
    let mut i: usize = 0;
    while i < parts.len()
        invariant
            i <= parts.len(),
            forall|j: int| 0 <= j < i ==> !(#[trigger] parts@[j] is ParentDir),
        decreases parts.len() - i,
    {
        if let PathPart::ParentDir = &parts[i] {
            return true;
        }
        i = i + 1;
    }
    false
}

/// The message refusing an upload path.
pub open spec fn upload_refusal(raw: Seq<char>) -> Seq<char> {
    "Upload path '"@ + raw
        + "' is not allowed. Paths must be relative and within the current directory."@
}

/// Accepts an upload path unless it is absolute or climbs to a parent
/// directory (the two facts the platform's path rules give about `raw`).
pub fn check_upload_path(raw: &str, absolute: bool, parent_dir: bool) -> (res: Result<String, GwsError>)
    ensures
        !absolute && !parent_dir ==> (res matches Ok(p) && p@ == raw@),
        absolute || parent_dir ==> (res matches Err(e) && e is Validation && e.spec_message()
            == upload_refusal(raw@)),
{
    if absolute || parent_dir {
        let mut msg = owned("Upload path '");
        msg.append(raw);
        msg.append("' is not allowed. Paths must be relative and within the current directory.");
        Err(GwsError::Validation(msg))
    } else {
        Ok(owned(raw))
    }
}

/// The upload path a call asks for: the `upload` argument when it is a
/// non-empty string.
pub open spec fn upload_request(arguments: Json) -> Option<Seq<char>> {
    match arguments.get_str("upload"@) {
        Some(s) => if s.len() > 0 {
            Some(s)
        } else {
            None
        },
        None => None,
    }
}

/// The `params` argument of a call.
pub open spec fn request_params(arguments: Json) -> Option<Json> {
    arguments.get("params"@)
}

/// The `body` argument of a call; an empty object counts as none.
pub open spec fn request_body(arguments: Json) -> Option<Json> {
    match arguments.get("body"@) {
        Some(b) => if b.is_empty_object() {
            None
        } else {
            Some(b)
        },
        None => None,
    }
}

/// Whether a call asks for every page: `page_all` when it is a boolean,
/// else no.
pub open spec fn request_page_all(arguments: Json) -> bool {
    match arguments.get("page_all"@) {
        Some(v) => match v.as_bool() {
            Some(b) => b,
            None => false,
        },
        None => false,
    }
}

/// What a call hands to the API request.
pub struct CallArguments {
    pub params: Option<JsonValue>,
    pub body: Option<JsonValue>,
    pub upload: Option<String>,
    pub page_all: bool,
}

/// The models of an optional value.
pub open spec fn opt_view(v: Option<JsonValue>) -> Option<Json> {
    match v {
        Some(x) => Some(x@),
        None => None,
    }
}

/// Reads a call's arguments. The upload path, where one is given, is
/// checked against the platform's path rules: the call goes on with it or
/// is refused.
pub fn call_arguments(arguments: &JsonValue) -> (res: Result<CallArguments, GwsError>)
    ensures
        match res {
            Ok(c) => {
                &&& opt_view(c.params) == request_params(arguments@)
                &&& opt_view(c.body) == request_body(arguments@)
                &&& c.page_all == request_page_all(arguments@)
                &&& match upload_request(arguments@) {
                    Some(raw) => c.upload matches Some(p) && p@ == raw,
                    None => c.upload is None,
                }
            },
            Err(e) => upload_request(arguments@) matches Some(raw) && e is Validation
                && e.spec_message() == upload_refusal(raw),
        },
{
    let params = match arguments.get("params") {
        Some(p) => Some(p.duplicate()),
        None => None,
    };
    let body = match arguments.get("body") {
        Some(b) => if b.is_empty_object() {
            None
        } else {
            Some(b.duplicate())
        },
        None => None,
    };
    let upload = match arguments.get_str("upload") {
        Some(raw) => if raw.is_empty() {
            None
        } else {
            let absolute = path_is_absolute(raw);
            let parts = path_components(raw);
            let parent_dir = has_parent_dir(&parts);
            match check_upload_path(raw, absolute, parent_dir) {
                Ok(p) => Some(p),
                Err(e) => return Err(e),
            }
        },
        None => None,
    };
    let page_all = match arguments.get("page_all") {
        Some(v) => match v.as_bool() {
            Some(b) => b,
            None => false,
        },
        None => false,
    };
    Ok(CallArguments { params, body, upload, page_all })
}

/// The text a call answers with: the API's output, or a note that there
/// was none.
pub fn execution_text(output: Option<String>) -> (res: String)
    ensures
        match output {
            Some(t) => res@ == t@,
            None => res@ == "Execution completed with no output."@,
        },
{
    match output {
        Some(t) => t,
        None => owned("Execution completed with no output."),
    }
}

/// The result of a successful call whose output was rendered as `output`.
pub fn execution_result(output: Option<String>) -> (res: JsonValue)
    ensures
        match output {
            Some(t) => res@ == text_result_json(t@, false),
            None => res@ == text_result_json("Execution completed with no output."@, false),
        },
{
    let text = execution_text(output);
    text_result(text.as_str(), false)
}

} // verus!

verus! {

/// Names that can stand in a full-mode tool name: distinct among
/// siblings, and without `-`.
pub open spec fn tool_safe_names<T>(e: Seq<(String, T)>) -> bool {
    &&& names_distinct(e)
    &&& forall|a: int| 0 <= a < e.len() ==> free_of(#[trigger] e[a].0@, '-')
}

/// At every level, resource and method names can stand in a tool name.
pub open spec fn dash_named(entries: Seq<(String, RestResource)>) -> bool
    decreases entries,
{
    if entries.len() == 0 {
        true
    } else {
        proof {
            assert(decreases_to!(entries => entries[0]));
            assert(decreases_to!(entries[0] => entries[0].1));
            assert(decreases_to!(entries[0].1 => entries[0].1.resources));
            assert(decreases_to!(entries[0].1.resources => entries[0].1.resources@));
            assert(decreases_to!(entries => entries.subrange(1, entries.len() as int)));
        }
        &&& tool_safe_names(entries)
        &&& tool_safe_names(entries[0].1.methods@)
        &&& dash_named(entries[0].1.resources@)
        &&& dash_named(entries.subrange(1, entries.len() as int))
    }
}

proof fn lemma_dash_named_parts(e: Seq<(String, RestResource)>, j: int)
    requires
        dash_named(e),
        0 <= j < e.len(),
    ensures
        tool_safe_names(e),
        dash_named(e.subrange(j, e.len() as int)),
        tool_safe_names(e[j].1.methods@),
        dash_named(e[j].1.resources@),
    decreases j,
{
    if j == 0 {
        assert(e.subrange(0, e.len() as int) == e);
    } else {
        let rest = e.subrange(1, e.len() as int);
        lemma_dash_named_parts(rest, j - 1);
        assert(rest[j - 1] == e[j]);
        assert(rest.subrange(j - 1, rest.len() as int) =~= e.subrange(j, e.len() as int));
    }
}

/// The resources directly under the path `segs`: the top level for none.
pub open spec fn level_at(top: Seq<(String, RestResource)>, segs: Seq<Seq<char>>) -> Option<
    Seq<(String, RestResource)>,
> {
    if segs.len() == 0 {
        Some(top)
    } else {
        match walk_segments(top, segs) {
            Ok(r) => Some(r.resources@),
            Err(_) => None,
        }
    }
}

proof fn lemma_walk_push(
    top: Seq<(String, RestResource)>,
    p: Seq<Seq<char>>,
    n: Seq<char>,
    e: Seq<(String, RestResource)>,
    r: RestResource,
)
    requires
        level_at(top, p) == Some(e),
        lookup(e, n) == Some(r),
    ensures
        walk_segments(top, p.push(n)) == Ok::<RestResource, Seq<char>>(r),
    decreases p.len(),
{
    if p.len() == 0 {
        assert(p.push(n) =~= seq![n]);
    } else {
        assert(p.push(n)[0] == p[0]);
        assert(p.push(n).drop_first() =~= p.drop_first().push(n));
        match lookup(top, p[0]) {
            None => {},
            Some(r1) => {
                lemma_walk_push(r1.resources@, p.drop_first(), n, e, r);
            },
        }
    }
}

/// One full-mode tool and how it was made: from method `m`, found under
/// `mname` in the resource that `segs` reaches from `top`, with a name that
/// begins with the service and `-` and splits at `-` into the service,
/// `segs` and `mname`.
pub open spec fn reaches_with(
    top: Seq<(String, RestResource)>,
    svc: Seq<char>,
    t: Json,
    name: Seq<char>,
    segs: Seq<Seq<char>>,
    mname: Seq<char>,
    m: RestMethod,
) -> bool {
    &&& t == method_tool(name, m)
    &&& is_prefix(svc + "-"@, name)
    &&& segs.len() >= 1
    &&& split_spec(name, '-') == seq![svc] + segs + seq![mname]
    &&& walk_segments(top, segs) matches Ok(r) && lookup(r.methods@, mname) == Some(m)
}

/// `t` is a full-mode tool whose name leads back to the method it was made from.
pub open spec fn tool_reaches(top: Seq<(String, RestResource)>, svc: Seq<char>, t: Json) -> bool {
    exists|name: Seq<char>, segs: Seq<Seq<char>>, mname: Seq<char>, m: RestMethod| #[trigger]
        reaches_with(top, svc, t, name, segs, mname, m)
}

proof fn lemma_prefix_extend(a: Seq<char>, p: Seq<char>, x: Seq<char>)
    requires
        is_prefix(a, p),
    ensures
        is_prefix(a, p + x),
{
    assert((p + x).subrange(0, a.len() as int) =~= p.subrange(0, a.len() as int));
}

proof fn lemma_method_tools_reach(
    top: Seq<(String, RestResource)>,
    svc: Seq<char>,
    p: Seq<char>,
    ps: Seq<Seq<char>>,
    r: RestResource,
    k: int,
)
    requires
        split_spec(p, '-') == ps,
        ps.len() >= 2,
        ps[0] == svc,
        is_prefix(svc + "-"@, p),
        walk_segments(top, ps.drop_first()) == Ok::<RestResource, Seq<char>>(r),
        tool_safe_names(r.methods@),
        0 <= k <= r.methods@.len(),
    ensures
        forall|i: int|
            0 <= i < method_tools(r.methods@.subrange(k, r.methods@.len() as int), p).len()
                ==> #[trigger] tool_reaches(
                top,
                svc,
                method_tools(r.methods@.subrange(k, r.methods@.len() as int), p)[i],
            ),
    decreases r.methods@.len() - k,
{
    let ms = r.methods@;
    let s = ms.subrange(k, ms.len() as int);
    if k < ms.len() {
        let mk = ms[k].0@;
        let m = ms[k].1;
        let name = p + "-"@ + mk;
        reveal_strlit("-");
        assert("-"@ =~= seq!['-']);
        assert(free_of(mk, '-'));
        lemma_split_push(p, '-', mk);
        assert(seq![svc] + ps.drop_first() + seq![mk] =~= ps.push(mk));
        lemma_lookup_distinct(ms, k);
        lemma_prefix_extend(svc + "-"@, p, "-"@ + mk);
        assert(p + ("-"@ + mk) =~= name);
        assert(reaches_with(top, svc, method_tool(name, m), name, ps.drop_first(), mk, m));
        assert(s[0] == ms[k]);
        assert(s.subrange(1, s.len() as int) =~= ms.subrange(k + 1, ms.len() as int));
        lemma_method_tools_reach(top, svc, p, ps, r, k + 1);
        let all = method_tools(s, p);
        let later = method_tools(ms.subrange(k + 1, ms.len() as int), p);
        assert(all == seq![method_tool(name, m)] + later);
        assert forall|i: int| 0 <= i < all.len() implies #[trigger] tool_reaches(top, svc, all[i]) by {
            if i == 0 {
                assert(all[0] == method_tool(name, m));
            } else {
                assert(all[i] == later[i - 1]);
                assert(tool_reaches(top, svc, later[i - 1]));
            }
        }
    }
}

proof fn lemma_tools_reach(
    top: Seq<(String, RestResource)>,
    c: Seq<(String, RestResource)>,
    j: int,
    prefix: Seq<char>,
    ps: Seq<Seq<char>>,
    svc: Seq<char>,
)
    requires
        ps.len() >= 1,
        ps[0] == svc,
        split_spec(prefix, '-') == ps,
        prefix == svc || is_prefix(svc + "-"@, prefix),
        level_at(top, ps.drop_first()) == Some(c),
        dash_named(c),
        0 <= j <= c.len(),
    ensures
        forall|i: int|
            0 <= i < resource_tools(c.subrange(j, c.len() as int), prefix).len() ==> #[trigger] tool_reaches(
                top,
                svc,
                resource_tools(c.subrange(j, c.len() as int), prefix)[i],
            ),
    decreases c, c.len() - j,
{
    let s = c.subrange(j, c.len() as int);
    if j < c.len() {
        let n = c[j].0@;
        let r = c[j].1;
        let child = r.resources@;
        let p = prefix + "-"@ + n;
        reveal_strlit("-");
        assert("-"@ =~= seq!['-']);
        lemma_dash_named_parts(c, j);
        assert(free_of(n, '-'));
        lemma_lookup_distinct(c, j);
        lemma_walk_push(top, ps.drop_first(), n, c, r);
        lemma_split_push(prefix, '-', n);
        let ps2 = ps.push(n);
        assert(ps2.drop_first() =~= ps.drop_first().push(n));
        assert(level_at(top, ps2.drop_first()) == Some(child));
        if prefix == svc {
            assert(p.subrange(0, (svc + "-"@).len() as int) =~= svc + "-"@);
        } else {
            lemma_prefix_extend(svc + "-"@, prefix, "-"@ + n);
            assert(prefix + ("-"@ + n) =~= p);
        }
        assert(s[0] == c[j]);
        assert(s.subrange(1, s.len() as int) =~= c.subrange(j + 1, c.len() as int));
        lemma_method_tools_reach(top, svc, p, ps2, r, 0);
        assert(r.methods@.subrange(0, r.methods@.len() as int) == r.methods@);
        assert(decreases_to!(c => c[j]));
        assert(decreases_to!(c[j] => c[j].1));
        assert(decreases_to!(c[j].1 => c[j].1.resources));
        assert(decreases_to!(c[j].1.resources => child));
        lemma_tools_reach(top, child, 0, p, ps2, svc);
        assert(child.subrange(0, child.len() as int) == child);
        lemma_tools_reach(top, c, j + 1, prefix, ps, svc);
        let mt = method_tools(r.methods@, p);
        let sub = resource_tools(child, p);
        let later = resource_tools(c.subrange(j + 1, c.len() as int), prefix);
        let all = resource_tools(s, prefix);
        assert(all == mt + sub + later);
        assert forall|i: int| 0 <= i < all.len() implies #[trigger] tool_reaches(top, svc, all[i]) by {
            if i < mt.len() {
                assert(all[i] == mt[i]);
                assert(tool_reaches(top, svc, mt[i]));
            } else if i < mt.len() + sub.len() {
                assert(all[i] == sub[i - mt.len()]);
                assert(tool_reaches(top, svc, sub[i - mt.len()]));
            } else {
                assert(all[i] == later[i - mt.len() - sub.len()]);
                assert(tool_reaches(top, svc, later[i - mt.len() - sub.len()]));
            }
        }
    }
}

} // verus!

verus! {

/// The parameters of a `tools/call` request naming the tool `name`.
pub open spec fn call_params(name: Seq<char>) -> Json {
    Json::Object(seq![("name"@, Json::Str(name))])
}

proof fn lemma_plan_full(
    name: Seq<char>,
    svc: Seq<char>,
    segs: Seq<Seq<char>>,
    mname: Seq<char>,
    services: Seq<Seq<char>>,
)
    requires
        split_spec(name, '-') == seq![svc] + segs + seq![mname],
        segs.len() >= 1,
        is_prefix(svc + "-"@, name),
        free_of(svc, '-'),
        svc != "workflow"@,
        services.contains(svc),
    ensures
        call_plan(call_params(name), services, ToolMode::Full) == CallPlan::Full(svc, segs, mname),
{
    reveal_strlit("-");
    reveal_strlit("name");
    assert("-"@ =~= seq!['-']);
    let members = seq![("name"@, Json::Str(name))];
    assert(members[0].0 == "name"@);
    assert(member_index(members, "name"@) == 0);
    assert(call_params(name).get_str("name"@) == Some(name));
    let sl: int = svc.len() as int;
    assert(name[sl as int] == '-') by {
        assert(name.subrange(0, sl + 1)[sl as int] == (svc + "-"@)[sl as int]);
    }
    reveal_strlit("workflow-");
    reveal_strlit("workflow");
    if is_prefix("workflow-"@, name) {
        assert(name.subrange(0, 9) == "workflow-"@);
        if sl < 8 {
            assert(name[sl as int] == name.subrange(0, 9)[sl as int]);
            assert("workflow-"@[sl as int] != '-');
        } else if sl == 8 {
            assert forall|i: int| 0 <= i < 8 implies svc[i] == "workflow"@[i] by {
                assert(svc[i] == name.subrange(0, sl + 1)[i]);
                assert(name[i] == name.subrange(0, 9)[i]);
                assert("workflow"@[i] == "workflow-"@[i]);
            }
            assert(svc =~= "workflow"@);
        } else {
            assert(svc[8] == name.subrange(0, sl + 1)[8]);
            assert(name[8] == name.subrange(0, 9)[8]);
            assert(svc[8] != '-');
        }
    }
    assert(!is_prefix("workflow-"@, name));
    if name == "gws-discover"@ {
        reveal_strlit("gws-discover");
        reveal_strlit("gws");
        reveal_strlit("discover");
        assert("gws-discover"@ =~= "gws"@ + seq!['-'] + "discover"@);
        assert(free_of("discover"@, '-'));
        assert(free_of("gws"@, '-'));
        lemma_split_push("gws"@, '-', "discover"@);
        lemma_split_free("gws"@, '-');
        assert(split_spec(name, '-').len() == 2);
    }
    let parts = split_spec(name, '-');
    assert(parts.len() >= 3);
    assert(parts[0] == svc);
    assert(parts.subrange(1, parts.len() - 1) =~= segs);
    assert(parts.last() == mname);
}

/// A listed tool that runs: `t` is the tool of method `m` under the name
/// `name`, and a full-mode call naming `name` is planned and finds `m`.
pub open spec fn runs_as(doc: RestDescription, services: Seq<Seq<char>>, t: Json, name: Seq<char>, m: RestMethod) -> bool {
    &&& t == method_tool(name, m)
    &&& match call_plan(call_params(name), services, ToolMode::Full) {
        CallPlan::Full(_, segs, mname) => full_method(doc, segs, mname) == Ok::<RestMethod, Seq<char>>(m),
        _ => false,
    }
}

/// `t` is a tool that a full-mode call by its name runs.
pub open spec fn listed_tool_runs(doc: RestDescription, services: Seq<Seq<char>>, t: Json) -> bool {
    exists|name: Seq<char>, m: RestMethod| #[trigger] runs_as(doc, services, t, name, m)
}

/// Every tool that full mode lists for an enabled service, called by its
/// name, is planned as a full-mode call that finds the very method the tool
/// was made from — when the service's, resources' and methods' names hold
/// no `-`, sibling names differ (as map keys do), and the service is not
/// named `workflow` (whose tools would be taken for workflow tools).
pub proof fn listed_tools_resolve(doc: RestDescription, svc: Seq<char>, services: Seq<Seq<char>>)
    requires
        dash_named(doc.resources@),
        free_of(svc, '-'),
        svc != "workflow"@,
        services.contains(svc),
    ensures
        forall|i: int|
            0 <= i < resource_tools(doc.resources@, svc).len() ==> #[trigger] listed_tool_runs(
                doc,
                services,
                resource_tools(doc.resources@, svc)[i],
            ),
{
    let top = doc.resources@;
    lemma_split_free(svc, '-');
    assert(seq![svc].drop_first() =~= Seq::<Seq<char>>::empty());
    lemma_tools_reach(top, top, 0, svc, seq![svc], svc);
    assert(top.subrange(0, top.len() as int) == top);
    let tools = resource_tools(top, svc);
    assert forall|i: int| 0 <= i < tools.len() implies #[trigger] listed_tool_runs(doc, services, tools[i]) by {
        assert(tool_reaches(top, svc, tools[i]));
        let (name, segs, mname, m) = choose|name: Seq<char>, segs: Seq<Seq<char>>, mname: Seq<char>, m: RestMethod|
            reaches_with(top, svc, tools[i], name, segs, mname, m);
        lemma_plan_full(name, svc, segs, mname, services);
        assert(runs_as(doc, services, tools[i], name, m));
    }
}

} // verus!
