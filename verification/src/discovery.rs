//! The parts of a Google API Discovery Document that the commands read.
//!
//! Named collections (resources, methods, parameters) are lists of
//! `(name, value)` entries; a lookup finds the first entry with the name.
use vstd::prelude::*;
use crate::text::{str_eq, owned};
use crate::error::GwsError;

verus! {

/// A parameter of an API method.
pub struct MethodParameter {
    pub param_type: Option<String>,
    pub required: bool,
    pub location: Option<String>,
    pub description: Option<String>,
}

/// An API method.
pub struct RestMethod {
    pub http_method: String,
    pub path: String,
    pub description: Option<String>,
    pub scopes: Vec<String>,
    pub parameters: Vec<(String, MethodParameter)>,
    /// The name of the request body schema, for methods that take a body.
    pub request: Option<String>,
    pub supports_media_upload: bool,
    pub supports_media_download: bool,
}

/// An API resource: its methods and nested resources.
pub struct RestResource {
    pub methods: Vec<(String, RestMethod)>,
    pub resources: Vec<(String, RestResource)>,
}

/// A Discovery Document: the API's name and its top-level resources.
pub struct RestDescription {
    pub name: String,
    pub resources: Vec<(String, RestResource)>,
}

impl Default for MethodParameter {
    fn default() -> (res: Self)
        ensures
            res.param_type is None,
            !res.required,
            res.location is None,
            res.description is None,
    {
        MethodParameter { param_type: None, required: false, location: None, description: None }
    }
}

impl Default for RestMethod {
    fn default() -> (res: Self)
        ensures
            res.http_method@ == Seq::<char>::empty(),
            res.path@ == Seq::<char>::empty(),
            res.description is None,
            res.scopes@.len() == 0,
            res.parameters@.len() == 0,
            res.request is None,
            !res.supports_media_upload,
            !res.supports_media_download,
            res.well_formed(),
    {
        RestMethod {
            http_method: String::new(),
            path: String::new(),
            description: None,
            scopes: Vec::new(),
            parameters: Vec::new(),
            request: None,
            supports_media_upload: false,
            supports_media_download: false,
        }
    }
}

impl Default for RestResource {
    fn default() -> (res: Self)
        ensures
            res.methods@.len() == 0,
            res.resources@.len() == 0,
            res.well_formed(),
    {
        RestResource { methods: Vec::new(), resources: Vec::new() }
    }
}

impl Default for RestDescription {
    fn default() -> (res: Self)
        ensures
            res.name@ == Seq::<char>::empty(),
            res.resources@.len() == 0,
            res.well_formed(),
    {
        RestDescription { name: String::new(), resources: Vec::new() }
    }
}

/// The index of the first entry named `key`, or the number of entries.
pub open spec fn entry_index<T>(entries: Seq<(String, T)>, key: Seq<char>) -> int
    decreases entries.len(),
{
    if entries.len() == 0 {
        0
    } else if entries[0].0@ == key {
        0
    } else {
        1 + entry_index(entries.drop_first(), key)
    }
}

pub proof fn lemma_entry_index<T>(entries: Seq<(String, T)>, key: Seq<char>)
    ensures
        0 <= entry_index(entries, key) <= entries.len(),
        entry_index(entries, key) < entries.len() ==> entries[entry_index(entries, key)].0@ == key,
        forall|j: int| 0 <= j < entry_index(entries, key) ==> #[trigger] entries[j].0@ != key,
    decreases entries.len(),
{
    if entries.len() > 0 && entries[0].0@ != key {
        lemma_entry_index(entries.drop_first(), key);
        assert forall|j: int| 0 <= j < entry_index(entries, key) implies #[trigger] entries[j].0@
            != key by {
            if j > 0 {
                assert(entries.drop_first()[j - 1] == entries[j]);
            }
        }
    }
}

/// The value of the first entry named `key`.
pub open spec fn lookup<T>(entries: Seq<(String, T)>, key: Seq<char>) -> Option<T> {
    let i = entry_index(entries, key);
    if i < entries.len() {
        Some(entries[i].1)
    } else {
        None
    }
}

/// Sibling names differ, as the keys of a map do.
pub open spec fn names_distinct<T>(e: Seq<(String, T)>) -> bool {
    forall|a: int, b: int| #![trigger e[a], e[b]] 0 <= a < b < e.len() ==> e[a].0@ != e[b].0@
}

/// Where sibling names differ, looking up an entry's name finds that entry.
pub proof fn lemma_lookup_distinct<T>(e: Seq<(String, T)>, j: int)
    requires
        names_distinct(e),
        0 <= j < e.len(),
    ensures
        lookup(e, e[j].0@) == Some(e[j].1),
{
    lemma_entry_index(e, e[j].0@);
    let idx = entry_index(e, e[j].0@);
    if idx < j {
        assert(e[idx].0@ != e[j].0@);
    } else if idx > j {
        assert(e[j].0@ != e[j].0@);
    }
}

/// At every level, the names of resources, of methods and of parameters
/// differ from their siblings' (the keys of the document's maps).
pub open spec fn resources_well_formed(entries: Seq<(String, RestResource)>) -> bool
    decreases entries,
{
    if entries.len() == 0 {
        true
    } else {
        proof {
            assert(decreases_to!(entries => entries[0]));
            assert(decreases_to!(entries[0] => entries[0].1));
            assert(decreases_to!(entries[0].1 => entries[0].1.resources));
            assert(decreases_to!(entries[0].1.resources => entries[0].1.resources@));
            assert(decreases_to!(entries => entries.subrange(1, entries.len() as int)));
        }
        &&& names_distinct(entries)
        &&& entries[0].1.methods_well_formed()
        &&& resources_well_formed(entries[0].1.resources@)
        &&& resources_well_formed(entries.subrange(1, entries.len() as int))
    }
}

impl RestMethod {
    /// Parameter names differ.
    pub open spec fn well_formed(&self) -> bool {
        names_distinct(self.parameters@)
    }
}

impl RestResource {
    /// Method names differ, and each method is well formed.
    pub open spec fn methods_well_formed(&self) -> bool {
        &&& names_distinct(self.methods@)
        &&& forall|k: int| 0 <= k < self.methods@.len() ==> (#[trigger] self.methods@[k]).1.well_formed()
    }

    /// Names differ from their siblings' at every level of this resource.
    pub open spec fn well_formed(&self) -> bool {
        &&& self.methods_well_formed()
        &&& resources_well_formed(self.resources@)
    }
}

impl RestDescription {
    /// Names differ from their siblings' at every level, as the keys of the
    /// document's maps do.
    pub open spec fn well_formed(&self) -> bool {
        resources_well_formed(self.resources@)
    }
}

/// The value of the first entry named `key`.
pub fn get_entry<'a, T>(entries: &'a Vec<(String, T)>, key: &str) -> (res: Option<&'a T>)
    ensures
        match res {
            Some(v) => lookup(entries@, key@) == Some(*v),
            None => lookup(entries@, key@) is None,
        },
{
    proof {
        lemma_entry_index(entries@, key@);
    }
    let mut i: usize = 0;
    while i < entries.len()
        invariant
            i <= entries.len(),
            forall|j: int| 0 <= j < i ==> #[trigger] entries@[j].0@ != key@,
            0 <= entry_index(entries@, key@) <= entries@.len(),
            entry_index(entries@, key@) < entries@.len() ==> entries@[entry_index(entries@, key@)].0@ == key@,
            forall|j: int| 0 <= j < entry_index(entries@, key@) ==> #[trigger] entries@[j].0@ != key@,
        decreases entries.len() - i,
    {
        if str_eq(entries[i].0.as_str(), key) {
            assert(entry_index(entries@, key@) == i);
            return Some(&entries[i].1);
        }
        i = i + 1;
    }
    None
}

/// Whether an entry named `key` exists.
pub fn has_entry<T>(entries: &Vec<(String, T)>, key: &str) -> (res: bool)
    ensures
        res == lookup(entries@, key@) is Some,
{
    get_entry(entries, key).is_some()
}

} // verus!

verus! {

/// The method `r.s.m` of a document, or the message of the first lookup
/// that fails.
pub open spec fn method_lookup(doc: RestDescription, r: Seq<char>, s: Seq<char>, m: Seq<char>) -> Result<
    RestMethod,
    Seq<char>,
> {
    match lookup(doc.resources@, r) {
        None => Err("Resource '"@ + r + "' not found"@),
        Some(res) => match lookup(res.resources@, s) {
            None => Err("Resource '"@ + r + "."@ + s + "' not found"@),
            Some(sub) => match lookup(sub.methods@, m) {
                None => Err("Method '"@ + r + "."@ + s + "."@ + m + "' not found"@),
                Some(method) => Ok(method),
            },
        },
    }
}

/// Finds the method `r.s.m`; a missing resource or method is a discovery error.
pub fn resolve_method<'a>(doc: &'a RestDescription, r: &str, s: &str, m: &str) -> (res: Result<
    &'a RestMethod,
    GwsError,
>)
    ensures
        match res {
            Ok(method) => method_lookup(*doc, r@, s@, m@) == Ok::<RestMethod, Seq<char>>(*method),
            Err(e) => e is Discovery && method_lookup(*doc, r@, s@, m@) == Err::<RestMethod, Seq<char>>(
                e.spec_message(),
            ),
        },
{
    let resource = match get_entry(&doc.resources, r) {
        Some(x) => x,
        None => {
            let mut msg = owned("Resource '");
            msg.append(r);
            msg.append("' not found");
            return Err(GwsError::Discovery(msg));
        },
    };
    let sub = match get_entry(&resource.resources, s) {
        Some(x) => x,
        None => {
            let mut msg = owned("Resource '");
            msg.append(r);
            msg.append(".");
            msg.append(s);
            msg.append("' not found");
            return Err(GwsError::Discovery(msg));
        },
    };
    match get_entry(&sub.methods, m) {
        Some(method) => Ok(method),
        None => {
            let mut msg = owned("Method '");
            msg.append(r);
            msg.append(".");
            msg.append(s);
            msg.append(".");
            msg.append(m);
            msg.append("' not found");
            Err(GwsError::Discovery(msg))
        },
    }
}

} // verus!
