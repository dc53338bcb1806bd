//! Command-line argument values as the commands read them.
use vstd::prelude::*;
use crate::discovery::{lookup, get_entry};
use crate::text::{owned, trim, trimmed};

verus! {

/// The values given for a command's named arguments, in order; the first
/// value recorded for a name is the one read.
pub struct CliArgs {
    pub values: Vec<(String, String)>,
}

impl CliArgs {
    /// No argument given.
    pub fn new() -> (res: Self)
        ensures
            res.values@.len() == 0,
    {
        CliArgs { values: Vec::new() }
    }

    /// Records the value given for `name`.
    pub fn insert(&mut self, name: &str, value: &str)
        ensures
            final(self).values@.len() == old(self).values@.len() + 1,
            final(self).values@.drop_last() == old(self).values@,
            final(self).values@.last().0@ == name@,
            final(self).values@.last().1@ == value@,
    {
        self.values.push((owned(name), owned(value)));
    }

    /// The value given for `name`, if any.
    pub open spec fn arg(&self, name: Seq<char>) -> Option<Seq<char>> {
        match lookup(self.values@, name) {
            Some(v) => Some(v@),
            None => None,
        }
    }

    /// The value given for `name`, if any.
    pub fn get_one(&self, name: &str) -> (res: Option<&String>)
        ensures
            match res {
                Some(v) => self.arg(name@) == Some(v@),
                None => self.arg(name@) is None,
            },
    {
        get_entry(&self.values, name)
    }
}

/// An optional argument trimmed of surrounding white space, absent when it
/// is empty or white space only.
pub open spec fn optional_trimmed(args: &CliArgs, name: Seq<char>) -> Option<Seq<char>> {
    match args.arg(name) {
        Some(v) => if trimmed(v).len() > 0 {
            Some(trimmed(v))
        } else {
            None
        },
        None => None,
    }
}

/// Parse an optional argument, trimming whitespace and treating
/// empty/whitespace-only values as None.
pub fn parse_optional_trimmed(matches: &CliArgs, name: &str) -> (res: Option<String>)
    ensures
        match res {
            Some(v) => optional_trimmed(matches, name@) == Some(v@),
            None => optional_trimmed(matches, name@) is None,
        },
{
    match matches.get_one(name) {
        Some(v) => {
            let t = trim(v.as_str());
            if t.is_empty() {
                None
            } else {
                Some(owned(t))
            }
        },
        None => None,
    }
}

/// The characters of an optional string.
pub open spec fn opt_string_view(value: Option<String>) -> Option<Seq<char>> {
    match value {
        Some(v) => Some(v@),
        None => None,
    }
}

} // verus!
