//! Walking a Discovery Document's resource tree by dot-separated paths.
use vstd::prelude::*;
use crate::discovery::{RestResource, lookup, get_entry, entry_index, lemma_entry_index};
use crate::text::{owned, split_char, split_spec, views, lemma_split_nonempty, free_of, lemma_split_free, lemma_split_push,
    join_spec, lemma_join_push, lemma_join_split};

verus! {

/// The path of a resource named `name` under `prefix`: the name alone at
/// the top level, else the prefix, a dot and the name.
pub open spec fn path_of(prefix: Seq<char>, name: Seq<char>) -> Seq<char> {
    if prefix.len() == 0 {
        name
    } else {
        prefix + "."@ + name
    }
}

/// Every resource path under `prefix`, depth first: each resource's path,
/// then the paths of its nested resources, then its later siblings.
pub open spec fn resource_paths(entries: Seq<(String, RestResource)>, prefix: Seq<char>) -> Seq<
    Seq<char>,
>
    decreases entries,
{
    if entries.len() == 0 {
        Seq::empty()
    } else {
        let path = path_of(prefix, entries[0].0@);
        proof {
            assert(decreases_to!(entries => entries[0]));
            assert(decreases_to!(entries[0] => entries[0].1));
            assert(decreases_to!(entries[0].1 => entries[0].1.resources));
            assert(decreases_to!(entries[0].1.resources => entries[0].1.resources@));
            assert(decreases_to!(entries => entries.subrange(1, entries.len() as int)));
        }
        seq![path] + resource_paths(entries[0].1.resources@, path) + resource_paths(
            entries.subrange(1, entries.len() as int),
            prefix,
        )
    }
}

/// Appends `a + "." + b`, or `b` alone when `a` is empty.
fn joined_path(prefix: &str, name: &str) -> (res: String)
    ensures
        res@ == path_of(prefix@, name@),
{
    if prefix.is_empty() {
        owned(name)
    } else {
        let mut p = owned(prefix);
        p.append(".");
        p.append(name);
        p
    }
}

/// Recursively collect all resource paths (dot-separated) from a resource tree.
pub fn collect_resource_paths(resources: &Vec<(String, RestResource)>, prefix: &str, out: &mut Vec<String>)
    ensures
        views(final(out)@) == views(old(out)@) + resource_paths(resources@, prefix@),
    decreases resources@,
{
    let ghost start = views(out@);
    let mut i: usize = 0;
    proof {
        assert(resources@.subrange(0, resources@.len() as int) == resources@);
    }
    while i < resources.len()
        invariant
            i <= resources.len(),
            views(out@) + resource_paths(resources@.subrange(i as int, resources@.len() as int), prefix@)
                == start + resource_paths(resources@, prefix@),
        decreases resources.len() - i,
    {
        let ghost rest = resources@.subrange(i as int, resources@.len() as int);
        let (name, res) = &resources[i];
        let path = joined_path(prefix, name.as_str());
        proof {
            assert(rest[0] == resources@[i as int]);
            assert(rest.subrange(1, rest.len() as int) =~= resources@.subrange(
                i + 1,
                resources@.len() as int,
            ));
            assert(decreases_to!(resources@ => resources@[i as int]));
            assert(decreases_to!(resources@[i as int] => resources@[i as int].1));
            assert(decreases_to!(resources@[i as int].1 => resources@[i as int].1.resources));
            assert(decreases_to!(resources@[i as int].1.resources => resources@[i as int].1.resources@));
        }
        let ghost before = views(out@);
        out.push(owned(path.as_str()));
        proof {
            assert(views(out@) == before.push(path@));
        }
        if !res.resources.is_empty() {
            collect_resource_paths(&res.resources, path.as_str(), out);
        } else {
            proof {
                assert(resource_paths(res.resources@, path@) =~= Seq::<Seq<char>>::empty());
                assert(views(out@) + resource_paths(res.resources@, path@) == views(out@));
            }
        }
        proof {
            assert(views(out@) + resource_paths(
                resources@.subrange(i + 1, resources@.len() as int),
                prefix@,
            ) =~= before + resource_paths(rest, prefix@));
        }
        i = i + 1;
    }
    proof {
        assert(resources@.subrange(resources@.len() as int, resources@.len() as int)
            =~= Seq::<(String, RestResource)>::empty());
        assert(views(out@) + Seq::<Seq<char>>::empty() == views(out@));
    }
}

/// The resource at the path `segs`: the first segment looked up among
/// `entries`, each later one among the previous resource's nested ones.
pub open spec fn find_in(entries: Seq<(String, RestResource)>, segs: Seq<Seq<char>>) -> Option<
    RestResource,
>
    decreases segs.len(),
{
    if segs.len() == 0 {
        None
    } else {
        match lookup(entries, segs[0]) {
            None => None,
            Some(r) => if segs.len() == 1 {
                Some(r)
            } else {
                find_in(r.resources@, segs.drop_first())
            },
        }
    }
}

/// Walk into potentially nested resources by dot-separated path (e.g.,
/// "projects.locations.templates").
pub fn find_resource<'a>(resources: &'a Vec<(String, RestResource)>, path: &str) -> (res: Option<
    &'a RestResource,
>)
    ensures
        match res {
            Some(r) => find_in(resources@, split_spec(path@, '.')) == Some(*r),
            None => find_in(resources@, split_spec(path@, '.')) is None,
        },
{
    let segments = split_char(path, '.');
    let ghost segs = split_spec(path@, '.');
    proof {
        lemma_split_nonempty(path@, '.');
        assert(segments@.len() == segs.len());
        assert(segments@[0]@ == segs[0]);
    }
    let mut current: &RestResource = match get_entry(resources, segments[0].as_str()) {
        Some(r) => r,
        None => return None,
    };
    let mut i: usize = 1;
    while i < segments.len()
        invariant
            1 <= i <= segments.len(),
            segs == views(segments@),
            segs == split_spec(path@, '.'),
            segs.len() == segments@.len(),
            find_in(resources@, segs) == if i == segs.len() {
                Some(*current)
            } else {
                find_in(current.resources@, segs.subrange(i as int, segs.len() as int))
            },
        decreases segments.len() - i,
    {
        proof {
            let rest = segs.subrange(i as int, segs.len() as int);
            assert(rest[0] == segments@[i as int]@);
            assert(rest.drop_first() =~= segs.subrange(i + 1, segs.len() as int));
        }
        let ghost rest = segs.subrange(i as int, segs.len() as int);
        let next = get_entry(&current.resources, segments[i].as_str());
        match next {
            Some(r) => {
                current = r;
            },
            None => {
                assert(find_in(current.resources@, rest) is None);
                return None;
            },
        }
        i = i + 1;
    }
    Some(current)
}

} // verus!

verus! {

/// `name` holds no dot.
pub open spec fn dot_free(name: Seq<char>) -> bool {
    free_of(name, '.')
}

/// At every level, every resource name is non-empty, holds no dot and
/// differs from the names of its later siblings (as the keys of a map do).
pub open spec fn well_named(entries: Seq<(String, RestResource)>) -> bool
    decreases entries,
{
    if entries.len() == 0 {
        true
    } else {
        proof {
            assert(decreases_to!(entries => entries[0]));
            assert(decreases_to!(entries[0] => entries[0].1));
            assert(decreases_to!(entries[0].1 => entries[0].1.resources));
            assert(decreases_to!(entries[0].1.resources => entries[0].1.resources@));
            assert(decreases_to!(entries => entries.subrange(1, entries.len() as int)));
        }
        &&& entries[0].0@.len() > 0
        &&& dot_free(entries[0].0@)
        &&& (forall|k: int| 1 <= k < entries.len() ==> #[trigger] entries[k].0@ != entries[0].0@)
        &&& well_named(entries[0].1.resources@)
        &&& well_named(entries.subrange(1, entries.len() as int))
    }
}

/// The path segments of a prefix: none for the top level.
pub open spec fn segs_of(prefix: Seq<char>) -> Seq<Seq<char>> {
    if prefix.len() == 0 {
        Seq::empty()
    } else {
        split_spec(prefix, '.')
    }
}

/// The resources directly under the path `segs` (the top level for no segment).
pub open spec fn children_at(top: Seq<(String, RestResource)>, segs: Seq<Seq<char>>) -> Option<
    Seq<(String, RestResource)>,
> {
    if segs.len() == 0 {
        Some(top)
    } else {
        match find_in(top, segs) {
            Some(r) => Some(r.resources@),
            None => None,
        }
    }
}

/// The segments of a child's path are the parent's segments and its name.
proof fn lemma_segs_of_path(prefix: Seq<char>, n: Seq<char>)
    requires
        n.len() > 0,
        dot_free(n),
    ensures
        segs_of(path_of(prefix, n)) == segs_of(prefix).push(n),
        split_spec(path_of(prefix, n), '.') == segs_of(prefix).push(n),
{
    reveal_strlit(".");
    assert("."@ =~= seq!['.']);
    if prefix.len() == 0 {
        lemma_split_free(n, '.');
        assert(Seq::<Seq<char>>::empty().push(n) == seq![n]);
    } else {
        lemma_split_push(prefix, '.', n);
    }
}

/// Looking one segment further is a lookup among the children of the path.
proof fn lemma_find_push(top: Seq<(String, RestResource)>, p: Seq<Seq<char>>, n: Seq<char>)
    ensures
        find_in(top, p.push(n)) == match children_at(top, p) {
            Some(e) => lookup(e, n),
            None => None,
        },
    decreases p.len(),
{
    if p.len() == 0 {
        assert(p.push(n) == seq![n]);
    } else {
        assert(p.push(n)[0] == p[0]);
        assert(p.push(n).drop_first() =~= p.drop_first().push(n));
        match lookup(top, p[0]) {
            None => {},
            Some(r) => {
                lemma_find_push(r.resources@, p.drop_first(), n);
            },
        }
    }
}

/// In a well-named list, earlier names differ from later ones.
proof fn lemma_names_distinct(e: Seq<(String, RestResource)>, k: int, j: int)
    requires
        well_named(e),
        0 <= k < j < e.len(),
    ensures
        e[k].0@ != e[j].0@,
    decreases k,
{
    if k > 0 {
        let rest = e.subrange(1, e.len() as int);
        lemma_names_distinct(rest, k - 1, j - 1);
    }
}

/// In a well-named list, a name leads to its own entry.
proof fn lemma_lookup_own(e: Seq<(String, RestResource)>, j: int)
    requires
        well_named(e),
        0 <= j < e.len(),
    ensures
        lookup(e, e[j].0@) == Some(e[j].1),
{
    lemma_entry_index(e, e[j].0@);
    let idx = entry_index(e, e[j].0@);
    if idx < j {
        lemma_names_distinct(e, idx, j);
    }
}

/// Suffixes and nested lists of a well-named list are well named, and each
/// name is non-empty and dot-free.
proof fn lemma_well_named_parts(e: Seq<(String, RestResource)>, j: int)
    requires
        well_named(e),
        0 <= j < e.len(),
    ensures
        well_named(e.subrange(j, e.len() as int)),
        well_named(e[j].1.resources@),
        e[j].0@.len() > 0,
        dot_free(e[j].0@),
    decreases j,
{
    if j == 0 {
        assert(e.subrange(0, e.len() as int) == e);
    } else {
        let rest = e.subrange(1, e.len() as int);
        lemma_well_named_parts(rest, j - 1);
        assert(rest.subrange(j - 1, rest.len() as int) =~= e.subrange(j, e.len() as int));
    }
}

proof fn lemma_paths_found(
    top: Seq<(String, RestResource)>,
    c: Seq<(String, RestResource)>,
    j: int,
    prefix: Seq<char>,
)
    requires
        children_at(top, segs_of(prefix)) == Some(c),
        well_named(c),
        0 <= j <= c.len(),
    ensures
        forall|i: int|
            0 <= i < resource_paths(c.subrange(j, c.len() as int), prefix).len() ==> (#[trigger] find_in(
                top,
                split_spec(resource_paths(c.subrange(j, c.len() as int), prefix)[i], '.'),
            )) is Some,
    decreases c, c.len() - j,
{
    let s = c.subrange(j, c.len() as int);
    if j < c.len() {
        let n = c[j].0@;
        let child = c[j].1.resources@;
        let path = path_of(prefix, n);
        lemma_well_named_parts(c, j);
        lemma_lookup_own(c, j);
        lemma_segs_of_path(prefix, n);
        lemma_find_push(top, segs_of(prefix), n);
        assert(s[0] == c[j]);
        assert(s.subrange(1, s.len() as int) =~= c.subrange(j + 1, c.len() as int));
        // The child level.
        assert(children_at(top, segs_of(path)) == Some(child));
        assert(decreases_to!(c => c[j]));
        assert(decreases_to!(c[j] => c[j].1));
        assert(decreases_to!(c[j].1 => c[j].1.resources));
        assert(decreases_to!(c[j].1.resources => child));
        lemma_paths_found(top, child, 0, path);
        assert(child.subrange(0, child.len() as int) == child);
        // The later siblings.
        lemma_paths_found(top, c, j + 1, prefix);
        let sub = resource_paths(child, path);
        let later = resource_paths(c.subrange(j + 1, c.len() as int), prefix);
        let all = resource_paths(s, prefix);
        assert(all == seq![path] + sub + later);
        assert forall|i: int| 0 <= i < all.len() implies (#[trigger] find_in(
            top,
            split_spec(all[i], '.'),
        )) is Some by {
            if i == 0 {
                assert(all[0] == path);
            } else if i < 1 + sub.len() {
                assert(all[i] == sub[i - 1]);
                assert(find_in(top, split_spec(sub[i - 1], '.')) is Some);
            } else {
                assert(all[i] == later[i - 1 - sub.len()]);
                assert(find_in(top, split_spec(later[i - 1 - sub.len()], '.')) is Some);
            }
        }
    } else {
        assert(s.len() == 0);
    }
}

/// Every resource path that `collect_resource_paths` lists from the top
/// level leads `find_resource` back to a resource, when names are
/// non-empty, dot-free and unique among siblings.
pub proof fn collected_paths_are_found(resources: Seq<(String, RestResource)>)
    requires
        well_named(resources),
    ensures
        forall|i: int|
            0 <= i < resource_paths(resources, Seq::empty()).len() ==> (#[trigger] find_in(
                resources,
                split_spec(resource_paths(resources, Seq::empty())[i], '.'),
            )) is Some,
{
    lemma_paths_found(resources, resources, 0, Seq::empty());
    assert(resources.subrange(0, resources.len() as int) == resources);
}

} // verus!

verus! {

/// The path of each resource, and every path under it, is among the paths
/// listed for its siblings.
proof fn lemma_paths_include(c: Seq<(String, RestResource)>, prefix: Seq<char>, j: int)
    requires
        0 <= j < c.len(),
    ensures
        resource_paths(c, prefix).contains(path_of(prefix, c[j].0@)),
        forall|x: Seq<char>|
            #[trigger] resource_paths(c[j].1.resources@, path_of(prefix, c[j].0@)).contains(x)
                ==> resource_paths(c, prefix).contains(x),
    decreases c.len(),
{
    let rest = c.subrange(1, c.len() as int);
    let p0 = path_of(prefix, c[0].0@);
    let sub = resource_paths(c[0].1.resources@, p0);
    let later = resource_paths(rest, prefix);
    let all = resource_paths(c, prefix);
    assert(all == seq![p0] + sub + later);
    if j == 0 {
        assert(all[0] == p0);
        assert forall|x: Seq<char>| #[trigger] sub.contains(x) implies all.contains(x) by {
            let i = choose|i: int| 0 <= i < sub.len() && sub[i] == x;
            assert(all[1 + i] == sub[i]);
        }
    } else {
        assert(rest[j - 1] == c[j]);
        lemma_paths_include(rest, prefix, j - 1);
        assert forall|x: Seq<char>| #[trigger] later.contains(x) implies all.contains(x) by {
            let i = choose|i: int| 0 <= i < later.len() && later[i] == x;
            assert(all[1 + sub.len() + i] == later[i]);
        }
    }
}

proof fn lemma_found_listed(top: Seq<(String, RestResource)>, segs: Seq<Seq<char>>)
    requires
        well_named(top),
        segs.len() > 0,
        find_in(top, segs) is Some,
    ensures
        join_spec(segs, seq!['.']).len() > 0,
        resource_paths(top, Seq::empty()).contains(join_spec(segs, seq!['.'])),
        well_named(find_in(top, segs)->Some_0.resources@),
        forall|x: Seq<char>|
            #[trigger] resource_paths(find_in(top, segs)->Some_0.resources@, join_spec(segs, seq!['.'])).contains(x)
                ==> resource_paths(top, Seq::empty()).contains(x),
    decreases segs.len(),
{
    reveal_strlit(".");
    assert("."@ =~= seq!['.']);
    let p = segs.drop_last();
    let n = segs.last();
    assert(p.push(n) =~= segs);
    lemma_find_push(top, p, n);
    let children = if p.len() == 0 {
        top
    } else {
        find_in(top, p)->Some_0.resources@
    };
    if p.len() > 0 {
        lemma_found_listed(top, p);
    }
    assert(children_at(top, p) == Some(children));
    let prefix = if p.len() == 0 {
        Seq::<char>::empty()
    } else {
        join_spec(p, seq!['.'])
    };
    assert(well_named(children));
    lemma_entry_index(children, n);
    let idx = entry_index(children, n);
    assert(children[idx].0@ == n);
    lemma_well_named_parts(children, idx);
    lemma_paths_include(children, prefix, idx);
    if p.len() == 0 {
        assert(join_spec(segs, seq!['.']) == n);
        assert(path_of(prefix, n) == n);
    } else {
        lemma_join_push(p, n, seq!['.']);
        assert(path_of(prefix, n) == join_spec(segs, seq!['.']));
        assert forall|x: Seq<char>| #[trigger] resource_paths(children, prefix).contains(x) implies resource_paths(
            top,
            Seq::empty(),
        ).contains(x) by {}
    }
}

/// Every path that leads `find_resource` to a resource is one that
/// `collect_resource_paths` lists from the top level, when names are
/// non-empty, dot-free and unique among siblings; with
/// `collected_paths_are_found`, the listed paths are exactly the found ones.
pub proof fn found_paths_are_collected(resources: Seq<(String, RestResource)>, q: Seq<char>)
    requires
        well_named(resources),
        find_in(resources, split_spec(q, '.')) is Some,
    ensures
        resource_paths(resources, Seq::empty()).contains(q),
{
    lemma_split_nonempty(q, '.');
    lemma_found_listed(resources, split_spec(q, '.'));
    lemma_join_split(q, '.');
}

} // verus!

verus! {

/// `x` is a path under `prefix` through one of the names of `c`: its
/// segments are the prefix's, then the name of an entry of `c`, then
/// possibly more.
pub open spec fn under_entry(x: Seq<char>, prefix: Seq<char>, c: Seq<(String, RestResource)>) -> bool {
    let sx = split_spec(x, '.');
    let d: int = segs_of(prefix).len() as int;
    &&& sx.len() > d
    &&& sx.subrange(0, d) == segs_of(prefix)
    &&& exists|k: int| 0 <= k < c.len() && sx[d] == #[trigger] c[k].0@
}

proof fn lemma_paths_shape(c: Seq<(String, RestResource)>, prefix: Seq<char>)
    requires
        well_named(c),
    ensures
        forall|i: int|
            0 <= i < resource_paths(c, prefix).len() ==> under_entry(
                #[trigger] resource_paths(c, prefix)[i],
                prefix,
                c,
            ),
    decreases c,
{
    if c.len() > 0 {
        let rest = c.subrange(1, c.len() as int);
        let n = c[0].0@;
        let child = c[0].1.resources@;
        let p0 = path_of(prefix, n);
        let sub = resource_paths(child, p0);
        let later = resource_paths(rest, prefix);
        let all = resource_paths(c, prefix);
        assert(all == seq![p0] + sub + later);
        lemma_well_named_parts(c, 0);
        assert(c.subrange(0, c.len() as int) == c);
        lemma_segs_of_path(prefix, n);
        let d: int = segs_of(prefix).len() as int;
        assert(decreases_to!(c => c[0]));
        assert(decreases_to!(c[0] => c[0].1));
        assert(decreases_to!(c[0].1 => c[0].1.resources));
        assert(decreases_to!(c[0].1.resources => child));
        lemma_paths_shape(child, p0);
        assert(well_named(rest));
        lemma_paths_shape(rest, prefix);
        assert forall|i: int| 0 <= i < all.len() implies under_entry(#[trigger] all[i], prefix, c) by {
            if i == 0 {
                assert(all[0] == p0);
                let sx = split_spec(p0, '.');
                assert(sx == segs_of(prefix).push(n));
                assert(sx.subrange(0, d) =~= segs_of(prefix));
                assert(sx[d] == c[0].0@);
            } else if i < 1 + sub.len() {
                assert(all[i] == sub[i - 1]);
                assert(under_entry(sub[i - 1], p0, child));
                let sx = split_spec(sub[i - 1], '.');
                assert(sx.subrange(0, d + 1) == segs_of(prefix).push(n));
                assert(sx.subrange(0, d) =~= sx.subrange(0, d + 1).subrange(0, d));
                assert(segs_of(prefix).push(n).subrange(0, d) =~= segs_of(prefix));
                assert(sx[d] == sx.subrange(0, d + 1)[d]);
                assert(sx[d] == c[0].0@);
            } else {
                let x = later[i - 1 - sub.len()];
                assert(all[i] == x);
                assert(under_entry(x, prefix, rest));
                let sx = split_spec(x, '.');
                let k = choose|k: int| 0 <= k < rest.len() && sx[d] == #[trigger] rest[k].0@;
                assert(rest[k] == c[k + 1]);
                assert(sx[d] == c[k + 1].0@);
            }
        }
    }
}

proof fn lemma_paths_distinct(c: Seq<(String, RestResource)>, prefix: Seq<char>)
    requires
        well_named(c),
    ensures
        forall|i: int, j: int|
            0 <= i < j < resource_paths(c, prefix).len() ==> #[trigger] resource_paths(c, prefix)[i]
                != #[trigger] resource_paths(c, prefix)[j],
    decreases c,
{
    if c.len() > 0 {
        let rest = c.subrange(1, c.len() as int);
        let n = c[0].0@;
        let child = c[0].1.resources@;
        let p0 = path_of(prefix, n);
        let sub = resource_paths(child, p0);
        let later = resource_paths(rest, prefix);
        let all = resource_paths(c, prefix);
        assert(all == seq![p0] + sub + later);
        lemma_well_named_parts(c, 0);
        assert(c.subrange(0, c.len() as int) == c);
        lemma_segs_of_path(prefix, n);
        let d: int = segs_of(prefix).len() as int;
        assert(decreases_to!(c => c[0]));
        assert(decreases_to!(c[0] => c[0].1));
        assert(decreases_to!(c[0].1 => c[0].1.resources));
        assert(decreases_to!(c[0].1.resources => child));
        lemma_paths_shape(child, p0);
        lemma_paths_distinct(child, p0);
        assert(well_named(rest));
        lemma_paths_shape(rest, prefix);
        lemma_paths_distinct(rest, prefix);
        assert forall|i: int, j: int| 0 <= i < j < all.len() implies #[trigger] all[i] != #[trigger] all[j] by {
            let s0 = split_spec(p0, '.');
            assert(s0 == segs_of(prefix).push(n));
            if i == 0 {
                if j < 1 + sub.len() {
                    assert(all[j] == sub[j - 1]);
                    assert(under_entry(sub[j - 1], p0, child));
                    assert(split_spec(sub[j - 1], '.').len() > d + 1);
                } else {
                    let x = later[j - 1 - sub.len()];
                    assert(all[j] == x);
                    assert(under_entry(x, prefix, rest));
                    let sx = split_spec(x, '.');
                    let k = choose|k: int| 0 <= k < rest.len() && sx[d] == #[trigger] rest[k].0@;
                    assert(rest[k] == c[k + 1]);
                    assert(c[k + 1].0@ != c[0].0@);
                    assert(s0[d] == n);
                }
            } else if i < 1 + sub.len() {
                if j < 1 + sub.len() {
                    assert(all[i] == sub[i - 1] && all[j] == sub[j - 1]);
                } else {
                    let x = later[j - 1 - sub.len()];
                    assert(all[i] == sub[i - 1] && all[j] == x);
                    assert(under_entry(sub[i - 1], p0, child));
                    let si = split_spec(sub[i - 1], '.');
                    assert(si.subrange(0, d + 1) == segs_of(prefix).push(n));
                    assert(si[d] == si.subrange(0, d + 1)[d]);
                    assert(under_entry(x, prefix, rest));
                    let sx = split_spec(x, '.');
                    let k = choose|k: int| 0 <= k < rest.len() && sx[d] == #[trigger] rest[k].0@;
                    assert(rest[k] == c[k + 1]);
                    assert(c[k + 1].0@ != c[0].0@);
                }
            } else {
                assert(all[i] == later[i - 1 - sub.len()] && all[j] == later[j - 1 - sub.len()]);
            }
        }
    }
}

/// `collect_resource_paths` lists each resource path once: no path occurs
/// twice when names are non-empty, dot-free and unique among siblings.
pub proof fn collected_paths_distinct(resources: Seq<(String, RestResource)>)
    requires
        well_named(resources),
    ensures
        forall|i: int, j: int|
            0 <= i < j < resource_paths(resources, Seq::empty()).len() ==> #[trigger] resource_paths(
                resources,
                Seq::empty(),
            )[i] != #[trigger] resource_paths(resources, Seq::empty())[j],
{
    lemma_paths_distinct(resources, Seq::empty());
}

} // verus!
