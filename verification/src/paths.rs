//! Path-traversal protection. Every byte written during an install lands
//! under the profile directory: a relative path is accepted only when it has
//! no parent-directory component, is not absolute, and ends in a real name;
//! anything else is silently skipped, never an escape.
use vstd::prelude::*;
use vstd::string::StrSliceExecFns;
use crate::strutil::has_prefix;

verus! {

/// A `..` component starts at position `i` of the slash-separated path.
pub open spec fn parent_component_at(s: Seq<char>, i: int) -> bool {
    &&& 0 <= i
    &&& i + 2 <= s.len()
    &&& s[i] == '.'
    &&& s[i + 1] == '.'
    &&& (i == 0 || s[i - 1] == '/')
    &&& (i + 2 == s.len() || s[i + 2] == '/')
}

/// The path holds a parent-directory component somewhere.
pub open spec fn has_parent_component(s: Seq<char>) -> bool {
    exists|i: int| parent_component_at(s, i)
}

/// A path the installer will write under the profile directory: non-empty,
/// relative, ending in a real final segment, with no `..` component.
pub open spec fn spec_safe_relative_path(s: Seq<char>) -> bool {
    &&& s.len() > 0
    &&& s[0] != '/'
    &&& s[s.len() - 1] != '/'
    &&& !(s[s.len() - 1] == '.' && (s.len() == 1 || s[s.len() - 2] == '/'))
    &&& !has_parent_component(s)
}

/// Decides `spec_safe_relative_path` for a slash-separated relative path.
pub fn safe_relative_path(path: &str) -> (r: bool)
    ensures
        r == spec_safe_relative_path(path@),
{
    let n = path.unicode_len();
    if n == 0 {
        return false;
    }
    if path.get_char(0) == '/' {
        return false;
    }
    let last = path.get_char(n - 1);
    if last == '/' {
        return false;
    }
    if last == '.' && (n == 1 || path.get_char(n - 2) == '/') {
        return false;
    }
    let mut i: usize = 0;
    while i < n
        invariant
            n == path@.len(),
            i <= n,
            forall|k: int| 0 <= k < i ==> !parent_component_at(path@, k),
        decreases n - i,
    {
        if path.get_char(i) == '.' && n - i >= 2 && path.get_char(i + 1) == '.' && (i == 0
            || path.get_char(i - 1) == '/') && (n - i == 2 || path.get_char(i + 2) == '/') {
            proof {
                assert(parent_component_at(path@, i as int));
            }
            return false;
        }
        i += 1;
    }
    proof {
        assert forall|k: int| !parent_component_at(path@, k) by {
            if 0 <= k < n {
                assert(!parent_component_at(path@, k));
            }
        }
    }
    true
}

/// Index of the first slash, or the length when there is none.
pub open spec fn first_slash_idx(s: Seq<char>) -> nat
    decreases s.len(),
{
    if s.len() == 0 {
        0
    } else if s[0] == '/' {
        0
    } else {
        1 + first_slash_idx(s.drop_first())
    }
}

/// The slash-separated components of a path.
pub open spec fn components(s: Seq<char>) -> Seq<Seq<char>>
    decreases s.len(),
{
    if s.len() == 0 {
        seq![]
    } else {
        let i = first_slash_idx(s) as int;
        if i >= s.len() {
            seq![s]
        } else {
            seq![s.take(i)] + components(s.skip(i + 1))
        }
    }
}

/// What a filesystem makes of the components relative to a base directory:
/// `.` and empty segments change nothing, `..` pops — `None` when it would
/// pop past the base, an escape.
pub open spec fn resolve_onto(base: Seq<Seq<char>>, comps: Seq<Seq<char>>) -> Option<
    Seq<Seq<char>>,
>
    decreases comps.len(),
{
    if comps.len() == 0 {
        Some(base)
    } else if comps[0] == ".."@ {
        if base.len() == 0 {
            None
        } else {
            resolve_onto(base.drop_last(), comps.drop_first())
        }
    } else if comps[0] == "."@ || comps[0] == Seq::<char>::empty() {
        resolve_onto(base, comps.drop_first())
    } else {
        resolve_onto(base.push(comps[0]), comps.drop_first())
    }
}

proof fn lemma_first_slash_idx(s: Seq<char>)
    ensures
        0 <= first_slash_idx(s) <= s.len(),
        forall|k: int| 0 <= k < first_slash_idx(s) ==> s[k] != '/',
        first_slash_idx(s) < s.len() ==> s[first_slash_idx(s) as int] == '/',
    decreases s.len(),
{
    if s.len() > 0 && s[0] != '/' {
        lemma_first_slash_idx(s.drop_first());
        assert forall|k: int| 0 <= k < first_slash_idx(s) implies s[k] != '/' by {
            if k > 0 {
                assert(s.drop_first()[k - 1] != '/');
            }
        }
    }
}

/// A path without parent components splits into components none of which
/// is `..`.
proof fn lemma_components_no_parent(s: Seq<char>)
    requires
        !has_parent_component(s),
    ensures
        forall|k: int| 0 <= k < components(s).len() ==> components(s)[k] != ".."@,
    decreases s.len(),
{
    reveal_strlit("..");
    if s.len() == 0 {
    } else {
        let i = first_slash_idx(s) as int;
        lemma_first_slash_idx(s);
        let head = if i >= s.len() {
            s
        } else {
            s.take(i)
        };
        if head == ".."@ {
            assert(".."@.len() == 2);
            assert(".."@[0] == '.');
            assert(".."@[1] == '.');
            assert(head.len() == 2);
            assert(head[0] == s[0] && head[1] == s[1]);
            assert(parent_component_at(s, 0));
        }
        if i < s.len() {
            let rest = s.skip(i + 1);
            assert forall|j: int| !parent_component_at(rest, j) by {
                if parent_component_at(rest, j) {
                    assert(s[i] == '/');
                    assert(parent_component_at(s, j + i + 1));
                }
            }
            lemma_components_no_parent(rest);
            assert forall|k: int| 0 <= k < components(s).len() implies components(s)[k]
                != ".."@ by {
                if k > 0 {
                    assert(components(s)[k] == components(rest)[k - 1]);
                }
            }
        }
    }
}

proof fn lemma_resolve_no_parent(base: Seq<Seq<char>>, comps: Seq<Seq<char>>)
    requires
        forall|k: int| 0 <= k < comps.len() ==> comps[k] != ".."@,
    ensures
        resolve_onto(base, comps) matches Some(t) && t.len() >= base.len() && t.take(
            base.len() as int,
        ) == base,
    decreases comps.len(),
{
    if comps.len() == 0 {
        assert(base.take(base.len() as int) =~= base);
    } else {
        assert(comps[0] != ".."@);
        assert forall|k: int| 0 <= k < comps.drop_first().len() implies comps.drop_first()[k]
            != ".."@ by {
            assert(comps.drop_first()[k] == comps[k + 1]);
        }
        if comps[0] == "."@ || comps[0] == Seq::<char>::empty() {
            lemma_resolve_no_parent(base, comps.drop_first());
        } else {
            let base2 = base.push(comps[0]);
            lemma_resolve_no_parent(base2, comps.drop_first());
            let t = resolve_onto(base2, comps.drop_first())->0;
            assert(t.take(base.len() as int) =~= t.take(base2.len() as int).take(
                base.len() as int,
            ));
            assert(base2.take(base.len() as int) =~= base);
        }
    }
}

/// Law: a path accepted by `safe_relative_path` resolves to a location at or
/// below the base directory — the resulting file tree is a subset of the
/// target directory, whatever the base.
pub proof fn lemma_safe_path_stays_under_base(base: Seq<Seq<char>>, s: Seq<char>)
    requires
        spec_safe_relative_path(s),
    ensures
        resolve_onto(base, components(s)) matches Some(t) && t.len() >= base.len() && t.take(
            base.len() as int,
        ) == base,
{
    lemma_components_no_parent(s);
    lemma_resolve_no_parent(base, components(s));
}

/// Prefix that marks an archive entry as a bundled override payload.
pub open spec fn override_prefixes() -> Seq<Seq<char>> {
    seq!["overrides/"@, "client_overrides/"@]
}

/// An archive entry that carries override payload: named under one of the
/// override prefixes and not a directory marker.
pub open spec fn spec_is_override_entry(name: Seq<char>) -> bool {
    &&& (name.len() >= "overrides/"@.len() && name.take("overrides/"@.len() as int)
        == "overrides/"@) || (name.len() >= "client_overrides/"@.len() && name.take(
        "client_overrides/"@.len() as int,
    ) == "client_overrides/"@)
    &&& name[name.len() - 1] != '/'
}

/// Where an override entry lands below the profile directory: the entry name
/// with its first segment (the override prefix) stripped — provided what
/// remains is a safe relative path.
pub open spec fn spec_override_destination(name: Seq<char>) -> Option<Seq<char>> {
    if !spec_is_override_entry(name) {
        None
    } else {
        let rest = if name.take("overrides/"@.len() as int) == "overrides/"@ {
            name.skip("overrides/"@.len() as int)
        } else {
            name.skip("client_overrides/"@.len() as int)
        };
        if spec_safe_relative_path(rest) {
            Some(rest)
        } else {
            None
        }
    }
}

/// Whether this entry name counts toward the override phase.
pub fn is_override_entry(name: &str) -> (r: bool)
    ensures
        r == spec_is_override_entry(name@),
{
    let n = name.unicode_len();
    let prefixed = has_prefix(name, "overrides/") || has_prefix(name, "client_overrides/");
    if !prefixed {
        return false;
    }
    proof {
        reveal_strlit("overrides/");
        reveal_strlit("client_overrides/");
    }
    name.get_char(n - 1) != '/'
}

/// The destination of an override entry, when it has one.
pub fn override_destination(name: &str) -> (r: Option<String>)
    ensures
        r matches Some(d) ==> spec_override_destination(name@) == Some(d@),
        r is None ==> spec_override_destination(name@) is None,
{
    if !is_override_entry(name) {
        return None;
    }
    proof {
        reveal_strlit("overrides/");
        reveal_strlit("client_overrides/");
    }
    let n = name.unicode_len();
    let rest: &str = if has_prefix(name, "overrides/") {
        name.substring_char(10, n)
    } else {
        name.substring_char(17, n)
    };
    if safe_relative_path(rest) {
        Some(rest.to_owned())
    } else {
        None
    }
}

/// The override extraction plan for a list of archive entry names: each
/// payload entry's index with its destination, in archive order. Entries
/// without a destination (directory markers, foreign names, unsafe paths)
/// extract nothing.
pub open spec fn spec_override_jobs(names: Seq<String>) -> Seq<(int, Seq<char>)>
    decreases names.len(),
{
    if names.len() == 0 {
        seq![]
    } else {
        spec_override_jobs(names.drop_last()) + (match spec_override_destination(
            names.last()@,
        ) {
            Some(d) => seq![(names.len() - 1, d)],
            None => seq![],
        })
    }
}

/// Plan the override phase over the archive's entry names.
pub fn override_jobs(names: &Vec<String>) -> (r: Vec<(usize, String)>)
    ensures
        r@.len() == spec_override_jobs(names@).len(),
        forall|i: int|
            0 <= i < r@.len() ==> (#[trigger] r@[i]).0 as int == spec_override_jobs(names@)[i].0
                && r@[i].1@ == spec_override_jobs(names@)[i].1,
{
    let n = names.len();
    let mut out: Vec<(usize, String)> = Vec::new();
    proof {
        assert(names@.take(0) =~= Seq::<String>::empty());
    }
    let mut i: usize = 0;
    while i < n
        invariant
            n == names@.len(),
            i <= n,
            out@.len() == spec_override_jobs(names@.take(i as int)).len(),
            forall|j: int|
                0 <= j < out@.len() ==> (#[trigger] out@[j]).0 as int == spec_override_jobs(
                    names@.take(i as int),
                )[j].0 && out@[j].1@ == spec_override_jobs(names@.take(i as int))[j].1,
        decreases n - i,
    {
        proof {
            assert(names@.take(i + 1).drop_last() =~= names@.take(i as int));
            assert(names@.take(i + 1).last() == names@[i as int]);
        }
        match override_destination(names[i].as_str()) {
            Some(dest) => {
                out.push((i, dest));
            }
            None => {}
        }
        i += 1;
    }
    proof {
        assert(names@.take(n as int) =~= names@);
    }
    out
}

} // verus!
