//! Small helpers shared by the renderers and the command line.
use vstd::prelude::*;

use crate::text::{chars_of, contains_seq, find_from_exec, join, join_strings, owned, views};

verus! {

/// A crate name passes an optional substring filter.
pub open spec fn crate_match(name: Seq<char>, filter: Option<Seq<char>>) -> bool {
    match filter {
        Some(f) => contains_seq(name, f),
        None => true,
    }
}

/// The view of an optional string slice.
pub open spec fn opt_view(o: Option<&str>) -> Option<Seq<char>> {
    match o {
        Some(s) => Some(s@),
        None => None,
    }
}

/// Returns true when a crate name matches an optional substring filter.
pub fn crate_matches(name: &str, filter: Option<&str>) -> (r: bool)
    ensures
        r == crate_match(name@, opt_view(filter)),
{
    match filter {
        Some(f) => {
            let n = chars_of(name);
            let p = chars_of(f);
            find_from_exec(&n, &p, 0).is_some()
        },
        None => true,
    }
}

/// The text shown for a path through the dependency graph.
pub open spec fn path_text(path: Seq<Seq<char>>) -> Seq<char> {
    if path.len() == 0 {
        "<unknown>"@
    } else {
        join(path, " → "@)
    }
}

/// Formats a path through the dependency graph for display.
pub fn format_path(path: &[String]) -> (r: String)
    ensures
        r@ == path_text(views(path@)),
{
    if path.len() == 0 {
        owned("<unknown>")
    } else {
        let mut parts: Vec<String> = Vec::new();
        let mut i: usize = 0;
        while i < path.len()
            invariant
                i <= path.len(),
                parts@ == path@.take(i as int),
            decreases path.len() - i,
        {
            parts.push(path[i].clone());
            assert(parts@ =~= path@.take(i + 1));
            i = i + 1;
        }
        assert(parts@ =~= path@);
        join_strings(&parts, " → ")
    }
}

} // verus!
