//! Analysis of a crate from the registry: the checks on the requested name
//! and version, and the re-rooting of the probe project's metadata at the
//! requested crate.
use vstd::prelude::*;

use crate::collections::{str_eq, StrSet};
use crate::error::Error;
use crate::metadata::{Metadata, Package, ResolveNode};
use crate::resolver::{find_resolve, first_resolve_from, walk_deps};
use crate::text::{
    chars_of, concat_all, decimal, decimal_string, is_ascii_alnum, is_ascii_alnum_exec,
    is_ascii_digit, owned, push_str, views,
};

verus! {

/// The longest crate name, in bytes, that remote analysis accepts.
pub const MAX_REMOTE_CRATE_NAME_LEN: usize = 64;

/// The longest version requirement, in bytes, that remote analysis accepts.
pub const MAX_REMOTE_CRATE_VERSION_LEN: usize = 128;

/// What `{:?}` prints for a string slice.
pub uninterp spec fn str_debug(s: Seq<char>) -> Seq<char>;

/// `format!("{s:?}")`: the `Debug` text of a string slice, which std's
/// `impl Debug for str` writes as the text in double quotes with its
/// special characters escaped. Only that it depends on `s` alone is stated.
#[verifier::external_body]
fn debug_text(s: &str) -> (r: String)
    ensures
        r@ == str_debug(s@),
{
    format!("{s:?}")
}

/// `str::len`: the number of bytes of a text in UTF-8, as a `usize`.
pub open spec fn utf8_len(s: Seq<char>) -> usize {
    vstd::utf8::encode_utf8(s).len() as usize
}

/// A character allowed in a remote crate name.
pub open spec fn crate_name_char(c: char) -> bool {
    is_ascii_alnum(c) || c == '-' || c == '_'
}

/// Why a remote crate name is refused, if it is.
pub open spec fn crate_name_error(name: Seq<char>) -> Option<Seq<char>> {
    if name.len() == 0 {
        Some("invalid --crate value: crate name cannot be empty"@)
    } else if utf8_len(name) > MAX_REMOTE_CRATE_NAME_LEN {
        Some(
            "invalid --crate value "@ + str_debug(name) + ": crate name is longer than "@ + decimal(
                MAX_REMOTE_CRATE_NAME_LEN as nat,
            ) + " bytes"@,
        )
    } else if exists|i: int| 0 <= i < name.len() && !crate_name_char(#[trigger] name[i]) {
        Some(
            "invalid --crate value "@ + str_debug(name)
                + ": use only ASCII letters, numbers, hyphens, or underscores"@,
        )
    } else {
        None
    }
}

/// A character allowed in a remote version requirement.
pub open spec fn version_char(c: char) -> bool {
    is_ascii_alnum(c) || c == '.' || c == '-' || c == '+' || c == '*' || c == '^' || c == '~' || c
        == '<' || c == '>' || c == '=' || c == ',' || c == ' '
}

/// Why a remote version requirement is refused, if it is.
pub open spec fn crate_version_error(v: Seq<char>) -> Option<Seq<char>> {
    if v.len() == 0 {
        Some("invalid --crate-version value: version requirement cannot be empty"@)
    } else if utf8_len(v) > MAX_REMOTE_CRATE_VERSION_LEN {
        Some(
            "invalid --crate-version value "@ + str_debug(v)
                + ": version requirement is longer than "@ + decimal(
                MAX_REMOTE_CRATE_VERSION_LEN as nat,
            ) + " bytes"@,
        )
    } else if !(exists|i: int| 0 <= i < v.len() && (is_ascii_digit(#[trigger] v[i]) || v[i] == '*')) {
        Some(
            "invalid --crate-version value "@ + str_debug(v)
                + ": version requirement must include a digit or `*`"@,
        )
    } else if exists|i: int| 0 <= i < v.len() && !version_char(#[trigger] v[i]) {
        Some(
            "invalid --crate-version value "@ + str_debug(v)
                + ": use only Cargo version requirement characters"@,
        )
    } else {
        None
    }
}

/// The error of a refused value, or success.
pub open spec fn refused_as_cli(r: Result<(), Error>, error: Option<Seq<char>>) -> bool {
    match error {
        None => r is Ok,
        Some(m) => r matches Err(Error::Cli(s)) && s@ == m,
    }
}

/// The position of the first character of `v` that fails `crate_name_char`.
fn first_bad_name_char(v: &Vec<char>) -> (r: Option<usize>)
    ensures
        r is None <==> forall|i: int| 0 <= i < v.len() ==> crate_name_char(#[trigger] v@[i]),
        r matches Some(i) ==> i < v.len() && !crate_name_char(v@[i as int]),
{
    let mut i: usize = 0;
    while i < v.len()
        invariant
            i <= v.len(),
            forall|k: int| 0 <= k < i ==> crate_name_char(#[trigger] v@[k]),
        decreases v.len() - i,
    {
        let c = v[i];
        if !(is_ascii_alnum_exec(c) || c == '-' || c == '_') {
            return Some(i);
        }
        i = i + 1;
    }
    None
}

/// Checks a crate name given for remote analysis.
pub fn validate_remote_crate_name(crate_name: &str) -> (r: Result<(), Error>)
    ensures
        refused_as_cli(r, crate_name_error(crate_name@)),
{
    if crate_name.is_empty() {
        return Err(Error::Cli(owned("invalid --crate value: crate name cannot be empty")));
    }
    if crate_name.len() > MAX_REMOTE_CRATE_NAME_LEN {
        let mut m = owned("invalid --crate value ");
        push_str(&mut m, debug_text(crate_name).as_str());
        push_str(&mut m, ": crate name is longer than ");
        push_str(&mut m, decimal_string(MAX_REMOTE_CRATE_NAME_LEN).as_str());
        push_str(&mut m, " bytes");
        return Err(Error::Cli(m));
    }
    let v = chars_of(crate_name);
    match first_bad_name_char(&v) {
        Some(i) => {
            assert(!crate_name_char(crate_name@[i as int]));
            let mut m = owned("invalid --crate value ");
            push_str(&mut m, debug_text(crate_name).as_str());
            push_str(&mut m, ": use only ASCII letters, numbers, hyphens, or underscores");
            Err(Error::Cli(m))
        },
        None => {
            assert forall|i: int| 0 <= i < crate_name@.len() implies crate_name_char(
                #[trigger] crate_name@[i],
            ) by {
                assert(crate_name_char(v@[i]));
            }
            Ok(())
        },
    }
}

/// Whether a character may stand in a remote version requirement.
pub fn is_remote_version_char(ch: char) -> (r: bool)
    ensures
        r == version_char(ch),
{
    is_ascii_alnum_exec(ch) || ch == '.' || ch == '-' || ch == '+' || ch == '*' || ch == '^' || ch
        == '~' || ch == '<' || ch == '>' || ch == '=' || ch == ',' || ch == ' '
}

/// Checks a version requirement given for remote analysis.
pub fn validate_remote_crate_version(crate_version: &str) -> (r: Result<(), Error>)
    ensures
        refused_as_cli(r, crate_version_error(crate_version@)),
{
    if crate_version.is_empty() {
        return Err(
            Error::Cli(owned("invalid --crate-version value: version requirement cannot be empty")),
        );
    }
    if crate_version.len() > MAX_REMOTE_CRATE_VERSION_LEN {
        let mut m = owned("invalid --crate-version value ");
        push_str(&mut m, debug_text(crate_version).as_str());
        push_str(&mut m, ": version requirement is longer than ");
        push_str(&mut m, decimal_string(MAX_REMOTE_CRATE_VERSION_LEN).as_str());
        push_str(&mut m, " bytes");
        return Err(Error::Cli(m));
    }
    let v = chars_of(crate_version);
    let mut has_digit = false;
    let mut i: usize = 0;
    while i < v.len()
        invariant
            i <= v.len(),
            v@ == crate_version@,
            has_digit <==> exists|k: int| 0 <= k < i && (is_ascii_digit(#[trigger] v@[k]) || v@[k] == '*'),
        decreases v.len() - i,
    {
        if ('0' <= v[i] && v[i] <= '9') || v[i] == '*' {
            has_digit = true;
        }
        i = i + 1;
    }
    if !has_digit {
        assert forall|k: int| 0 <= k < crate_version@.len() implies !(is_ascii_digit(
            #[trigger] crate_version@[k],
        ) || crate_version@[k] == '*') by {
            if is_ascii_digit(v@[k]) || v@[k] == '*' {
                assert(exists|k2: int| 0 <= k2 < i && (is_ascii_digit(#[trigger] v@[k2]) || v@[k2] == '*'));
            }
        }
        let mut m = owned("invalid --crate-version value ");
        push_str(&mut m, debug_text(crate_version).as_str());
        push_str(&mut m, ": version requirement must include a digit or `*`");
        return Err(Error::Cli(m));
    }
    assert(exists|k: int| 0 <= k < crate_version@.len() && (is_ascii_digit(#[trigger] crate_version@[k]) || crate_version@[k] == '*'));
    let mut j: usize = 0;
    while j < v.len()
        invariant
            j <= v.len(),
            v@ == crate_version@,
            forall|k: int| 0 <= k < j ==> version_char(#[trigger] v@[k]),
            utf8_len(crate_version@) <= MAX_REMOTE_CRATE_VERSION_LEN,
            crate_version@.len() > 0,
            exists|k: int| 0 <= k < crate_version@.len() && (is_ascii_digit(#[trigger] crate_version@[k]) || crate_version@[k] == '*'),
        decreases v.len() - j,
    {
        if !is_remote_version_char(v[j]) {
            assert(!version_char(crate_version@[j as int]));
            let mut m = owned("invalid --crate-version value ");
            push_str(&mut m, debug_text(crate_version).as_str());
            push_str(&mut m, ": use only Cargo version requirement characters");
            return Err(Error::Cli(m));
        }
        j = j + 1;
    }
    assert forall|k: int| 0 <= k < crate_version@.len() implies version_char(#[trigger] crate_version@[k]) by {
        assert(version_char(v@[k]));
    }
    Ok(())
}

/// A walk through the resolve graph: each step goes to a dependency of the
/// first resolve node of the package before it.
pub open spec fn is_walk(rns: Seq<ResolveNode>, path: Seq<Seq<char>>) -> bool {
    &&& path.len() >= 1
    &&& forall|i: int| 0 <= i < path.len() - 1 ==> walk_deps(rns, #[trigger] path[i]).contains(path[i + 1])
}

/// `to` can be reached from `from` through the resolve graph.
pub open spec fn reaches(rns: Seq<ResolveNode>, from: Seq<char>, to: Seq<char>) -> bool {
    exists|path: Seq<Seq<char>>| #[trigger] is_walk(rns, path) && path[0] == from && path.last() == to
}

/// The first dependency in `deps`, from position `i` on, that is the ID of a
/// package named `name`.
pub open spec fn target_from(deps: Seq<Seq<char>>, pkgs: Seq<Package>, name: Seq<char>, i: int) -> Option<
    Seq<char>,
>
    decreases deps.len() - i,
{
    if i < 0 || i >= deps.len() {
        None
    } else if exists|p: int| 0 <= p < pkgs.len() && #[trigger] pkgs[p].id@ == deps[i] && pkgs[p].name@
        == name {
        Some(deps[i])
    } else {
        target_from(deps, pkgs, name, i + 1)
    }
}

/// The package that remote analysis re-roots at, or why there is none.
pub open spec fn remote_target(md: Metadata, name: Seq<char>) -> Result<Seq<char>, Seq<char>> {
    if md.workspace_members@.len() == 0 {
        Err("remote metadata did not include the probe workspace member"@)
    } else {
        match first_resolve_from(md.resolve_nodes@, md.workspace_members@[0]@, 0) {
            None => Err("remote metadata did not include the probe resolve node"@),
            Some(i) => match target_from(
                views(md.resolve_nodes@[i].dependencies@),
                md.packages@,
                name,
                0,
            ) {
                None => Err("crate `"@ + name + "` was not resolved from crates.io"@),
                Some(t) => Ok(t),
            },
        }
    }
}

/// The first resolve node with an ID, from position `i` on.
proof fn lemma_first_resolve(rns: Seq<ResolveNode>, id: Seq<char>, i: int)
    requires
        0 <= i,
    ensures
        first_resolve_from(rns, id, i) matches Some(k) ==> i <= k < rns.len() && rns[k].id@ == id,
        first_resolve_from(rns, id, i) is None ==> forall|j: int| i <= j < rns.len() ==> rns[j].id@ != id,
    decreases rns.len() - i,
{
    if i < rns.len() && rns[i].id@ != id {
        lemma_first_resolve(rns, id, i + 1);
    }
}

/// A walk extended by one step is a walk.
proof fn lemma_reaches_step(rns: Seq<ResolveNode>, from: Seq<char>, x: Seq<char>, y: Seq<char>)
    requires
        reaches(rns, from, x),
        walk_deps(rns, x).contains(y),
    ensures
        reaches(rns, from, y),
{
    let path = choose|path: Seq<Seq<char>>| #[trigger] is_walk(rns, path) && path[0] == from && path.last() == x;
    let p2 = path.push(y);
    assert forall|i: int| 0 <= i < p2.len() - 1 implies walk_deps(rns, #[trigger] p2[i]).contains(p2[i + 1]) by {
        if i < path.len() - 1 {
            assert(p2[i] == path[i]);
            assert(p2[i + 1] == path[i + 1]);
        }
    }
    assert(is_walk(rns, p2));
}

/// A set closed under the walk's steps holds everything a walk from one of
/// its members reaches.
proof fn lemma_closed_holds_walk(rns: Seq<ResolveNode>, s: Set<Seq<char>>, path: Seq<Seq<char>>)
    requires
        is_walk(rns, path),
        s.contains(path[0]),
        forall|x: Seq<char>, y: Seq<char>| #![trigger s.contains(x), walk_deps(rns, x).contains(y)]
            s.contains(x) && walk_deps(rns, x).contains(y) ==> s.contains(y),
    ensures
        s.contains(path.last()),
    decreases path.len(),
{
    if path.len() > 1 {
        let init = path.drop_last();
        assert forall|i: int| 0 <= i < init.len() - 1 implies walk_deps(rns, #[trigger] init[i]).contains(init[i + 1]) by {
            assert(init[i] == path[i]);
            assert(init[i + 1] == path[i + 1]);
        }
        lemma_closed_holds_walk(rns, s, init);
        assert(walk_deps(rns, path[path.len() - 2]).contains(path[path.len() - 1]));
    }
}

/// Every dependency a walk can take from a package is in `all_deps`.
pub open spec fn all_deps(rns: Seq<ResolveNode>) -> Seq<Seq<char>> {
    concat_all(rns.map_values(|n: ResolveNode| views(n.dependencies@)))
}

proof fn lemma_concat_contains(s: Seq<Seq<Seq<char>>>, i: int, x: Seq<char>)
    requires
        0 <= i < s.len(),
        s[i].contains(x),
    ensures
        concat_all(s).contains(x),
    decreases s.len(),
{
    if i == s.len() - 1 {
        let j = choose|j: int| 0 <= j < s[i].len() && s[i][j] == x;
        assert((concat_all(s.drop_last()) + s.last())[concat_all(s.drop_last()).len() + j] == x);
    } else {
        lemma_concat_contains(s.drop_last(), i, x);
        let j = choose|j: int| 0 <= j < concat_all(s.drop_last()).len() && concat_all(s.drop_last())[j] == x;
        assert((concat_all(s.drop_last()) + s.last())[j] == x);
    }
}

proof fn lemma_walk_deps_in_all(rns: Seq<ResolveNode>, x: Seq<char>, y: Seq<char>)
    requires
        walk_deps(rns, x).contains(y),
    ensures
        all_deps(rns).contains(y),
{
    let i = first_resolve_from(rns, x, 0).unwrap();
    lemma_first_resolve(rns, x, 0);
    let m = rns.map_values(|n: ResolveNode| views(n.dependencies@));
    assert(m[i] == walk_deps(rns, x));
    lemma_concat_contains(m, i, y);
}

/// The first dependency of `deps` that is the ID of a package named `name`.
fn find_target(deps: &Vec<String>, pkgs: &Vec<Package>, name: &str) -> (r: Option<String>)
    ensures
        match r {
            Some(t) => target_from(views(deps@), pkgs@, name@, 0) == Some(t@),
            None => target_from(views(deps@), pkgs@, name@, 0) is None,
        },
{
    let ghost ds = views(deps@);
    let mut i: usize = 0;
    while i < deps.len()
        invariant
            i <= deps.len(),
            ds == views(deps@),
            target_from(ds, pkgs@, name@, i as int) == target_from(ds, pkgs@, name@, 0),
        decreases deps.len() - i,
    {
        let mut p: usize = 0;
        let mut found = false;
        while p < pkgs.len()
            invariant
                i < deps.len(),
                p <= pkgs.len(),
                ds == views(deps@),
                found <==> exists|q: int| 0 <= q < p && #[trigger] pkgs@[q].id@ == ds[i as int] && pkgs@[q].name@ == name@,
            decreases pkgs.len() - p,
        {
            if str_eq(pkgs[p].id.as_str(), deps[i].as_str()) && str_eq(pkgs[p].name.as_str(), name) {
                found = true;
            }
            p = p + 1;
        }
        if found {
            return Some(deps[i].clone());
        }
        i = i + 1;
    }
    None
}

/// The packages that a walk from `target` reaches.
fn reachable_from(rns: &Vec<ResolveNode>, target: &String) -> (r: StrSet)
    ensures
        forall|x: Seq<char>| #[trigger] r@.to_set().contains(x) <==> reaches(rns@, target@, x),
{
    broadcast use vstd::seq_lib::seq_to_set_is_finite;

    let ghost t = target@;
    let ghost universe = (seq![t] + all_deps(rns@)).to_set();
    let mut reachable = StrSet::new();
    let mut pending: Vec<String> = Vec::new();
    pending.push(target.clone());
    proof {
        let path = seq![t];
        assert(is_walk(rns@, path));
        assert(reaches(rns@, t, t));
        assert((seq![t] + all_deps(rns@))[0] == t);
        assert(reachable@.to_set() =~= Set::<Seq<char>>::empty());
        assert(views(pending@)[0] == t);
    }
    while pending.len() > 0
        invariant
            t == target@,
            universe == (seq![t] + all_deps(rns@)).to_set(),
            universe.finite(),
            forall|x: Seq<char>| #[trigger] reachable@.to_set().contains(x) ==> reaches(rns@, t, x) && universe.contains(x),
            forall|k: int| 0 <= k < pending@.len() ==> reaches(rns@, t, #[trigger] pending@[k]@) && universe.contains(pending@[k]@),
            reachable@.to_set().contains(t) || views(pending@).contains(t),
            forall|x: Seq<char>, y: Seq<char>| #![trigger reachable@.to_set().contains(x), walk_deps(rns@, x).contains(y)]
                reachable@.to_set().contains(x) && walk_deps(rns@, x).contains(y) ==> reachable@.to_set().contains(y)
                    || views(pending@).contains(y),
            reachable@.to_set().len() <= universe.len(),
        decreases universe.len() - reachable@.to_set().len(), pending.len(),
    {
        let ghost old_set = reachable@.to_set();
        let ghost old_pending = views(pending@);
        let package_id = pending.pop().unwrap();
        let ghost p = package_id@;
        proof {
            assert(old_pending == views(pending@).push(p));
            assert(reaches(rns@, t, p) && universe.contains(p)) by {
                assert(old_pending[old_pending.len() - 1] == p);
            }
        }
        let fresh = reachable.insert(package_id.clone());
        proof {
            assert(reachable@.to_set() == old_set.insert(p));
            assert forall|y: Seq<char>| old_pending.contains(y) implies reachable@.to_set().contains(y) || views(pending@).contains(y) by {
                let k = choose|k: int| 0 <= k < old_pending.len() && old_pending[k] == y;
                if k < old_pending.len() - 1 {
                    assert(views(pending@)[k] == y);
                }
            }
        }
        if !fresh {
            proof {
                assert(old_set.insert(p) =~= old_set);
            }
            continue;
        }
        proof {
            assert(reachable@.to_set().subset_of(universe));
            vstd::set_lib::lemma_len_subset(reachable@.to_set(), universe);
        }
        match find_resolve(rns, package_id.as_str()) {
            Some(i) => {
                let deps = &rns[i].dependencies;
                let ghost start = views(pending@);
                proof {
                    assert(walk_deps(rns@, p) == views(deps@));
                }
                let mut j: usize = 0;
                while j < deps.len()
                    invariant
                        j <= deps.len(),
                        walk_deps(rns@, p) == views(deps@),
                        reaches(rns@, t, p),
                        universe == (seq![t] + all_deps(rns@)).to_set(),
                        views(pending@) == start + views(deps@).take(j as int),
                        forall|k: int| 0 <= k < pending@.len() ==> reaches(rns@, t, #[trigger] pending@[k]@) && universe.contains(pending@[k]@),
                    decreases deps.len() - j,
                {
                    let ghost y = deps@[j as int]@;
                    proof {
                        assert(walk_deps(rns@, p)[j as int] == y);
                        lemma_reaches_step(rns@, t, p, y);
                        lemma_walk_deps_in_all(rns@, p, y);
                        let all = seq![t] + all_deps(rns@);
                        let m = choose|m: int| 0 <= m < all_deps(rns@).len() && all_deps(rns@)[m] == y;
                        assert(all[m + 1] == y);
                    }
                    let ghost before = views(pending@);
                    let item = deps[j].clone();
                    assert(item@ == y);
                    pending.push(item);
                    assert(views(pending@) =~= before.push(y));
                    assert(views(deps@).take(j + 1) =~= views(deps@).take(j as int).push(y));
                    assert(views(pending@) =~= start + views(deps@).take(j + 1));
                    j = j + 1;
                }
                proof {
                    assert(views(deps@).take(deps.len() as int) =~= views(deps@));
                    assert forall|x: Seq<char>, y: Seq<char>| #![trigger reachable@.to_set().contains(x), walk_deps(rns@, x).contains(y)]
                        reachable@.to_set().contains(x) && walk_deps(rns@, x).contains(y) implies reachable@.to_set().contains(y)
                            || views(pending@).contains(y) by {
                        if x == p {
                            let k = choose|k: int| 0 <= k < views(deps@).len() && views(deps@)[k] == y;
                            assert(views(pending@)[start.len() + k] == y);
                        } else {
                            assert(old_set.contains(x));
                            if start.contains(y) {
                                let k = choose|k: int| 0 <= k < start.len() && start[k] == y;
                                assert(views(pending@)[k] == y);
                            }
                        }
                    }
                    if start.contains(t) {
                        let k = choose|k: int| 0 <= k < start.len() && start[k] == t;
                        assert(views(pending@)[k] == t);
                    }
                }
            },
            None => {
                proof {
                    assert(walk_deps(rns@, p) =~= Seq::<Seq<char>>::empty());
                }
            },
        }
    }
    proof {
        let r = reachable@.to_set();
        assert forall|x: Seq<char>| reaches(rns@, t, x) implies #[trigger] r.contains(x) by {
            let path = choose|path: Seq<Seq<char>>| #[trigger] is_walk(rns@, path) && path[0] == t && path.last() == x;
            lemma_closed_holds_walk(rns@, r, path);
        }
    }
    reachable
}

/// The packages whose ID is in `reachable`, in order.
fn keep_reachable_packages(packages: Vec<Package>, reachable: &StrSet) -> (r: Vec<Package>)
    ensures
        r@ == packages@.filter(|p: Package| reachable@.to_set().contains(p.id@)),
{
    let ghost all = packages@;
    let ghost keep = |p: Package| reachable@.to_set().contains(p.id@);
    let mut rest = packages;
    let mut kept: Vec<Package> = Vec::new();
    let ghost mut n: int = 0;
    assert(all.take(0).filter(keep) =~= Seq::<Package>::empty()) by {
        reveal(Seq::filter);
    }
    assert(rest@ =~= all.skip(0));
    while rest.len() > 0
        invariant
            0 <= n <= all.len(),
            rest@ == all.skip(n),
            keep == (|p: Package| reachable@.to_set().contains(p.id@)),
            kept@ == all.take(n).filter(keep),
        decreases rest.len(),
    {
        let p = rest.remove(0);
        proof {
            assert(p == all[n]);
            assert(all.take(n + 1) =~= all.take(n).push(all[n]));
            all.take(n).lemma_filter_push(all[n], keep);
            assert(reachable@.to_set().contains(p.id@) == reachable@.contains(p.id@));
        }
        if reachable.contains(p.id.as_str()) {
            kept.push(p);
        }
        proof {
            n = n + 1;
            assert(rest@ =~= all.skip(n));
        }
    }
    assert(all.take(n) =~= all);
    kept
}

/// The resolve nodes whose ID is in `reachable`, in order.
fn keep_reachable_nodes(nodes: Vec<ResolveNode>, reachable: &StrSet) -> (r: Vec<ResolveNode>)
    ensures
        r@ == nodes@.filter(|n: ResolveNode| reachable@.to_set().contains(n.id@)),
{
    let ghost all = nodes@;
    let ghost keep = |n: ResolveNode| reachable@.to_set().contains(n.id@);
    let mut rest = nodes;
    let mut kept: Vec<ResolveNode> = Vec::new();
    let ghost mut n: int = 0;
    assert(all.take(0).filter(keep) =~= Seq::<ResolveNode>::empty()) by {
        reveal(Seq::filter);
    }
    assert(rest@ =~= all.skip(0));
    while rest.len() > 0
        invariant
            0 <= n <= all.len(),
            rest@ == all.skip(n),
            keep == (|n: ResolveNode| reachable@.to_set().contains(n.id@)),
            kept@ == all.take(n).filter(keep),
        decreases rest.len(),
    {
        let node = rest.remove(0);
        proof {
            assert(node == all[n]);
            assert(all.take(n + 1) =~= all.take(n).push(all[n]));
            all.take(n).lemma_filter_push(all[n], keep);
            assert(reachable@.to_set().contains(node.id@) == reachable@.contains(node.id@));
        }
        if reachable.contains(node.id.as_str()) {
            kept.push(node);
        }
        proof {
            n = n + 1;
            assert(rest@ =~= all.skip(n));
        }
    }
    assert(all.take(n) =~= all);
    kept
}

/// What re-rooting gives for a target: the target as the only workspace
/// member, and the packages and resolve nodes that it reaches, in order.
pub open spec fn re_rooted_at(md: Metadata, t: Seq<char>, m: Metadata) -> bool {
    &&& views(m.workspace_members@) == seq![t]
    &&& m.packages@ == md.packages@.filter(|p: Package| reaches(md.resolve_nodes@, t, p.id@))
    &&& m.resolve_nodes@ == md.resolve_nodes@.filter(|n: ResolveNode| reaches(md.resolve_nodes@, t, n.id@))
}

/// Re-roots the probe project's metadata at the requested crate: the
/// crate becomes the only workspace member, and only the packages and
/// resolve nodes it reaches are kept.
pub fn re_root_remote_metadata(metadata: Metadata, crate_name: &str) -> (r: Result<Metadata, Error>)
    ensures
        match remote_target(metadata, crate_name@) {
            Err(m) => r matches Err(Error::Other(s)) && s@ == m,
            Ok(t) => r matches Ok(md) && re_rooted_at(metadata, t, md),
        },
{
    if metadata.workspace_members.len() == 0 {
        return Err(Error::Other(owned("remote metadata did not include the probe workspace member")));
    }
    let probe = match find_resolve(&metadata.resolve_nodes, metadata.workspace_members[0].as_str()) {
        Some(i) => i,
        None => {
            return Err(Error::Other(owned("remote metadata did not include the probe resolve node")));
        },
    };
    let target_id = match find_target(
        &metadata.resolve_nodes[probe].dependencies,
        &metadata.packages,
        crate_name,
    ) {
        Some(t) => t,
        None => {
            let mut m = owned("crate `");
            push_str(&mut m, crate_name);
            push_str(&mut m, "` was not resolved from crates.io");
            return Err(Error::Other(m));
        },
    };
    let reachable = reachable_from(&metadata.resolve_nodes, &target_id);
    let ghost md = metadata;
    let ghost t = target_id@;
    let Metadata { packages, workspace_members: _, resolve_nodes } = metadata;
    let packages = keep_reachable_packages(packages, &reachable);
    let resolve_nodes = keep_reachable_nodes(resolve_nodes, &reachable);
    let mut workspace_members: Vec<String> = Vec::new();
    workspace_members.push(target_id);
    proof {
        assert((|p: Package| reachable@.to_set().contains(p.id@)) =~= (|p: Package| reaches(md.resolve_nodes@, t, p.id@)));
        assert((|n: ResolveNode| reachable@.to_set().contains(n.id@)) =~= (|n: ResolveNode| reaches(md.resolve_nodes@, t, n.id@)));
        assert(views(workspace_members@) =~= seq![t]);
    }
    Ok(Metadata { packages, workspace_members, resolve_nodes })
}

/// The manifest of the probe project that depends on the requested crate.
pub open spec fn probe_manifest_text(crate_name: Seq<char>, crate_version: Seq<char>) -> Seq<char> {
    "[package]\nname = \"feature_lens_remote_probe\"\nversion = \"0.0.0\"\nedition = \"2021\"\npublish = false\n\n[dependencies]\n\""@
        + crate_name + "\" = \""@ + crate_version + "\"\n"@
}

/// The manifest of the probe project that depends on the requested crate.
pub fn probe_manifest(crate_name: &str, crate_version: &str) -> (r: String)
    ensures
        r@ == probe_manifest_text(crate_name@, crate_version@),
{
    let mut m = owned(
        "[package]\nname = \"feature_lens_remote_probe\"\nversion = \"0.0.0\"\nedition = \"2021\"\npublish = false\n\n[dependencies]\n\"",
    );
    push_str(&mut m, crate_name);
    push_str(&mut m, "\" = \"");
    push_str(&mut m, crate_version);
    push_str(&mut m, "\"\n");
    m
}

} // verus!
