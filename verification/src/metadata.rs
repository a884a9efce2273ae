//! The parts of `cargo metadata --format-version 1` output that the resolver
//! needs: packages, workspace members and resolve nodes.
use vstd::prelude::*;

use crate::collections::{
    entries_to_map, list_map_view, sorted_strict, text_map_view, StrMap, StrSet,
};
use crate::error::Error;
use crate::json_scan::{
    bracketed_at, bracketed_exec, char_views, json_string_at, json_string_exec, lemma_bracketed_end,
    lemma_json_string_end, object_items, object_items_exec, string_items, string_items_exec,
};
use crate::text::{
    chars_of, find_char_exec, find_char_from, find_from, find_from_exec, lemma_find_char_from,
    occurs_at, occurs_at_exec, skip_ws, skip_ws_exec, starts_with_at, string_of_all, sub_chars,
    views,
};

verus! {

#[derive(Debug)]
pub struct Metadata {
    pub packages: Vec<Package>,
    pub workspace_members: Vec<String>,
    pub resolve_nodes: Vec<ResolveNode>,
}

#[derive(Debug)]
pub struct Package {
    pub id: String,
    pub name: String,
    pub version: String,
    pub manifest_path: String,
    pub features: StrMap<Vec<String>>,
    pub optional_dependencies: StrSet,
    pub dependency_features: StrMap<Vec<String>>,
}

#[derive(Debug)]
pub struct ResolveNode {
    pub id: String,
    pub features: Vec<String>,
    pub dependencies: Vec<String>,
    pub dependency_names: StrMap<String>,
}

impl Default for Metadata {
    fn default() -> (r: Self)
        ensures
            r.packages@.len() == 0,
            r.workspace_members@.len() == 0,
            r.resolve_nodes@.len() == 0,
    {
        Metadata { packages: Vec::new(), workspace_members: Vec::new(), resolve_nodes: Vec::new() }
    }
}

impl Default for Package {
    fn default() -> (r: Self)
        ensures
            r.id@.len() == 0,
            r.name@.len() == 0,
            r.version@.len() == 0,
            r.manifest_path@.len() == 0,
            r.features.keys().len() == 0,
            r.optional_dependencies@.len() == 0,
            r.dependency_features.keys().len() == 0,
    {
        Package {
            id: String::new(),
            name: String::new(),
            version: String::new(),
            manifest_path: String::new(),
            features: StrMap::new(),
            optional_dependencies: StrSet::new(),
            dependency_features: StrMap::new(),
        }
    }
}

impl Default for ResolveNode {
    fn default() -> (r: Self)
        ensures
            r.id@.len() == 0,
            r.features@.len() == 0,
            r.dependencies@.len() == 0,
            r.dependency_names.keys().len() == 0,
    {
        ResolveNode {
            id: String::new(),
            features: Vec::new(),
            dependencies: Vec::new(),
            dependency_names: StrMap::new(),
        }
    }
}

/// `"key":`, the pattern by which metadata fields are found.
pub open spec fn key_pattern(key: Seq<char>) -> Seq<char> {
    seq!['"'] + key + seq!['"', ':']
}

/// The position right after the first `"key":`.
pub open spec fn key_start(s: Seq<char>, key: Seq<char>) -> Option<int> {
    match find_from(s, key_pattern(key), 0) {
        None => None,
        Some(i) => Some(i + key_pattern(key).len()),
    }
}

/// A string field; `null` counts as absent.
pub open spec fn string_field_of(s: Seq<char>, key: Seq<char>) -> Option<Seq<char>> {
    match key_start(s, key) {
        None => None,
        Some(p) => {
            let t = skip_ws(s, p);
            if occurs_at(s, "null"@, t) {
                None
            } else {
                match json_string_at(s, t) {
                    None => None,
                    Some((v, _)) => Some(v),
                }
            }
        },
    }
}

/// A string field, or the empty text.
pub open spec fn string_or_empty(s: Seq<char>, key: Seq<char>) -> Seq<char> {
    match string_field_of(s, key) {
        Some(v) => v,
        None => Seq::empty(),
    }
}

/// A boolean field: whether its value starts with `true`.
pub open spec fn bool_field_of(s: Seq<char>, key: Seq<char>) -> bool {
    match key_start(s, key) {
        None => false,
        Some(p) => occurs_at(s, "true"@, skip_ws(s, p)),
    }
}

/// The strings of an array field.
pub open spec fn string_array_of(s: Seq<char>, key: Seq<char>) -> Seq<Seq<char>> {
    match key_start(s, key) {
        None => Seq::empty(),
        Some(p) => match bracketed_at(s, p, '[', ']') {
            None => Seq::empty(),
            Some((a, _)) => string_items(a, 0),
        },
    }
}

/// An object field, with its braces.
pub open spec fn object_field_of(s: Seq<char>, key: Seq<char>) -> Option<Seq<char>> {
    match key_start(s, key) {
        None => None,
        Some(p) => match bracketed_at(s, p, '{', '}') {
            None => None,
            Some((v, _)) => Some(v),
        },
    }
}

/// The objects of an array field.
pub open spec fn objects_of(s: Seq<char>, key: Seq<char>) -> Seq<Seq<char>> {
    match key_start(s, key) {
        None => Seq::empty(),
        Some(p) => match bracketed_at(s, p, '[', ']') {
            None => Seq::empty(),
            Some((a, _)) => object_items(a, 0),
        },
    }
}

/// The text with every leading `c` removed.
pub open spec fn strip_leading(s: Seq<char>, c: char) -> Seq<char>
    decreases s.len(),
{
    if s.len() > 0 && s[0] == c {
        strip_leading(s.drop_first(), c)
    } else {
        s
    }
}

/// The text with every trailing `c` removed.
pub open spec fn strip_trailing(s: Seq<char>, c: char) -> Seq<char>
    decreases s.len(),
{
    if s.len() > 0 && s.last() == c {
        strip_trailing(s.drop_last(), c)
    } else {
        s
    }
}

/// The `"name": [...]` entries of an object body, from position `p` on.
pub open spec fn map_entries(r: Seq<char>, p: int) -> Seq<(Seq<char>, Seq<Seq<char>>)>
    decreases r.len() - p,
{
    match json_string_at(r, p) {
        None => Seq::empty(),
        Some((k, e)) => match find_char_from(r, ':', e) {
            None => Seq::empty(),
            Some(c) => match bracketed_at(r, c + 1, '[', ']') {
                None => Seq::empty(),
                Some((a, e2)) => if p < e2 <= r.len() {
                    seq![(k, string_items(a, 0))] + map_entries(r, e2)
                } else {
                    Seq::empty()
                },
            },
        },
    }
}

/// The position right after the first `pat` (a `"key":`) that stands in the
/// object itself: outside strings, and inside no array or object nested in
/// it. `depth` counts the groups open at `i`; a stray closing bracket at
/// depth 0 leaves it at 0.
pub open spec fn own_key_from(s: Seq<char>, pat: Seq<char>, i: int, depth: nat, in_string: bool, escaped: bool) -> Option<
    int,
>
    decreases s.len() - i,
{
    if i < 0 || i >= s.len() {
        None
    } else if in_string {
        if escaped {
            own_key_from(s, pat, i + 1, depth, true, false)
        } else if s[i] == '\\' {
            own_key_from(s, pat, i + 1, depth, true, true)
        } else if s[i] == '"' {
            own_key_from(s, pat, i + 1, depth, false, false)
        } else {
            own_key_from(s, pat, i + 1, depth, true, false)
        }
    } else if s[i] == '"' {
        if depth == 1 && occurs_at(s, pat, i) {
            Some(i + pat.len())
        } else {
            own_key_from(s, pat, i + 1, depth, true, false)
        }
    } else if s[i] == '{' || s[i] == '[' {
        own_key_from(s, pat, i + 1, depth + 1, false, false)
    } else if s[i] == '}' || s[i] == ']' {
        own_key_from(
            s,
            pat,
            i + 1,
            if depth == 0 {
                0
            } else {
                (depth - 1) as nat
            },
            false,
            false,
        )
    } else {
        own_key_from(s, pat, i + 1, depth, false, false)
    }
}

/// The position right after the object's own `"key":`, where `s` is the
/// object's text from its opening brace on; a key of the same name inside a
/// nested value (such as a dependency entry) is not the object's own.
pub open spec fn own_key_start(s: Seq<char>, key: Seq<char>) -> Option<int> {
    own_key_from(s, key_pattern(key), 0, 0, false, false)
}

/// The object's own object field, with its braces.
pub open spec fn own_object_field_of(s: Seq<char>, key: Seq<char>) -> Option<Seq<char>> {
    match own_key_start(s, key) {
        None => None,
        Some(p) => match bracketed_at(s, p, '{', '}') {
            None => None,
            Some((v, _)) => Some(v),
        },
    }
}

/// The object's own field whose values are string arrays, as a map.
pub open spec fn string_array_map_of(s: Seq<char>, key: Seq<char>) -> Map<Seq<char>, Seq<Seq<char>>> {
    match own_object_field_of(s, key) {
        None => Map::empty(),
        Some(raw) => entries_to_map(map_entries(strip_trailing(strip_leading(raw, '{'), '}'), 0)),
    }
}

/// The name under which a dependency is known: its `rename`, else its `name`.
pub open spec fn dependency_name(d: Seq<char>) -> Option<Seq<char>> {
    match string_field_of(d, "rename"@) {
        Some(n) => Some(n),
        None => string_field_of(d, "name"@),
    }
}

/// The named dependencies that request features, with those features.
pub open spec fn feature_requests(deps: Seq<Seq<char>>) -> Seq<(Seq<char>, Seq<Seq<char>>)> {
    deps.filter_map(
        |d: Seq<char>|
            match dependency_name(d) {
                Some(n) => if string_array_of(d, "features"@).len() > 0 {
                    Some((n, string_array_of(d, "features"@)))
                } else {
                    None
                },
                None => None,
            },
    )
}

/// Whether `f` is requested of the dependency named `k`.
pub open spec fn requested(entries: Seq<(Seq<char>, Seq<Seq<char>>)>, k: Seq<char>, f: Seq<char>) -> bool {
    exists|i: int| 0 <= i < entries.len() && entries[i].0 == k && #[trigger] entries[i].1.contains(f)
}

/// The names of the optional dependencies.
pub open spec fn optional_names(deps: Seq<Seq<char>>) -> Seq<Seq<char>> {
    deps.filter_map(
        |d: Seq<char>|
            if bool_field_of(d, "optional"@) {
                dependency_name(d)
            } else {
                None
            },
    )
}

/// What a package object says of a package.
pub open spec fn package_from(p: Package, o: Seq<char>) -> bool {
    let deps = objects_of(o, "dependencies"@);
    let entries = feature_requests(deps);
    let dm = list_map_view(p.dependency_features);
    &&& p.id@ == string_or_empty(o, "id"@)
    &&& p.name@ == string_or_empty(o, "name"@)
    &&& p.version@ == string_or_empty(o, "version"@)
    &&& p.manifest_path@ == string_or_empty(o, "manifest_path"@)
    &&& list_map_view(p.features) == string_array_map_of(o, "features"@)
    &&& p.optional_dependencies@.to_set() == optional_names(deps).to_set()
    &&& dm.dom() == entries.map_values(|e: (Seq<char>, Seq<Seq<char>>)| e.0).to_set()
    &&& forall|k: Seq<char>|
        #![trigger dm[k]]
        dm.contains_key(k) ==> sorted_strict(dm[k]) && forall|f: Seq<char>|
            dm[k].contains(f) <==> requested(entries, k, f)
}

/// The dependency IDs of a resolve node: its `dependencies` array, or the
/// `pkg` of each `deps` entry when that array is empty; sorted, without
/// repeats.
pub open spec fn resolve_dependencies_of(o: Seq<char>) -> Set<Seq<char>> {
    if string_array_of(o, "dependencies"@).len() > 0 {
        string_array_of(o, "dependencies"@).to_set()
    } else {
        objects_of(o, "deps"@).filter_map(|d: Seq<char>| string_field_of(d, "pkg"@)).to_set()
    }
}

/// The `name -> pkg` pairs of a resolve node's `deps` entries.
pub open spec fn dependency_name_entries(o: Seq<char>) -> Seq<(Seq<char>, Seq<char>)> {
    objects_of(o, "deps"@).filter_map(
        |d: Seq<char>|
            match (string_field_of(d, "pkg"@), string_field_of(d, "name"@)) {
                (Some(pkg), Some(name)) => Some((name, pkg)),
                _ => None,
            },
    )
}

/// What a resolve-node object says of a resolve node.
pub open spec fn resolve_node_from(n: ResolveNode, o: Seq<char>) -> bool {
    &&& n.id@ == string_or_empty(o, "id"@)
    &&& views(n.features@) == string_array_of(o, "features"@)
    &&& sorted_strict(views(n.dependencies@))
    &&& views(n.dependencies@).to_set() == resolve_dependencies_of(o)
    &&& text_map_view(n.dependency_names) == entries_to_map(dependency_name_entries(o))
}

/// The objects whose `id` is not empty.
pub open spec fn with_id(objs: Seq<Seq<char>>) -> Seq<Seq<char>> {
    objs.filter_map(
        |o: Seq<char>|
            if string_or_empty(o, "id"@).len() > 0 {
                Some(o)
            } else {
                None
            },
    )
}

/// The resolve section, or the empty text.
pub open spec fn resolve_section(raw: Seq<char>) -> Seq<char> {
    match object_field_of(raw, "resolve"@) {
        Some(r) => r,
        None => Seq::empty(),
    }
}

/// `"key":` as characters.
fn key_pattern_exec(key: &str) -> (r: Vec<char>)
    ensures
        r@ == key_pattern(key@),
{
    let k = chars_of(key);
    let mut r: Vec<char> = Vec::new();
    r.push('"');
    let mut i: usize = 0;
    while i < k.len()
        invariant
            i <= k.len(),
            r@ == seq!['"'] + k@.take(i as int),
        decreases k.len() - i,
    {
        r.push(k[i]);
        i = i + 1;
        assert(r@ =~= seq!['"'] + k@.take(i as int));
    }
    r.push('"');
    r.push(':');
    assert(k@.take(k.len() as int) =~= k@);
    assert(r@ =~= key_pattern(key@));
    r
}

fn key_start_exec(s: &Vec<char>, key: &str) -> (r: Option<usize>)
    ensures
        r matches Some(p) ==> key_start(s@, key@) == Some(p as int) && p <= s.len(),
        r is None ==> key_start(s@, key@) is None,
{
    let pat = key_pattern_exec(key);
    match find_from_exec(s, &pat, 0) {
        None => None,
        Some(i) => Some(i + pat.len()),
    }
}

fn string_field(object: &Vec<char>, key: &str) -> (r: Option<String>)
    ensures
        r matches Some(v) ==> string_field_of(object@, key@) == Some(v@),
        r is None ==> string_field_of(object@, key@) is None,
{
    let p = key_start_exec(object, key)?;
    let t = skip_ws_exec(object, p);
    if starts_with_at(object, "null", t) {
        return None;
    }
    let (v, _) = json_string_exec(object, t)?;
    Some(string_of_all(&v))
}

fn string_or_default(object: &Vec<char>, key: &str) -> (r: String)
    ensures
        r@ == string_or_empty(object@, key@),
{
    match string_field(object, key) {
        Some(v) => v,
        None => String::new(),
    }
}

fn bool_field(object: &Vec<char>, key: &str) -> (r: bool)
    ensures
        r == bool_field_of(object@, key@),
{
    match key_start_exec(object, key) {
        None => false,
        Some(p) => {
            let t = skip_ws_exec(object, p);
            starts_with_at(object, "true", t)
        },
    }
}

fn string_array_field(object: &Vec<char>, key: &str) -> (r: Vec<String>)
    ensures
        views(r@) == string_array_of(object@, key@),
{
    let empty = || -> (e: Vec<String>)
        ensures
            views(e@) == Seq::<Seq<char>>::empty(),
        {
            let e: Vec<String> = Vec::new();
            assert(views(e@) =~= Seq::<Seq<char>>::empty());
            e
        };
    match key_start_exec(object, key) {
        None => empty(),
        Some(p) => match bracketed_exec(object, p, '[', ']') {
            None => empty(),
            Some((a, _)) => string_items_exec(&a, 0),
        },
    }
}

fn object_field(object: &Vec<char>, key: &str) -> (r: Option<Vec<char>>)
    ensures
        r matches Some(v) ==> object_field_of(object@, key@) == Some(v@),
        r is None ==> object_field_of(object@, key@) is None,
{
    let p = key_start_exec(object, key)?;
    let (v, _) = bracketed_exec(object, p, '{', '}')?;
    Some(v)
}

/// The position after the object's own `"key":`.
fn own_key_start_exec(s: &Vec<char>, key: &str) -> (r: Option<usize>)
    ensures
        r matches Some(p) ==> own_key_start(s@, key@) == Some(p as int) && p <= s.len(),
        r is None ==> own_key_start(s@, key@) is None,
{
    let pat = key_pattern_exec(key);
    let mut i: usize = 0;
    let mut depth: usize = 0;
    let mut in_string = false;
    let mut escaped = false;
    while i < s.len()
        invariant
            i <= s.len(),
            depth <= i,
            pat@ == key_pattern(key@),
            own_key_start(s@, key@) == own_key_from(s@, pat@, i as int, depth as nat, in_string, escaped),
        decreases s.len() - i,
    {
        let c = s[i];
        if in_string {
            if escaped {
                escaped = false;
            } else if c == '\\' {
                escaped = true;
            } else if c == '"' {
                in_string = false;
            }
        } else if c == '"' {
            if depth == 1 && occurs_at_exec(s, &pat, i) {
                return Some(i + pat.len());
            }
            in_string = true;
            escaped = false;
        } else if c == '{' || c == '[' {
            depth = depth + 1;
            escaped = false;
        } else if c == '}' || c == ']' {
            if depth > 0 {
                depth = depth - 1;
            }
            escaped = false;
        } else {
            escaped = false;
        }
        i = i + 1;
    }
    None
}

/// The object's own object field, with its braces.
fn own_object_field(object: &Vec<char>, key: &str) -> (r: Option<Vec<char>>)
    ensures
        r matches Some(v) ==> own_object_field_of(object@, key@) == Some(v@),
        r is None ==> own_object_field_of(object@, key@) is None,
{
    let p = own_key_start_exec(object, key)?;
    let (v, _) = bracketed_exec(object, p, '{', '}')?;
    Some(v)
}

fn array_objects(object: &Vec<char>, key: &str) -> (r: Vec<Vec<char>>)
    ensures
        char_views(r@) == objects_of(object@, key@),
{
    let empty = || -> (e: Vec<Vec<char>>)
        ensures
            char_views(e@) == Seq::<Seq<char>>::empty(),
        {
            let e: Vec<Vec<char>> = Vec::new();
            assert(char_views(e@) =~= Seq::<Seq<char>>::empty());
            e
        };
    match key_start_exec(object, key) {
        None => empty(),
        Some(p) => match bracketed_exec(object, p, '[', ']') {
            None => empty(),
            Some((a, _)) => object_items_exec(&a, 0),
        },
    }
}

/// The range of `v` without leading `{` and trailing `}`.
fn strip_braces(v: &Vec<char>) -> (r: Vec<char>)
    ensures
        r@ == strip_trailing(strip_leading(v@, '{'), '}'),
{
    let mut a: usize = 0;
    proof {
        assert(v@.skip(0) =~= v@);
    }
    while a < v.len() && v[a] == '{'
        invariant
            a <= v.len(),
            strip_leading(v@.skip(a as int), '{') == strip_leading(v@, '{'),
        decreases v.len() - a,
    {
        assert(v@.skip(a as int).drop_first() =~= v@.skip(a + 1));
        a = a + 1;
    }
    let mut b = v.len();
    while b > a && v[b - 1] == '}'
        invariant
            a <= b <= v.len(),
            strip_trailing(v@.subrange(a as int, b as int), '}') == strip_trailing(
                strip_leading(v@, '{'),
                '}',
            ),
        decreases b - a,
    {
        assert(v@.subrange(a as int, b as int).drop_last() =~= v@.subrange(a as int, b - 1));
        b = b - 1;
    }
    proof {
        if a < v.len() {
            assert(v@.skip(a as int)[0] == v@[a as int]);
        }
        assert(strip_leading(v@.skip(a as int), '{') == v@.skip(a as int));
        assert(v@.skip(a as int) =~= v@.subrange(a as int, v.len() as int));
        let t = v@.subrange(a as int, b as int);
        if t.len() > 0 {
            assert(t.last() == v@[b - 1]);
        }
    }
    sub_chars(v, a, b)
}

/// The object's own field whose values are string arrays.
fn string_array_map_field(object: &Vec<char>, key: &str) -> (r: StrMap<Vec<String>>)
    ensures
        list_map_view(r) == string_array_map_of(object@, key@),
{
    let mut map: StrMap<Vec<String>> = StrMap::new();
    assert(list_map_view(map) =~= Map::<Seq<char>, Seq<Seq<char>>>::empty());
    let raw_object = match own_object_field(object, key) {
        None => return map,
        Some(v) => v,
    };
    let rest = strip_braces(&raw_object);
    let ghost all = map_entries(rest@, 0);
    let ghost mut done: Seq<(Seq<char>, Seq<Seq<char>>)> = Seq::empty();
    let mut p: usize = 0;
    proof {
        assert(done + all =~= all);
    }
    loop
        invariant
            p <= rest.len(),
            done + map_entries(rest@, p as int) == all,
            all == map_entries(rest@, 0),
            rest@ == strip_trailing(strip_leading(raw_object@, '{'), '}'),
            own_object_field_of(object@, key@) == Some(raw_object@),
            list_map_view(map) == entries_to_map(done),
        decreases rest.len() + 1 - p,
    {
        proof {
            lemma_json_string_end(rest@, p as int);
        }
        let (k, e) = match json_string_exec(&rest, p) {
            None => {
                assert(map_entries(rest@, p as int) == Seq::<(Seq<char>, Seq<Seq<char>>)>::empty());
                assert(done + Seq::<(Seq<char>, Seq<Seq<char>>)>::empty() =~= done);
                assert(done =~= all);
                return map;
            },
            Some(x) => x,
        };
        proof {
            lemma_find_char_from(rest@, ':', e as int);
        }
        let c = match find_char_exec(&rest, ':', e) {
            None => {
                assert(map_entries(rest@, p as int) == Seq::<(Seq<char>, Seq<Seq<char>>)>::empty());
                assert(done + Seq::<(Seq<char>, Seq<Seq<char>>)>::empty() =~= done);
                assert(done =~= all);
                return map;
            },
            Some(c) => c,
        };
        proof {
            lemma_bracketed_end(rest@, c + 1, '[', ']');
        }
        let (a, e2) = match bracketed_exec(&rest, c + 1, '[', ']') {
            None => {
                assert(map_entries(rest@, p as int) == Seq::<(Seq<char>, Seq<Seq<char>>)>::empty());
                assert(done + Seq::<(Seq<char>, Seq<Seq<char>>)>::empty() =~= done);
                assert(done =~= all);
                return map;
            },
            Some(x) => x,
        };
        let items = string_items_exec(&a, 0);
        let ghost entry = (k@, views(items@));
        let ghost before = list_map_view(map);
        map.insert(string_of_all(&k), items);
        proof {
            assert(map_entries(rest@, p as int) == seq![entry] + map_entries(rest@, e2 as int));
            assert(list_map_view(map) =~= before.insert(entry.0, entry.1));
            let nd = done.push(entry);
            assert(nd.drop_last() =~= done);
            assert(nd + map_entries(rest@, e2 as int) =~= done + (seq![entry] + map_entries(
                rest@,
                e2 as int,
            )));
            done = nd;
        }
        p = e2;
    }
}

/// The sorted, repeat-free dependency IDs of a resolve node.
fn resolve_dependencies(object: &Vec<char>) -> (r: Vec<String>)
    ensures
        sorted_strict(views(r@)),
        views(r@).to_set() == resolve_dependencies_of(object@),
{
    let mut deps = string_array_field(object, "dependencies");
    if deps.len() == 0 {
        let objs = array_objects(object, "deps");
        let ghost os = char_views(objs@);
        let mut pkgs: Vec<String> = Vec::new();
        let mut i: usize = 0;
        while i < objs.len()
            invariant
                i <= objs.len(),
                os == char_views(objs@),
                views(pkgs@) == os.take(i as int).filter_map(
                    |d: Seq<char>| string_field_of(d, "pkg"@),
                ),
            decreases objs.len() - i,
        {
            let ghost before = views(pkgs@);
            proof {
                assert(os.take(i + 1).drop_last() =~= os.take(i as int));
                assert(os.take(i + 1).last() == objs@[i as int]@);
            }
            match string_field(&objs[i], "pkg") {
                Some(p) => {
                    pkgs.push(p);
                    assert(views(pkgs@) =~= before + seq![pkgs@.last()@]);
                },
                None => {},
            }
            i = i + 1;
        }
        assert(os.take(objs.len() as int) =~= os);
        deps = pkgs;
    }
    let set = StrSet::from_vec(deps);
    set.to_vec()
}

/// The `name -> pkg` map of a resolve node.
fn resolve_dependency_names(object: &Vec<char>) -> (r: StrMap<String>)
    ensures
        text_map_view(r) == entries_to_map(dependency_name_entries(object@)),
{
    let objs = array_objects(object, "deps");
    let ghost os = char_views(objs@);
    let ghost f = |d: Seq<char>|
        match (string_field_of(d, "pkg"@), string_field_of(d, "name"@)) {
            (Some(pkg), Some(name)) => Some((name, pkg)),
            _ => None,
        };
    let mut map: StrMap<String> = StrMap::new();
    assert(text_map_view(map) =~= Map::<Seq<char>, Seq<char>>::empty());
    let mut i: usize = 0;
    while i < objs.len()
        invariant
            i <= objs.len(),
            os == char_views(objs@),
            os == objects_of(object@, "deps"@),
            text_map_view(map) == entries_to_map(os.take(i as int).filter_map(f)),
            f == (|d: Seq<char>|
                match (string_field_of(d, "pkg"@), string_field_of(d, "name"@)) {
                    (Some(pkg), Some(name)) => Some((name, pkg)),
                    _ => None,
                }),
        decreases objs.len() - i,
    {
        let ghost before = text_map_view(map);
        proof {
            assert(os.take(i + 1).drop_last() =~= os.take(i as int));
            assert(os.take(i + 1).last() == objs@[i as int]@);
        }
        match (string_field(&objs[i], "pkg"), string_field(&objs[i], "name")) {
            (Some(pkg), Some(name)) => {
                let ghost entry = (name@, pkg@);
                map.insert(name, pkg);
                proof {
                    assert(text_map_view(map) =~= before.insert(entry.0, entry.1));
                    let fm = os.take(i + 1).filter_map(f);
                    assert(fm.drop_last() =~= os.take(i as int).filter_map(f));
                    assert(fm.last() == entry);
                }
            },
            _ => {},
        }
        i = i + 1;
    }
    assert(os.take(objs.len() as int) =~= os);
    map
}

/// The name under which a dependency object is known.
fn dependency_name_exec(d: &Vec<char>) -> (r: Option<String>)
    ensures
        r matches Some(n) ==> dependency_name(d@) == Some(n@),
        r is None ==> dependency_name(d@) is None,
{
    match string_field(d, "rename") {
        Some(n) => Some(n),
        None => string_field(d, "name"),
    }
}

/// A copy of a list of strings.
fn copy_strings(v: &Vec<String>) -> (r: Vec<String>)
    ensures
        views(r@) == views(v@),
{
    let r = v.clone();
    assert(views(r@) =~= views(v@));
    r
}

/// The features requested of each named dependency: sorted, without repeats.
fn dependency_feature_map(deps: &Vec<Vec<char>>) -> (r: StrMap<Vec<String>>)
    ensures
        ({
            let entries = feature_requests(char_views(deps@));
            let dm = list_map_view(r);
            &&& dm.dom() == entries.map_values(|e: (Seq<char>, Seq<Seq<char>>)| e.0).to_set()
            &&& forall|k: Seq<char>|
                #![trigger dm[k]]
                dm.contains_key(k) ==> sorted_strict(dm[k]) && forall|f: Seq<char>|
                    dm[k].contains(f) <==> requested(entries, k, f)
        }),
{
    let ghost os = char_views(deps@);
    let ghost fr = |d: Seq<char>|
        match dependency_name(d) {
            Some(n) => if string_array_of(d, "features"@).len() > 0 {
                Some((n, string_array_of(d, "features"@)))
            } else {
                None
            },
            None => None,
        };
    let mut acc: StrMap<Vec<String>> = StrMap::new();
    proof {
        assert(list_map_view(acc) =~= Map::<Seq<char>, Seq<Seq<char>>>::empty());
        assert(os.take(0).filter_map(fr) =~= Seq::<(Seq<char>, Seq<Seq<char>>)>::empty());
        assert(Seq::<(Seq<char>, Seq<Seq<char>>)>::empty().map_values(|e: (Seq<char>, Seq<Seq<char>>)| e.0).to_set() =~= Set::<Seq<char>>::empty());
    }
    let mut i: usize = 0;
    while i < deps.len()
        invariant
            i <= deps.len(),
            os == char_views(deps@),
            fr == (|d: Seq<char>|
                match dependency_name(d) {
                    Some(n) => if string_array_of(d, "features"@).len() > 0 {
                        Some((n, string_array_of(d, "features"@)))
                    } else {
                        None
                    },
                    None => None,
                }),
            ({
                let entries = os.take(i as int).filter_map(fr);
                let dm = list_map_view(acc);
                &&& dm.dom() == entries.map_values(|e: (Seq<char>, Seq<Seq<char>>)| e.0).to_set()
                &&& forall|k: Seq<char>|
                    #![trigger dm[k]]
                    dm.contains_key(k) ==> sorted_strict(dm[k]) && forall|f: Seq<char>|
                        dm[k].contains(f) <==> requested(entries, k, f)
            }),
        decreases deps.len() - i,
    {
        let d = &deps[i];
        let ghost prev_entries = os.take(i as int).filter_map(fr);
        let ghost before = list_map_view(acc);
        proof {
            assert(os.take(i + 1).drop_last() =~= os.take(i as int));
            assert(os.take(i + 1).last() == d@);
        }
        match dependency_name_exec(d) {
            Some(name) => {
                let features = string_array_field(d, "features");
                if features.len() > 0 {
                    let ghost entry = (name@, views(features@));
                    let mut merged: Vec<String> = match acc.get(name.as_str()) {
                        Some(existing) => copy_strings(existing),
                        None => Vec::new(),
                    };
                    let ghost old_part = views(merged@);
                    let mut extra = copy_strings(&features);
                    merged.append(&mut extra);
                    let set = StrSet::from_vec(merged);
                    let value = set.to_vec();
                    proof {
                        assert(views(merged@) =~= old_part + views(features@));
                    }
                    acc.insert(name, value);
                    proof {
                        let entries = os.take(i + 1).filter_map(fr);
                        assert(entries =~= prev_entries.push(entry));
                        let dm = list_map_view(acc);
                        assert(dm =~= before.insert(entry.0, views(value@)));
                        assert(entries.map_values(|e: (Seq<char>, Seq<Seq<char>>)| e.0) =~= prev_entries.map_values(|e: (Seq<char>, Seq<Seq<char>>)| e.0).push(entry.0));
                        prev_entries.map_values(|e: (Seq<char>, Seq<Seq<char>>)| e.0).lemma_push_to_set_commute(entry.0);
                        assert(dm.dom() =~= entries.map_values(|e: (Seq<char>, Seq<Seq<char>>)| e.0).to_set());
                        assert forall|k: Seq<char>| #[trigger] dm.contains_key(k) implies sorted_strict(dm[k]) && forall|f: Seq<char>|
                            dm[k].contains(f) <==> requested(entries, k, f) by {
                            assert forall|f: Seq<char>| requested(entries, k, f) <==> (requested(prev_entries, k, f) || (k == entry.0 && entry.1.contains(f))) by {
                                if requested(entries, k, f) {
                                    let j = choose|j: int| 0 <= j < entries.len() && entries[j].0 == k && #[trigger] entries[j].1.contains(f);
                                    if j < prev_entries.len() {
                                        assert(prev_entries[j] == entries[j]);
                                    }
                                }
                                if requested(prev_entries, k, f) {
                                    let j = choose|j: int| 0 <= j < prev_entries.len() && prev_entries[j].0 == k && #[trigger] prev_entries[j].1.contains(f);
                                    assert(entries[j] == prev_entries[j]);
                                }
                                if k == entry.0 && entry.1.contains(f) {
                                    assert(entries[prev_entries.len() as int] == entry);
                                }
                            }
                            if k == entry.0 {
                                assert forall|f: Seq<char>| dm[k].contains(f) <==> requested(entries, k, f) by {
                                    assert(dm[k].to_set().contains(f) == dm[k].contains(f));
                                    assert((old_part + views(features@)).to_set().contains(f) == (old_part + views(features@)).contains(f));
                                    if (old_part + views(features@)).contains(f) {
                                        let j = choose|j: int| 0 <= j < (old_part + views(features@)).len() && (old_part + views(features@))[j] == f;
                                        if j < old_part.len() {
                                            assert(old_part.contains(f));
                                        } else {
                                            assert(views(features@)[j - old_part.len()] == f);
                                        }
                                    }
                                    if old_part.contains(f) {
                                        let j = choose|j: int| 0 <= j < old_part.len() && old_part[j] == f;
                                        assert((old_part + views(features@))[j] == f);
                                    }
                                    if views(features@).contains(f) {
                                        let j = choose|j: int| 0 <= j < views(features@).len() && views(features@)[j] == f;
                                        assert((old_part + views(features@))[old_part.len() + j] == f);
                                    }
                                    if !before.contains_key(k) {
                                        assert(old_part.len() == 0);
                                        if requested(prev_entries, k, f) {
                                            let j = choose|j: int| 0 <= j < prev_entries.len() && prev_entries[j].0 == k && #[trigger] prev_entries[j].1.contains(f);
                                            assert(prev_entries.map_values(|e: (Seq<char>, Seq<Seq<char>>)| e.0)[j] == k);
                                            assert(prev_entries.map_values(|e: (Seq<char>, Seq<Seq<char>>)| e.0).to_set().contains(k));
                                        }
                                    } else {
                                        assert(old_part == before[k]);
                                    }
                                }
                            } else {
                                assert(dm[k] == before[k]);
                            }
                        }
                    }
                } else {
                    proof {
                        assert(os.take(i + 1).filter_map(fr) =~= prev_entries);
                    }
                }
            },
            None => {
                proof {
                    assert(os.take(i + 1).filter_map(fr) =~= prev_entries);
                }
            },
        }
        i = i + 1;
    }
    assert(os.take(deps.len() as int) =~= os);
    acc
}

/// The names of the optional dependencies, as a set.
fn optional_dependency_set(deps: &Vec<Vec<char>>) -> (r: StrSet)
    ensures
        r@.to_set() == optional_names(char_views(deps@)).to_set(),
{
    let ghost os = char_views(deps@);
    let ghost g = |d: Seq<char>|
        if bool_field_of(d, "optional"@) {
            dependency_name(d)
        } else {
            None
        };
    let mut set = StrSet::new();
    proof {
        assert(os.take(0).filter_map(g) =~= Seq::<Seq<char>>::empty());
        assert(set@.to_set() =~= Seq::<Seq<char>>::empty().to_set());
    }
    let mut i: usize = 0;
    while i < deps.len()
        invariant
            i <= deps.len(),
            os == char_views(deps@),
            g == (|d: Seq<char>|
                if bool_field_of(d, "optional"@) {
                    dependency_name(d)
                } else {
                    None
                }),
            set@.to_set() == os.take(i as int).filter_map(g).to_set(),
        decreases deps.len() - i,
    {
        let d = &deps[i];
        let ghost prev = os.take(i as int).filter_map(g);
        proof {
            assert(os.take(i + 1).drop_last() =~= os.take(i as int));
            assert(os.take(i + 1).last() == d@);
        }
        if bool_field(d, "optional") {
            match dependency_name_exec(d) {
                Some(name) => {
                    let ghost n = name@;
                    set.insert(name);
                    proof {
                        assert(os.take(i + 1).filter_map(g) =~= prev.push(n));
                        prev.lemma_push_to_set_commute(n);
                    }
                },
                None => {
                    assert(os.take(i + 1).filter_map(g) =~= prev);
                },
            }
        } else {
            assert(os.take(i + 1).filter_map(g) =~= prev);
        }
        i = i + 1;
    }
    assert(os.take(deps.len() as int) =~= os);
    set
}

/// A package object.
fn parse_package(object: &Vec<char>) -> (r: Package)
    ensures
        package_from(r, object@),
{
    let deps = array_objects(object, "dependencies");
    let dependency_features = dependency_feature_map(&deps);
    let optional_dependencies = optional_dependency_set(&deps);
    Package {
        id: string_or_default(object, "id"),
        name: string_or_default(object, "name"),
        version: string_or_default(object, "version"),
        manifest_path: string_or_default(object, "manifest_path"),
        features: string_array_map_field(object, "features"),
        optional_dependencies,
        dependency_features,
    }
}

/// A resolve-node object.
fn parse_resolve_node(object: &Vec<char>) -> (r: ResolveNode)
    ensures
        resolve_node_from(r, object@),
{
    ResolveNode {
        id: string_or_default(object, "id"),
        features: string_array_field(object, "features"),
        dependencies: resolve_dependencies(object),
        dependency_names: resolve_dependency_names(object),
    }
}

/// Parses `cargo metadata` JSON. Packages and resolve nodes without an `id`
/// are dropped; the parse itself does not fail.
pub fn parse_metadata(raw: &str) -> (r: Result<Metadata, Error>)
    ensures
        r matches Ok(m) && ({
            let pkgs = with_id(objects_of(raw@, "packages"@));
            let nodes = with_id(objects_of(resolve_section(raw@), "nodes"@));
            &&& m.packages@.len() == pkgs.len()
            &&& forall|i: int| 0 <= i < pkgs.len() ==> package_from(#[trigger] m.packages@[i], pkgs[i])
            &&& views(m.workspace_members@) == string_array_of(raw@, "workspace_members"@)
            &&& m.resolve_nodes@.len() == nodes.len()
            &&& forall|i: int| 0 <= i < nodes.len() ==> resolve_node_from(#[trigger] m.resolve_nodes@[i], nodes[i])
        }),
{
    let s = chars_of(raw);
    let package_objects = array_objects(&s, "packages");
    let ghost pos = char_views(package_objects@);
    let ghost keep = |o: Seq<char>|
        if string_or_empty(o, "id"@).len() > 0 {
            Some(o)
        } else {
            None
        };
    let mut packages: Vec<Package> = Vec::new();
    let mut i: usize = 0;
    while i < package_objects.len()
        invariant
            i <= package_objects.len(),
            pos == char_views(package_objects@),
            keep == (|o: Seq<char>|
                if string_or_empty(o, "id"@).len() > 0 {
                    Some(o)
                } else {
                    None
                }),
            packages@.len() == pos.take(i as int).filter_map(keep).len(),
            forall|k: int|
                0 <= k < packages@.len() ==> package_from(
                    #[trigger] packages@[k],
                    pos.take(i as int).filter_map(keep)[k],
                ),
        decreases package_objects.len() - i,
    {
        let ghost prev = pos.take(i as int).filter_map(keep);
        proof {
            assert(pos.take(i + 1).drop_last() =~= pos.take(i as int));
            assert(pos.take(i + 1).last() == package_objects@[i as int]@);
        }
        let package = parse_package(&package_objects[i]);
        if !package.id.as_str().is_empty() {
            let ghost o = package_objects@[i as int]@;
            packages.push(package);
            proof {
                assert(string_or_empty(o, "id"@).len() > 0);
                assert(pos.take(i + 1).filter_map(keep) =~= prev.push(o));
            }
        } else {
            proof {
                assert(pos.take(i + 1).filter_map(keep) =~= prev);
            }
        }
        i = i + 1;
    }
    assert(pos.take(package_objects.len() as int) =~= pos);

    let workspace_members = string_array_field(&s, "workspace_members");
    let resolve_raw = match object_field(&s, "resolve") {
        Some(r) => r,
        None => Vec::new(),
    };
    assert(resolve_raw@ == resolve_section(raw@));
    let node_objects = array_objects(&resolve_raw, "nodes");
    let ghost nos = char_views(node_objects@);
    let mut resolve_nodes: Vec<ResolveNode> = Vec::new();
    let mut i: usize = 0;
    while i < node_objects.len()
        invariant
            i <= node_objects.len(),
            nos == char_views(node_objects@),
            keep == (|o: Seq<char>|
                if string_or_empty(o, "id"@).len() > 0 {
                    Some(o)
                } else {
                    None
                }),
            resolve_nodes@.len() == nos.take(i as int).filter_map(keep).len(),
            forall|k: int|
                0 <= k < resolve_nodes@.len() ==> resolve_node_from(
                    #[trigger] resolve_nodes@[k],
                    nos.take(i as int).filter_map(keep)[k],
                ),
        decreases node_objects.len() - i,
    {
        let ghost prev = nos.take(i as int).filter_map(keep);
        proof {
            assert(nos.take(i + 1).drop_last() =~= nos.take(i as int));
            assert(nos.take(i + 1).last() == node_objects@[i as int]@);
        }
        let node = parse_resolve_node(&node_objects[i]);
        if !node.id.as_str().is_empty() {
            let ghost o = node_objects@[i as int]@;
            resolve_nodes.push(node);
            proof {
                assert(nos.take(i + 1).filter_map(keep) =~= prev.push(o));
            }
        } else {
            proof {
                assert(nos.take(i + 1).filter_map(keep) =~= prev);
            }
        }
        i = i + 1;
    }
    assert(nos.take(node_objects.len() as int) =~= nos);
    Ok(Metadata { packages, workspace_members, resolve_nodes })
}

} // verus!
