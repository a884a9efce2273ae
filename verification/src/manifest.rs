//! The subset of `Cargo.toml` that feature analysis needs, read line by
//! line: the package name, `[features]`, dependency declarations in every
//! dependency section (target-specific ones too) and
//! `[workspace.dependencies]`.
use vstd::prelude::*;

use crate::collections::{list_map_view, sorted_strict, StrMap, StrSet};
use crate::text::{
    chars_of, contains_seq, ends_with, find_char_exec, find_char_from, find_from,
    find_from_exec, lines, lines_exec, skip_ws,
    skip_ws_exec, split_char, split_exec, string_of_all, sub_chars, trim_exec,
    trim_seq, views,
};

verus! {

/// Parsed subset of Cargo.toml data needed for feature analysis.
#[derive(Debug, Clone)]
pub struct ParsedManifest {
    pub package_name: Option<String>,
    pub features: StrMap<Vec<String>>,
    pub optional_dependencies: StrSet,
    pub dependency_features: StrMap<Vec<String>>,
    pub default_features: Vec<String>,
    pub workspace_dependencies: StrMap<DependencySpec>,
    pub inherited_workspace_dependencies: StrSet,
}

/// Feature-relevant fields from a dependency declaration.
#[derive(Debug, PartialEq, Eq)]
pub struct DependencySpec {
    pub optional: bool,
    pub features: Vec<String>,
    pub workspace: bool,
}

/// What a dependency declaration says.
pub struct DependencySpecView {
    pub optional: bool,
    pub features: Seq<Seq<char>>,
    pub workspace: bool,
}

impl View for DependencySpec {
    type V = DependencySpecView;

    open spec fn view(&self) -> DependencySpecView {
        DependencySpecView {
            optional: self.optional,
            features: views(self.features@),
            workspace: self.workspace,
        }
    }
}

impl Clone for DependencySpec {
    fn clone(&self) -> (r: Self)
        ensures
            r@ == self@,
    {
        let features = self.features.clone();
        assert(views(features@) =~= views(self.features@));
        DependencySpec { optional: self.optional, features, workspace: self.workspace }
    }
}

impl Default for DependencySpec {
    fn default() -> (r: Self)
        ensures
            r@ == default_spec(),
    {
        let r = DependencySpec { optional: false, features: Vec::new(), workspace: false };
        assert(views(r.features@) =~= Seq::<Seq<char>>::empty());
        r
    }
}

pub open spec fn default_spec() -> DependencySpecView {
    DependencySpecView { optional: false, features: Seq::empty(), workspace: false }
}

impl Default for ParsedManifest {
    fn default() -> (r: Self)
        ensures
            r@ == empty_manifest(),
    {
        let r = ParsedManifest {
            package_name: None,
            features: StrMap::new(),
            optional_dependencies: StrSet::new(),
            dependency_features: StrMap::new(),
            default_features: Vec::new(),
            workspace_dependencies: StrMap::new(),
            inherited_workspace_dependencies: StrSet::new(),
        };
        proof {
            assert(list_map_view(r.features) =~= Map::<Seq<char>, Seq<Seq<char>>>::empty());
            assert(list_map_view(r.dependency_features) =~= Map::<Seq<char>, Seq<Seq<char>>>::empty());
            assert(spec_map_view(r.workspace_dependencies) =~= Map::<Seq<char>, DependencySpecView>::empty());
            assert(r.optional_dependencies@.to_set() =~= Set::<Seq<char>>::empty());
            assert(r.inherited_workspace_dependencies@.to_set() =~= Set::<Seq<char>>::empty());
            assert(views(r.default_features@) =~= Seq::<Seq<char>>::empty());
        }
        r
    }
}

/// What a manifest says, as texts, maps and sets.
pub struct ManifestView {
    pub package_name: Option<Seq<char>>,
    pub features: Map<Seq<char>, Seq<Seq<char>>>,
    pub optional_dependencies: Set<Seq<char>>,
    pub dependency_features: Map<Seq<char>, Seq<Seq<char>>>,
    pub default_features: Seq<Seq<char>>,
    pub workspace_dependencies: Map<Seq<char>, DependencySpecView>,
    pub inherited_workspace_dependencies: Set<Seq<char>>,
}

pub open spec fn spec_map_view(m: StrMap<DependencySpec>) -> Map<Seq<char>, DependencySpecView> {
    m.as_map().map_values(|d: DependencySpec| d@)
}

pub open spec fn opt_view(o: Option<String>) -> Option<Seq<char>> {
    match o {
        Some(s) => Some(s@),
        None => None,
    }
}

impl View for ParsedManifest {
    type V = ManifestView;

    open spec fn view(&self) -> ManifestView {
        ManifestView {
            package_name: opt_view(self.package_name),
            features: list_map_view(self.features),
            optional_dependencies: self.optional_dependencies@.to_set(),
            dependency_features: list_map_view(self.dependency_features),
            default_features: views(self.default_features@),
            workspace_dependencies: spec_map_view(self.workspace_dependencies),
            inherited_workspace_dependencies: self.inherited_workspace_dependencies@.to_set(),
        }
    }
}

pub open spec fn empty_manifest() -> ManifestView {
    ManifestView {
        package_name: None,
        features: Map::empty(),
        optional_dependencies: Set::empty(),
        dependency_features: Map::empty(),
        default_features: Seq::empty(),
        workspace_dependencies: Map::empty(),
        inherited_workspace_dependencies: Set::empty(),
    }
}

/// A cache of parsed manifests, keyed by manifest path.
#[derive(Debug)]
pub struct ManifestCache {
    manifests: StrMap<ParsedManifest>,
}

impl ManifestCache {
    /// The cached manifests by path.
    pub closed spec fn entries(&self) -> Map<Seq<char>, ParsedManifest> {
        self.manifests.as_map()
    }

    /// The cached manifest of `path`.
    pub fn get(&self, path: &str) -> (r: Option<&ParsedManifest>)
        ensures
            r matches Some(m) ==> self.entries().contains_key(path@) && self.entries()[path@]
                == *m,
            r is None ==> !self.entries().contains_key(path@),
    {
        self.manifests.get(path)
    }

    /// Records the manifest of `path`.
    pub fn insert(&mut self, path: String, manifest: ParsedManifest)
        ensures
            final(self).entries() == old(self).entries().insert(path@, manifest),
    {
        self.manifests.insert(path, manifest);
    }
}

impl Default for ManifestCache {
    fn default() -> (r: Self)
        ensures
            r.entries() == Map::<Seq<char>, ParsedManifest>::empty(),
    {
        let r = ManifestCache { manifests: StrMap::new() };
        assert(r.entries() =~= Map::<Seq<char>, ParsedManifest>::empty());
        r
    }
}

/// Where a `#` comment starts, outside quoted strings.
pub open spec fn comment_start(s: Seq<char>, i: int, in_string: bool, escaped: bool) -> Option<int>
    decreases s.len() - i,
{
    if i < 0 || i >= s.len() {
        None
    } else if in_string {
        if escaped {
            comment_start(s, i + 1, true, false)
        } else if s[i] == '\\' {
            comment_start(s, i + 1, true, true)
        } else if s[i] == '"' {
            comment_start(s, i + 1, false, false)
        } else {
            comment_start(s, i + 1, true, false)
        }
    } else if s[i] == '"' {
        comment_start(s, i + 1, true, escaped)
    } else if s[i] == '#' {
        Some(i)
    } else {
        comment_start(s, i + 1, false, escaped)
    }
}

/// The line without its comment.
pub open spec fn strip_comment_spec(s: Seq<char>) -> Seq<char> {
    match comment_start(s, 0, false, false) {
        None => s,
        Some(i) => s.take(i),
    }
}

/// Removes leading characters equal to `a` or `b`.
pub open spec fn trim_lead2(s: Seq<char>, a: char, b: char) -> Seq<char>
    decreases s.len(),
{
    if s.len() > 0 && (s[0] == a || s[0] == b) {
        trim_lead2(s.drop_first(), a, b)
    } else {
        s
    }
}

/// Removes trailing characters equal to `a` or `b`.
pub open spec fn trim_trail2(s: Seq<char>, a: char, b: char) -> Seq<char>
    decreases s.len(),
{
    if s.len() > 0 && (s.last() == a || s.last() == b) {
        trim_trail2(s.drop_last(), a, b)
    } else {
        s
    }
}

/// `str::trim_matches` with the characters `a` and `b`.
pub open spec fn trim_matches2(s: Seq<char>, a: char, b: char) -> Seq<char> {
    trim_trail2(trim_lead2(s, a, b), a, b)
}

/// A quoted TOML string, without its quotes.
pub open spec fn parse_string_spec(value: Seq<char>) -> Option<Seq<char>> {
    let v = trim_seq(value);
    if v.len() > 0 && v[0] == '"' && v.last() == '"' {
        Some(trim_matches2(v, '"', '"'))
    } else {
        None
    }
}

/// The quoted strings of a one-line TOML array.
pub open spec fn parse_array_spec(value: Seq<char>) -> Seq<Seq<char>> {
    let v = trim_trail2(trim_lead2(trim_seq(value), '[', '['), ']', ']');
    split_char(v, ',').filter_map(|item: Seq<char>| parse_string_spec(trim_seq(item)))
}

/// Whether an inline table has `key = true` or `key=true`.
pub open spec fn table_bool_spec(value: Seq<char>, key: Seq<char>) -> bool {
    contains_seq(value, key + " = true"@) || contains_seq(value, key + "=true"@)
}

/// The array value of `key` in an inline table.
pub open spec fn table_array_spec(value: Seq<char>, key: Seq<char>) -> Seq<Seq<char>> {
    match find_from(value, key, 0) {
        None => Seq::empty(),
        Some(start) => {
            let tail = value.skip(start + key.len());
            match find_char_from(tail, '=', 0) {
                None => Seq::empty(),
                Some(eq) => {
                    let t = tail.skip(eq + 1);
                    let t2 = t.skip(skip_ws(t, 0));
                    if !(t2.len() > 0 && t2[0] == '[') {
                        Seq::empty()
                    } else {
                        match find_char_from(t2, ']', 0) {
                            None => Seq::empty(),
                            Some(end) => parse_array_spec(t2.take(end + 1)),
                        }
                    }
                },
            }
        },
    }
}

/// A dependency declaration: a version string, or an inline table.
pub open spec fn dependency_spec_of(value: Seq<char>) -> DependencySpecView {
    let t = value.skip(skip_ws(value, 0));
    if !(t.len() > 0 && t[0] == '{') {
        default_spec()
    } else {
        DependencySpecView {
            optional: table_bool_spec(value, "optional"@),
            features: table_array_spec(value, "features"@),
            workspace: table_bool_spec(value, "workspace"@),
        }
    }
}

/// Whether a section header names a dependency table.
pub open spec fn is_dependency_section_spec(section: Seq<char>) -> bool {
    ||| section == "dependencies"@
    ||| section == "dev-dependencies"@
    ||| section == "build-dependencies"@
    ||| ends_with(section, ".dependencies"@)
    ||| ends_with(section, ".dev-dependencies"@)
    ||| ends_with(section, ".build-dependencies"@)
}

/// What the parser holds between lines.
pub struct ManifestParse {
    pub m: ManifestView,
    pub section: Seq<char>,
}

/// One line of a manifest.
pub open spec fn manifest_step(st: ManifestParse, raw_line: Seq<char>) -> ManifestParse {
    let line = trim_seq(strip_comment_spec(raw_line));
    let m = st.m;
    if line.len() == 0 {
        st
    } else if line[0] == '[' && line.last() == ']' {
        ManifestParse { m, section: trim_matches2(line, '[', ']') }
    } else {
        match find_char_from(line, '=', 0) {
            None => st,
            Some(i) => {
                let key = trim_matches2(trim_seq(line.take(i)), '"', '"');
                let value = trim_seq(line.skip(i + 1));
                let sec = st.section;
                if sec == "package"@ && key == "name"@ {
                    ManifestParse { m: ManifestView { package_name: parse_string_spec(value), ..m }, ..st }
                } else if sec == "features"@ {
                    let values = parse_array_spec(value);
                    ManifestParse {
                        m: ManifestView {
                            default_features: if key == "default"@ {
                                values
                            } else {
                                m.default_features
                            },
                            features: m.features.insert(key, values),
                            ..m
                        },
                        ..st
                    }
                } else if sec == "workspace.dependencies"@ {
                    ManifestParse {
                        m: ManifestView {
                            workspace_dependencies: m.workspace_dependencies.insert(
                                key,
                                dependency_spec_of(value),
                            ),
                            ..m
                        },
                        ..st
                    }
                } else if is_dependency_section_spec(sec) {
                    let spec = dependency_spec_of(value);
                    ManifestParse {
                        m: ManifestView {
                            optional_dependencies: if spec.optional {
                                m.optional_dependencies.insert(key)
                            } else {
                                m.optional_dependencies
                            },
                            dependency_features: if spec.features.len() > 0 {
                                m.dependency_features.insert(key, spec.features)
                            } else {
                                m.dependency_features
                            },
                            inherited_workspace_dependencies: if spec.workspace {
                                m.inherited_workspace_dependencies.insert(key)
                            } else {
                                m.inherited_workspace_dependencies
                            },
                            ..m
                        },
                        ..st
                    }
                } else {
                    st
                }
            },
        }
    }
}

/// The manifest after the first `n` lines.
pub open spec fn manifest_after(ls: Seq<Seq<char>>, n: int) -> ManifestParse
    decreases n,
{
    if n <= 0 {
        ManifestParse { m: empty_manifest(), section: Seq::empty() }
    } else {
        manifest_step(manifest_after(ls, n - 1), ls[n - 1])
    }
}

/// What a manifest text says.
pub open spec fn parse_manifest_spec(raw: Seq<char>) -> ManifestView {
    manifest_after(lines(raw), lines(raw).len() as int).m
}

/// The line without its comment.
fn strip_comment(line: &Vec<char>) -> (r: Vec<char>)
    ensures
        r@ == strip_comment_spec(line@),
{
    let mut in_string = false;
    let mut escaped = false;
    let mut i: usize = 0;
    while i < line.len()
        invariant
            i <= line.len(),
            comment_start(line@, i as int, in_string, escaped) == comment_start(
                line@,
                0,
                false,
                false,
            ),
        decreases line.len() - i,
    {
        let ch = line[i];
        if in_string {
            if escaped {
                escaped = false;
            } else if ch == '\\' {
                escaped = true;
            } else if ch == '"' {
                in_string = false;
            }
        } else if ch == '"' {
            in_string = true;
        } else if ch == '#' {
            assert(line@.subrange(0, i as int) =~= line@.take(i as int));
            return sub_chars(line, 0, i);
        }
        i = i + 1;
    }
    assert(line@.subrange(0, line.len() as int) =~= line@);
    sub_chars(line, 0, line.len())
}

/// `v` without leading `a`/`b` and trailing `c`/`d` characters.
fn trim_ends(v: &Vec<char>, a: char, b: char, c: char, d: char) -> (r: Vec<char>)
    ensures
        r@ == trim_trail2(trim_lead2(v@, a, b), c, d),
{
    let mut lo: usize = 0;
    proof {
        assert(v@.skip(0) =~= v@);
    }
    while lo < v.len() && (v[lo] == a || v[lo] == b)
        invariant
            lo <= v.len(),
            trim_lead2(v@.skip(lo as int), a, b) == trim_lead2(v@, a, b),
        decreases v.len() - lo,
    {
        assert(v@.skip(lo as int).drop_first() =~= v@.skip(lo + 1));
        lo = lo + 1;
    }
    proof {
        if lo < v.len() {
            assert(v@.skip(lo as int)[0] == v@[lo as int]);
        }
        assert(v@.skip(lo as int) =~= v@.subrange(lo as int, v.len() as int));
    }
    let mut hi = v.len();
    while hi > lo && (v[hi - 1] == c || v[hi - 1] == d)
        invariant
            lo <= hi <= v.len(),
            trim_trail2(v@.subrange(lo as int, hi as int), c, d) == trim_trail2(
                trim_lead2(v@, a, b),
                c,
                d,
            ),
        decreases hi - lo,
    {
        assert(v@.subrange(lo as int, hi as int).drop_last() =~= v@.subrange(lo as int, hi - 1));
        hi = hi - 1;
    }
    proof {
        let t = v@.subrange(lo as int, hi as int);
        if t.len() > 0 {
            assert(t.last() == v@[hi - 1]);
        }
    }
    sub_chars(v, lo, hi)
}

/// A quoted TOML string, without its quotes.
fn parse_string(value: &Vec<char>) -> (r: Option<String>)
    ensures
        r matches Some(s) ==> parse_string_spec(value@) == Some(s@),
        r is None ==> parse_string_spec(value@) is None,
{
    let v = trim_exec(value);
    if v.len() > 0 && v[0] == '"' && v[v.len() - 1] == '"' {
        let t = trim_ends(&v, '"', '"', '"', '"');
        Some(string_of_all(&t))
    } else {
        None
    }
}

/// The quoted strings of a one-line TOML array.
fn parse_array(value: &Vec<char>) -> (r: Vec<String>)
    ensures
        views(r@) == parse_array_spec(value@),
{
    let t = trim_exec(value);
    let v = trim_ends(&t, '[', '[', ']', ']');
    let pieces = split_exec(&v, ',');
    let ghost ps = pieces@.map_values(|x: Vec<char>| x@);
    let mut out: Vec<String> = Vec::new();
    let mut i: usize = 0;
    while i < pieces.len()
        invariant
            i <= pieces.len(),
            ps == pieces@.map_values(|x: Vec<char>| x@),
            ps == split_char(v@, ','),
            v@ == trim_trail2(trim_lead2(trim_seq(value@), '[', '['), ']', ']'),
            views(out@) == ps.take(i as int).filter_map(
                |item: Seq<char>| parse_string_spec(trim_seq(item)),
            ),
        decreases pieces.len() - i,
    {
        let ghost before = views(out@);
        proof {
            assert(ps.take(i + 1).drop_last() =~= ps.take(i as int));
            assert(ps.take(i + 1).last() == pieces@[i as int]@);
        }
        let item = trim_exec(&pieces[i]);
        match parse_string(&item) {
            Some(s) => {
                out.push(s);
                assert(views(out@) =~= before + seq![out@.last()@]);
            },
            None => {},
        }
        i = i + 1;
    }
    assert(ps.take(pieces.len() as int) =~= ps);
    out
}

/// `key` followed by `suffix`, as characters.
fn key_with(key: &str, suffix: &str) -> (r: Vec<char>)
    ensures
        r@ == key@ + suffix@,
{
    let mut r = chars_of(key);
    let mut s = chars_of(suffix);
    r.append(&mut s);
    r
}

/// Whether an inline table has `key = true` or `key=true`.
fn table_bool(value: &Vec<char>, key: &str) -> (r: bool)
    ensures
        r == table_bool_spec(value@, key@),
{
    let spaced = key_with(key, " = true");
    let tight = key_with(key, "=true");
    find_from_exec(value, &spaced, 0).is_some() || find_from_exec(value, &tight, 0).is_some()
}

/// The array value of `key` in an inline table.
fn table_array(value: &Vec<char>, key: &str) -> (r: Vec<String>)
    ensures
        views(r@) == table_array_spec(value@, key@),
{
    let empty = || -> (e: Vec<String>)
        ensures
            views(e@) == Seq::<Seq<char>>::empty(),
        {
            let e: Vec<String> = Vec::new();
            assert(views(e@) =~= Seq::<Seq<char>>::empty());
            e
        };
    let k = chars_of(key);
    let start = match find_from_exec(value, &k, 0) {
        None => return empty(),
        Some(st) => st,
    };
    let tail = sub_chars(value, start + k.len(), value.len());
    assert(tail@ =~= value@.skip(start + key@.len()));
    let eq = match find_char_exec(&tail, '=', 0) {
        None => return empty(),
        Some(e) => e,
    };
    let t = sub_chars(&tail, eq + 1, tail.len());
    assert(t@ =~= tail@.skip(eq + 1));
    let w = skip_ws_exec(&t, 0);
    let t2 = sub_chars(&t, w, t.len());
    assert(t2@ =~= t@.skip(w as int));
    if !(t2.len() > 0 && t2[0] == '[') {
        return empty();
    }
    let end = match find_char_exec(&t2, ']', 0) {
        None => return empty(),
        Some(e) => e,
    };
    let arr = sub_chars(&t2, 0, end + 1);
    assert(arr@ =~= t2@.take(end + 1));
    parse_array(&arr)
}

/// A dependency declaration.
fn parse_dependency_spec(value: &Vec<char>) -> (r: DependencySpec)
    ensures
        r@ == dependency_spec_of(value@),
{
    let w = skip_ws_exec(value, 0);
    let ghost t = value@.skip(w as int);
    if !(w < value.len() && value[w] == '{') {
        proof {
            if t.len() > 0 {
                assert(t[0] == value@[w as int]);
            }
        }
        return DependencySpec::default();
    }
    assert(t[0] == value@[w as int]);
    DependencySpec {
        optional: table_bool(value, "optional"),
        features: table_array(value, "features"),
        workspace: table_bool(value, "workspace"),
    }
}

/// Whether `v` spells `s`.
fn spells(v: &Vec<char>, s: &str) -> (r: bool)
    ensures
        r == (v@ == s@),
{
    crate::analysis::chars_eq(v, s)
}

/// Whether `v` ends with `s`.
fn ends_with_exec(v: &Vec<char>, s: &str) -> (r: bool)
    ensures
        r == ends_with(v@, s@),
{
    let p = chars_of(s);
    if p.len() > v.len() {
        return false;
    }
    let r = crate::text::occurs_at_exec(v, &p, v.len() - p.len());
    assert(v@.subrange(v.len() - p.len(), v.len() as int) =~= v@.skip(v.len() - p.len()));
    r
}

/// Whether a section header names a dependency table.
fn is_dependency_section(section: &Vec<char>) -> (r: bool)
    ensures
        r == is_dependency_section_spec(section@),
{
    spells(section, "dependencies") || spells(section, "dev-dependencies") || spells(
        section,
        "build-dependencies",
    ) || ends_with_exec(section, ".dependencies") || ends_with_exec(section, ".dev-dependencies")
        || ends_with_exec(section, ".build-dependencies")
}

/// Parses the manifest subset that feature analysis needs. Lines that do not
/// fit the subset are skipped.
pub fn parse_manifest(raw: &str) -> (r: ParsedManifest)
    ensures
        r@ == parse_manifest_spec(raw@),
{
    let chars = chars_of(raw);
    let all_lines = lines_exec(&chars);
    let ghost ls = all_lines@.map_values(|x: Vec<char>| x@);
    let mut parsed = ParsedManifest::default();
    let mut section: Vec<char> = Vec::new();
    let mut i: usize = 0;
    while i < all_lines.len()
        invariant
            i <= all_lines.len(),
            ls == all_lines@.map_values(|x: Vec<char>| x@),
            ls == lines(raw@),
            manifest_after(ls, i as int) == (ManifestParse { m: parsed@, section: section@ }),
        decreases all_lines.len() - i,
    {
        let ghost st = ManifestParse { m: parsed@, section: section@ };
        let ghost pm = parsed@;
        assert(manifest_after(ls, i + 1) == manifest_step(st, ls[i as int]));
        let line = trim_exec(&strip_comment(&all_lines[i]));
        if line.len() == 0 {
            i = i + 1;
            continue;
        }
        if line[0] == '[' && line[line.len() - 1] == ']' {
            section = trim_ends(&line, '[', ']', '[', ']');
            i = i + 1;
            continue;
        }
        let eq = match find_char_exec(&line, '=', 0) {
            None => {
                i = i + 1;
                continue;
            },
            Some(e) => e,
        };
        let key_raw = trim_exec(&sub_chars(&line, 0, eq));
        assert(line@.subrange(0, eq as int) =~= line@.take(eq as int));
        let key_chars = trim_ends(&key_raw, '"', '"', '"', '"');
        let value = trim_exec(&sub_chars(&line, eq + 1, line.len()));
        assert(line@.subrange(eq + 1, line@.len() as int) =~= line@.skip(eq + 1));
        let key = string_of_all(&key_chars);
        if spells(&section, "package") && spells(&key_chars, "name") {
            parsed.package_name = parse_string(&value);
        } else if spells(&section, "features") {
            let values = parse_array(&value);
            if spells(&key_chars, "default") {
                let copy = values.clone();
                assert(views(copy@) =~= views(values@));
                parsed.default_features = copy;
            }
            let ghost before = list_map_view(parsed.features);
            let ghost vv = views(values@);
            parsed.features.insert(key, values);
            assert(list_map_view(parsed.features) =~= before.insert(key_chars@, vv));
        } else if spells(&section, "workspace.dependencies") {
            let spec = parse_dependency_spec(&value);
            let ghost before = spec_map_view(parsed.workspace_dependencies);
            let ghost sv = spec@;
            parsed.workspace_dependencies.insert(key, spec);
            assert(spec_map_view(parsed.workspace_dependencies) =~= before.insert(key_chars@, sv));
        } else if is_dependency_section(&section) {
            let spec = parse_dependency_spec(&value);
            if spec.optional {
                let ghost before = parsed.optional_dependencies@.to_set();
                parsed.optional_dependencies.insert(string_of_all(&key_chars));
            }
            if spec.features.len() > 0 {
                let ghost before = list_map_view(parsed.dependency_features);
                let copy = spec.features.clone();
                assert(views(copy@) =~= views(spec.features@));
                parsed.dependency_features.insert(string_of_all(&key_chars), copy);
                assert(list_map_view(parsed.dependency_features) =~= before.insert(
                    key_chars@,
                    views(spec.features@),
                ));
            }
            if spec.workspace {
                parsed.inherited_workspace_dependencies.insert(key);
            }
        }
        proof {
            assert(parsed@ == manifest_step(st, ls[i as int]).m);
        }
        i = i + 1;
    }
    assert(ls.len() == all_lines.len());
    parsed
}

/// The features of an inherited dependency: the member's own request and
/// the workspace declaration's, together.
pub open spec fn merged_features(
    m: ManifestView,
    ws: Map<Seq<char>, DependencySpecView>,
    d: Seq<char>,
) -> Set<Seq<char>> {
    (if m.dependency_features.contains_key(d) {
        m.dependency_features[d].to_set()
    } else {
        Set::empty()
    }) + ws[d].features.to_set()
}

/// Whether `d` is inherited from a workspace declaration that exists.
pub open spec fn hydrated_dep(m: ManifestView, ws: Map<Seq<char>, DependencySpecView>, d: Seq<char>) -> bool {
    m.inherited_workspace_dependencies.contains(d) && ws.contains_key(d)
}

/// `after` is `before` with inherited dependencies completed from the
/// workspace declarations `ws`: an optional declaration makes the dependency
/// optional, and the requested features are the union of both, sorted.
pub open spec fn hydrates(
    before: ManifestView,
    after: ManifestView,
    ws: Map<Seq<char>, DependencySpecView>,
) -> bool {
    &&& after.package_name == before.package_name
    &&& after.features == before.features
    &&& after.default_features == before.default_features
    &&& after.workspace_dependencies == before.workspace_dependencies
    &&& after.inherited_workspace_dependencies == before.inherited_workspace_dependencies
    &&& forall|d: Seq<char>|
        #[trigger] after.optional_dependencies.contains(d) <==> (before.optional_dependencies.contains(d)
            || (hydrated_dep(before, ws, d) && ws[d].optional))
    &&& forall|d: Seq<char>|
        #[trigger] after.dependency_features.contains_key(d) <==> (
        before.dependency_features.contains_key(d) || (hydrated_dep(before, ws, d)
            && merged_features(before, ws, d) != Set::<Seq<char>>::empty()))
    &&& forall|d: Seq<char>|
        hydrated_dep(before, ws, d) && merged_features(before, ws, d) != Set::<Seq<char>>::empty()
            ==> sorted_strict(#[trigger] after.dependency_features[d])
            && after.dependency_features[d].to_set() == merged_features(before, ws, d)
    &&& forall|d: Seq<char>|
        !(hydrated_dep(before, ws, d) && merged_features(before, ws, d) != Set::<Seq<char>>::empty())
            && before.dependency_features.contains_key(d)
            ==> #[trigger] after.dependency_features[d] == before.dependency_features[d]
}

/// Completes inherited dependencies (`workspace = true`) from the workspace
/// manifest's `[workspace.dependencies]`.
pub fn hydrate_workspace_dependencies(
    parsed: &mut ParsedManifest,
    workspace_dependencies: &StrMap<DependencySpec>,
)
    ensures
        hydrates(old(parsed)@, final(parsed)@, spec_map_view(*workspace_dependencies)),
{
    let ghost start = parsed@;
    let ghost ws = spec_map_view(*workspace_dependencies);
    let inherited = parsed.inherited_workspace_dependencies.to_vec();
    parsed.inherited_workspace_dependencies.sorted_ensures();
    let ghost inh = views(inherited@);
    proof {
        crate::collections::lemma_sorted_no_duplicates(inh);
    }
    let mut i: usize = 0;
    while i < inherited.len()
        invariant
            i <= inherited.len(),
            inh == views(inherited@),
            inh.no_duplicates(),
            inh.to_set() == start.inherited_workspace_dependencies,
            ws == spec_map_view(*workspace_dependencies),
            parsed@.package_name == start.package_name,
            parsed@.features == start.features,
            parsed@.default_features == start.default_features,
            parsed@.workspace_dependencies == start.workspace_dependencies,
            parsed@.inherited_workspace_dependencies == start.inherited_workspace_dependencies,
            forall|d: Seq<char>|
                #[trigger] parsed@.optional_dependencies.contains(d) <==> (
                start.optional_dependencies.contains(d) || (inh.take(i as int).contains(d)
                    && hydrated_dep(start, ws, d) && ws[d].optional)),
            forall|d: Seq<char>|
                #[trigger] parsed@.dependency_features.contains_key(d) <==> (
                start.dependency_features.contains_key(d) || (inh.take(i as int).contains(d)
                    && hydrated_dep(start, ws, d) && merged_features(start, ws, d) != Set::<
                    Seq<char>,
                >::empty())),
            forall|d: Seq<char>|
                inh.take(i as int).contains(d) && hydrated_dep(start, ws, d) && merged_features(
                    start,
                    ws,
                    d,
                ) != Set::<Seq<char>>::empty() ==> sorted_strict(
                    #[trigger] parsed@.dependency_features[d],
                ) && parsed@.dependency_features[d].to_set() == merged_features(start, ws, d),
            forall|d: Seq<char>|
                !(inh.take(i as int).contains(d) && hydrated_dep(start, ws, d) && merged_features(
                    start,
                    ws,
                    d,
                ) != Set::<Seq<char>>::empty()) && start.dependency_features.contains_key(d)
                    ==> #[trigger] parsed@.dependency_features[d]
                    == start.dependency_features[d],
        decreases inherited.len() - i,
    {
        let dependency = &inherited[i];
        let ghost d = dependency@;
        let ghost pre = parsed@;
        proof {
            assert(inh.take(i + 1) =~= inh.take(i as int).push(d));
            assert(!inh.take(i as int).contains(d)) by {
                if inh.take(i as int).contains(d) {
                    let k = choose|k: int| 0 <= k < i && inh[k] == d;
                    assert(inh[i as int] == d);
                }
            }
            assert(inh[i as int] == d);
            assert(inh.to_set().contains(d));
            let tp = inh.take(i + 1);
            let t0 = inh.take(i as int);
            assert forall|x: Seq<char>| #[trigger] tp.contains(x) == (t0.contains(x) || x == d) by {
                if tp.contains(x) {
                    let k = choose|k: int| #![trigger tp[k]] 0 <= k < tp.len() && tp[k] == x;
                    if k < i {
                        assert(t0[k] == x);
                    }
                }
                if t0.contains(x) {
                    let k = choose|k: int| #![trigger t0[k]] 0 <= k < t0.len() && t0[k] == x;
                    assert(tp[k] == x);
                }
                if x == d {
                    assert(tp[i as int] == x);
                }
            }
        }
        match workspace_dependencies.get(dependency.as_str()) {
            None => {
                proof {
                    assert(!ws.contains_key(d));
                }
            },
            Some(workspace_spec) => {
                proof {
                    assert(ws.contains_key(d) && ws[d] == workspace_spec@);
                    assert(hydrated_dep(start, ws, d));
                }
                let ghost pre_opt = parsed@.optional_dependencies;
                if workspace_spec.optional {
                    parsed.optional_dependencies.insert(dependency.clone());
                }
                proof {
                    assert forall|x: Seq<char>| #[trigger] parsed@.optional_dependencies.contains(x) <==> (
                        start.optional_dependencies.contains(x) || (inh.take(i + 1).contains(x)
                        && hydrated_dep(start, ws, x) && ws[x].optional)) by {
                        if x == d {
                            assert(pre_opt.contains(x) ==> start.optional_dependencies.contains(x) || (inh.take(i as int).contains(x)));
                        }
                    }
                }
                let mut all: Vec<String> = match parsed.dependency_features.get(dependency.as_str()) {
                    Some(existing) => {
                        let c = existing.clone();
                        assert(views(c@) =~= views(existing@));
                        c
                    },
                    None => Vec::new(),
                };
                let ghost own = views(all@);
                proof {
                    assert(!pre.dependency_features.contains_key(d) ==> own =~= Seq::<Seq<char>>::empty());
                    assert(pre.dependency_features.contains_key(d) ==> pre.dependency_features[d] == start.dependency_features[d]);
                    assert(pre.dependency_features.contains_key(d) == start.dependency_features.contains_key(d));
                }
                let mut extra = workspace_spec.features.clone();
                assert(views(extra@) =~= views(workspace_spec.features@));
                all.append(&mut extra);
                let merged = StrSet::from_vec(all);
                proof {
                    assert(views(all@) =~= own + ws[d].features);
                    assert forall|f: Seq<char>| #[trigger] merged@.to_set().contains(f) == merged_features(start, ws, d).contains(f) by {
                        let both = own + ws[d].features;
                        if both.contains(f) {
                            let j = choose|j: int| 0 <= j < both.len() && both[j] == f;
                            if j < own.len() {
                                assert(own.contains(f));
                            } else {
                                assert(ws[d].features[j - own.len()] == f);
                            }
                        }
                        if own.contains(f) {
                            let j = choose|j: int| 0 <= j < own.len() && own[j] == f;
                            assert(both[j] == f);
                        }
                        if ws[d].features.contains(f) {
                            let j = choose|j: int| 0 <= j < ws[d].features.len() && ws[d].features[j] == f;
                            assert(both[own.len() + j] == f);
                        }
                    }
                    assert(merged@.to_set() =~= merged_features(start, ws, d));
                }
                if !merged.is_empty() {
                    let value = merged.to_vec();
                    let ghost before = list_map_view(parsed.dependency_features);
                    parsed.dependency_features.insert(dependency.clone(), value);
                    proof {
                        assert(list_map_view(parsed.dependency_features) =~= before.insert(d, merged@));
                        assert(merged@.len() > 0);
                        assert(merged@.to_set().contains(merged@[0]));
                    }
                } else {
                    proof {
                        assert(merged_features(start, ws, d) =~= Set::<Seq<char>>::empty());
                    }
                }
            },
        }
        i = i + 1;
    }
    proof {
        assert(inh.take(inherited.len() as int) =~= inh);
        assert forall|d: Seq<char>| hydrated_dep(start, ws, d) implies inh.contains(d) by {
            assert(inh.to_set().contains(d));
        }
    }
}

} // verus!
