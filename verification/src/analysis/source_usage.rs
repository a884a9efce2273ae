//! Feature names that Rust source text tests with `#[cfg(..)]` or `cfg!(..)`.
//!
//! The scanner walks the text character by character. Line comments, block
//! comments and string literals are skipped as a whole. At a `#[cfg(` or a
//! `cfg!(` the balanced parenthesised group is read, and every
//! `feature = "name"` inside it whose name is made of ASCII letters, digits,
//! `-`, `_` and `.` is collected. Walking past any other character, ASCII or
//! not, moves one character on.
use vstd::prelude::*;

use crate::collections::{lemma_concat_to_set, str_eq, StrSet};
use crate::text::{
    chars_of, find_char_exec, find_char_from, find_from, find_from_exec, is_ascii_alnum,
    is_ascii_alnum_exec, lemma_find_char_from, lemma_find_from, occurs_at, skip_ws, skip_ws_exec,
    starts_with_at, string_of,
};

verus! {

/// Where a string literal whose body starts at `j` ends: one past its
/// closing quote, or the end of the text. `escaped` says that the previous
/// character was an unescaped backslash.
pub open spec fn string_end(s: Seq<char>, j: int, escaped: bool) -> int
    decreases s.len() - j,
{
    if j < 0 || j >= s.len() {
        s.len() as int
    } else if escaped {
        string_end(s, j + 1, false)
    } else if s[j] == '\\' {
        string_end(s, j + 1, true)
    } else if s[j] == '"' {
        j + 1
    } else {
        string_end(s, j + 1, false)
    }
}

/// Where the comment or string literal that starts at `i` ends, if one does.
pub open spec fn skip_end(s: Seq<char>, i: int) -> Option<int> {
    if occurs_at(s, "//"@, i) {
        match find_char_from(s, '\n', i) {
            Some(k) => Some(k + 1),
            None => Some(s.len() as int),
        }
    } else if occurs_at(s, "/*"@, i) {
        match find_from(s, "*/"@, i) {
            Some(e) => Some(e + 2),
            None => Some(s.len() as int),
        }
    } else if 0 <= i < s.len() && s[i] == '"' {
        Some(string_end(s, i + 1, false))
    } else {
        None
    }
}

/// Reads a parenthesised group from position `j` on: `depth` open
/// parentheses are pending, `started` says whether the first one was seen,
/// and `inside` is the text collected so far. The result is the text between
/// the outermost parentheses and the position after the closing one.
pub open spec fn group(s: Seq<char>, j: int, depth: int, started: bool, inside: Seq<char>) -> Option<(Seq<char>, int)>
    decreases s.len() - j,
{
    if j < 0 || j >= s.len() {
        None
    } else if s[j] == '(' {
        group(s, j + 1, depth + 1, true, if depth + 1 > 1 { inside.push('(') } else { inside })
    } else if !started {
        group(s, j + 1, depth, started, inside)
    } else if s[j] == ')' {
        if depth - 1 == 0 {
            Some((inside, j + 1))
        } else {
            group(s, j + 1, depth - 1, started, inside.push(')'))
        }
    } else {
        group(s, j + 1, depth, started, inside.push(s[j]))
    }
}

/// The balanced group that starts at `j`.
pub open spec fn balanced_group(s: Seq<char>, j: int) -> Option<(Seq<char>, int)> {
    group(s, j, 0, false, Seq::empty())
}

/// The word that introduces a feature test.
pub open spec fn feature_word() -> Seq<char> {
    seq!['f', 'e', 'a', 't', 'u', 'r', 'e']
}

/// A character that a collected feature name may hold.
pub open spec fn feature_name_char(c: char) -> bool {
    is_ascii_alnum(c) || c == '-' || c == '_' || c == '.'
}

/// A non-empty name of feature name characters.
pub open spec fn valid_feature_name(c: Seq<char>) -> bool {
    c.len() > 0 && forall|m: int| 0 <= m < c.len() ==> feature_name_char(#[trigger] c[m])
}

/// The feature names that `feature = "name"` tests give in `e` from position
/// `p` on, in order of appearance.
pub open spec fn cfg_names(e: Seq<char>, p: int) -> Seq<Seq<char>>
    decreases e.len() - p,
{
    if p < 0 {
        Seq::empty()
    } else {
        match find_from(e, feature_word(), p) {
            None => Seq::empty(),
            Some(k) => {
                proof {
                    lemma_find_from(e, feature_word(), p);
                }
                let q = k + 7;
                let t = skip_ws(e, q);
                if t < e.len() && e[t] == '=' {
                    let u = skip_ws(e, t + 1);
                    if u < e.len() && e[u] == '"' {
                        match find_char_from(e, '"', u + 1) {
                            Some(c) => {
                                proof {
                                    lemma_find_char_from(e, '"', u + 1);
                                    crate::text::lemma_ws_prefix_len_bounds(e, q);
                                    crate::text::lemma_ws_prefix_len_bounds(e, t + 1);
                                }
                                let cand = e.subrange(u + 1, c);
                                (if valid_feature_name(cand) {
                                    seq![cand]
                                } else {
                                    Seq::empty()
                                }) + cfg_names(e, c + 1)
                            },
                            None => cfg_names(e, q),
                        }
                    } else {
                        cfg_names(e, q)
                    }
                } else {
                    cfg_names(e, q)
                }
            },
        }
    }
}

/// The feature names collected from position `i` on, in order.
pub open spec fn refs_from(s: Seq<char>, i: int) -> Seq<Seq<char>>
    decreases s.len() - i,
{
    if i < 0 || i >= s.len() {
        Seq::empty()
    } else {
        proof {
            lemma_skip_end(s, i);
            lemma_group(s, i + 5, 0, false, Seq::empty());
            lemma_group(s, i + 4, 0, false, Seq::empty());
        }
        match skip_end(s, i) {
            Some(n) => refs_from(s, n),
            None => {
                let g = if occurs_at(s, "#[cfg("@, i) {
                    balanced_group(s, i + 5)
                } else {
                    None
                };
                match g {
                    Some((inside, n)) => cfg_names(inside, 0) + refs_from(s, n),
                    None => {
                        let h = if occurs_at(s, "cfg!("@, i) {
                            balanced_group(s, i + 4)
                        } else {
                            None
                        };
                        match h {
                            Some((inside, n)) => cfg_names(inside, 0) + refs_from(s, n),
                            None => refs_from(s, i + 1),
                        }
                    },
                }
            },
        }
    }
}

/// The feature names that the text `s` tests.
pub open spec fn feature_references(s: Seq<char>) -> Set<Seq<char>> {
    refs_from(s, 0).to_set()
}

pub proof fn lemma_string_end(s: Seq<char>, j: int, escaped: bool)
    requires
        0 <= j <= s.len(),
    ensures
        j <= string_end(s, j, escaped) <= s.len(),
    decreases s.len() - j,
{
    if j < s.len() {
        lemma_string_end(s, j + 1, true);
        lemma_string_end(s, j + 1, false);
    }
}

pub proof fn lemma_skip_end(s: Seq<char>, i: int)
    requires
        0 <= i < s.len(),
    ensures
        skip_end(s, i) matches Some(n) ==> i < n <= s.len(),
{
    reveal_strlit("*/");
    lemma_find_char_from(s, '\n', i);
    lemma_find_from(s, "*/"@, i);
    lemma_string_end(s, i + 1, false);
}

pub proof fn lemma_group(s: Seq<char>, j: int, depth: int, started: bool, inside: Seq<char>)
    ensures
        group(s, j, depth, started, inside) matches Some((_, n)) ==> j < n <= s.len(),
    decreases s.len() - j,
{
    if 0 <= j < s.len() {
        lemma_group(s, j + 1, depth + 1, true, if depth + 1 > 1 { inside.push('(') } else { inside });
        lemma_group(s, j + 1, depth, started, inside);
        lemma_group(s, j + 1, depth - 1, started, inside.push(')'));
        lemma_group(s, j + 1, depth, started, inside.push(s[j]));
    }
}

/// Position after the string literal whose body starts at `j`.
fn string_end_exec(s: &Vec<char>, j: usize) -> (r: usize)
    requires
        j <= s.len(),
    ensures
        r == string_end(s@, j as int, false),
{
    let mut k = j;
    let mut escaped = false;
    while k < s.len()
        invariant
            j <= k <= s.len(),
            string_end(s@, k as int, escaped) == string_end(s@, j as int, false),
        decreases s.len() - k,
    {
        if escaped {
            escaped = false;
        } else if s[k] == '\\' {
            escaped = true;
        } else if s[k] == '"' {
            return k + 1;
        }
        k = k + 1;
    }
    s.len()
}

/// Where the comment or string literal at `i` ends, if one starts there.
fn skip_non_code(s: &Vec<char>, i: usize) -> (r: Option<usize>)
    requires
        i < s.len(),
    ensures
        r matches Some(n) ==> skip_end(s@, i as int) == Some(n as int),
        r is None ==> skip_end(s@, i as int) is None,
{
    if starts_with_at(s, "//", i) {
        match find_char_exec(s, '\n', i) {
            Some(k) => Some(k + 1),
            None => Some(s.len()),
        }
    } else if starts_with_at(s, "/*", i) {
        let close = chars_of("*/");
        match find_from_exec(s, &close, i) {
            Some(e) => {
                proof {
                    reveal_strlit("*/");
                }
                Some(e + 2)
            },
            None => Some(s.len()),
        }
    } else if s[i] == '"' {
        Some(string_end_exec(s, i + 1))
    } else {
        None
    }
}

/// Reads the balanced parenthesised group that starts at `start`.
fn read_balanced_group(s: &Vec<char>, start: usize) -> (r: Option<(Vec<char>, usize)>)
    requires
        start <= s.len(),
    ensures
        r matches Some((inside, n)) ==> balanced_group(s@, start as int) == Some((inside@, n as int)),
        r is None ==> balanced_group(s@, start as int) is None,
{
    let mut depth: usize = 0;
    let mut started = false;
    let mut inside: Vec<char> = Vec::new();
    let mut j = start;
    while j < s.len()
        invariant
            start <= j <= s.len(),
            depth <= j - start,
            started ==> depth >= 1,
            !started ==> depth == 0,
            group(s@, j as int, depth as int, started, inside@) == balanced_group(s@, start as int),
        decreases s.len() - j,
    {
        let c = s[j];
        if c == '(' {
            depth = depth + 1;
            started = true;
            if depth > 1 {
                inside.push(c);
            }
        } else if !started {
        } else if c == ')' {
            depth = depth - 1;
            if depth == 0 {
                return Some((inside, j + 1));
            }
            inside.push(c);
        } else {
            inside.push(c);
        }
        j = j + 1;
    }
    None
}

/// Whether `v[from..to]` is a valid feature name.
fn is_feature_name(v: &Vec<char>, from: usize, to: usize) -> (r: bool)
    requires
        from <= to <= v.len(),
    ensures
        r == valid_feature_name(v@.subrange(from as int, to as int)),
{
    let ghost c = v@.subrange(from as int, to as int);
    if from == to {
        return false;
    }
    let mut k = from;
    while k < to
        invariant
            from <= k <= to <= v.len(),
            c == v@.subrange(from as int, to as int),
            forall|m: int| 0 <= m < k - from ==> feature_name_char(#[trigger] c[m]),
        decreases to - k,
    {
        let ch = v[k];
        if !(is_ascii_alnum_exec(ch) || ch == '-' || ch == '_' || ch == '.') {
            assert(!feature_name_char(c[k - from]));
            return false;
        }
        k = k + 1;
    }
    true
}

/// Adds the names that the `feature = "name"` tests of `e` give.
fn collect_cfg_features(e: &Vec<char>, features: &mut StrSet)
    ensures
        final(features)@.to_set() == old(features)@.to_set() + cfg_names(e@, 0).to_set(),
{
    let word = chars_of("feature");
    proof {
        reveal_strlit("feature");
        assert(word@ =~= feature_word());
    }
    let ghost start = features@.to_set();
    let mut p: usize = 0;
    loop
        invariant
            p <= e.len(),
            word@ == feature_word(),
            features@.to_set() + cfg_names(e@, p as int).to_set() == start + cfg_names(e@, 0).to_set(),
        ensures
            features@.to_set() == start + cfg_names(e@, 0).to_set(),
        decreases e.len() - p,
    {
        let ghost before = features@.to_set();
        proof {
            lemma_find_from(e@, feature_word(), p as int);
        }
        match find_from_exec(e, &word, p) {
            None => {
                proof {
                    assert(cfg_names(e@, p as int) =~= Seq::<Seq<char>>::empty());
                    assert(start + cfg_names(e@, 0).to_set() =~= features@.to_set());
                }
                break;
            },
            Some(k) => {
                let q = k + 7;
                let t = skip_ws_exec(e, q);
                let mut next = q;
                if t < e.len() && e[t] == '=' {
                    let u = skip_ws_exec(e, t + 1);
                    if u < e.len() && e[u] == '"' {
                        match find_char_exec(e, '"', u + 1) {
                            Some(c) => {
                                proof {
                                    lemma_find_char_from(e@, '"', u + 1);
                                }
                                let ghost cand = e@.subrange(u + 1, c as int);
                                let ghost here: Seq<Seq<char>> = if valid_feature_name(cand) {
                                    seq![cand]
                                } else {
                                    Seq::empty()
                                };
                                if is_feature_name(e, u + 1, c) {
                                    let name = string_of(e, u + 1, c);
                                    features.insert(name);
                                }
                                proof {
                                    assert(cfg_names(e@, p as int) == here + cfg_names(e@, c + 1));
                                    lemma_concat_to_set(here, cfg_names(e@, c + 1));
                                    if valid_feature_name(cand) {
                                        assert(here =~= Seq::<Seq<char>>::empty().push(cand));
                                        Seq::<Seq<char>>::empty().lemma_push_to_set_commute(cand);
                                        assert(Seq::<Seq<char>>::empty().to_set() =~= Set::<Seq<char>>::empty());
                                        assert(here.to_set() =~= set![cand]);
                                    } else {
                                        assert(here.to_set() =~= Set::<Seq<char>>::empty());
                                    }
                                    assert(features@.to_set() =~= before + here.to_set());
                                    assert(features@.to_set() + cfg_names(e@, c + 1).to_set()
                                        =~= before + cfg_names(e@, p as int).to_set());
                                }
                                next = c + 1;
                            },
                            None => {},
                        }
                    }
                }
                p = next;
            },
        }
    }
}

/// The feature names that the Rust source text `raw` tests, by
/// `#[cfg(..)]` attributes and `cfg!(..)` calls outside comments and string
/// literals.
pub fn extract_feature_references(raw: &str) -> (r: StrSet)
    ensures
        r@.to_set() == feature_references(raw@),
        forall|x: Seq<char>| r@.contains(x) ==> valid_feature_name(x),
{
    let s = chars_of(raw);
    let mut set = StrSet::new();
    let ghost mut acc: Seq<Seq<char>> = Seq::empty();
    let mut i: usize = 0;
    proof {
        reveal_strlit("#[cfg(");
        reveal_strlit("cfg!(");
        assert(set@.to_set() =~= acc.to_set());
        assert(acc + refs_from(s@, 0) =~= refs_from(s@, 0));
    }
    while i < s.len()
        invariant
            i <= s.len(),
            s@ == raw@,
            set@.to_set() == acc.to_set(),
            refs_from(s@, 0) == acc + refs_from(s@, i as int),
        decreases s.len() - i,
    {
        proof {
            lemma_skip_end(s@, i as int);
            reveal_strlit("#[cfg(");
            reveal_strlit("cfg!(");
        }
        match skip_non_code(&s, i) {
            Some(n) => {
                i = n;
            },
            None => {
                let mut step: Option<(Vec<char>, usize)> = None;
                if starts_with_at(&s, "#[cfg(", i) {
                    step = read_balanced_group(&s, i + 5);
                    proof {
                        lemma_group(s@, i + 5, 0, false, Seq::empty());
                    }
                }
                if step.is_none() && starts_with_at(&s, "cfg!(", i) {
                    step = read_balanced_group(&s, i + 4);
                    proof {
                        lemma_group(s@, i + 4, 0, false, Seq::empty());
                    }
                }
                match step {
                    Some((inside, n)) => {
                        let ghost names = cfg_names(inside@, 0);
                        collect_cfg_features(&inside, &mut set);
                        proof {
                            assert(refs_from(s@, i as int) == names + refs_from(s@, n as int));
                            lemma_concat_to_set(acc, names);
                            assert(acc + (names + refs_from(s@, n as int)) =~= (acc + names) + refs_from(
                                s@,
                                n as int,
                            ));
                            acc = acc + names;
                        }
                        i = n;
                    },
                    None => {
                        proof {
                            assert(refs_from(s@, i as int) == refs_from(s@, i + 1));
                        }
                        i = i + 1;
                    },
                }
            },
        }
    }
    proof {
        assert(acc + Seq::<Seq<char>>::empty() =~= acc);
        lemma_references_valid(raw@, 0);
        assert forall|x: Seq<char>| set@.contains(x) implies valid_feature_name(x) by {
            assert(set@.to_set().contains(x));
            assert(acc.to_set().contains(x));
            let k = choose|k: int| 0 <= k < acc.len() && acc[k] == x;
            assert(refs_from(s@, 0)[k] == x);
        }
    }
    set
}

/// Every name that a `feature = "name"` scan collects is a valid name.
pub proof fn lemma_cfg_names_valid(e: Seq<char>, p: int)
    ensures
        forall|k: int| 0 <= k < cfg_names(e, p).len() ==> valid_feature_name(#[trigger] cfg_names(e, p)[k]),
    decreases e.len() - p,
{
    if p >= 0 {
        lemma_find_from(e, feature_word(), p);
        if let Some(k) = find_from(e, feature_word(), p) {
            let q = k + 7;
            crate::text::lemma_ws_prefix_len_bounds(e, q);
            let t = skip_ws(e, q);
            lemma_cfg_names_valid(e, q);
            let mut done = false;
            if t < e.len() && e[t] == '=' {
                crate::text::lemma_ws_prefix_len_bounds(e, t + 1);
                let u = skip_ws(e, t + 1);
                if u < e.len() && e[u] == '"' {
                    lemma_find_char_from(e, '"', u + 1);
                    if let Some(c) = find_char_from(e, '"', u + 1) {
                        lemma_cfg_names_valid(e, c + 1);
                        let cand = e.subrange(u + 1, c);
                        let here: Seq<Seq<char>> = if valid_feature_name(cand) {
                            seq![cand]
                        } else {
                            Seq::empty()
                        };
                        let rest = cfg_names(e, c + 1);
                        assert(cfg_names(e, p) == here + rest);
                        assert forall|m: int| 0 <= m < (here + rest).len() implies valid_feature_name(
                            #[trigger] (here + rest)[m],
                        ) by {
                            if m >= here.len() {
                                assert((here + rest)[m] == rest[m - here.len()]);
                            }
                        }
                        done = true;
                    }
                }
            }
            if !done {
                assert(cfg_names(e, p) == cfg_names(e, q));
            }
        }
    }
}

/// Every feature name that the walk collects is a valid name.
pub proof fn lemma_references_valid(s: Seq<char>, i: int)
    ensures
        forall|k: int| 0 <= k < refs_from(s, i).len() ==> valid_feature_name(#[trigger] refs_from(s, i)[k]),
    decreases s.len() - i,
{
    if 0 <= i < s.len() {
        lemma_skip_end(s, i);
        lemma_group(s, i + 5, 0, false, Seq::empty());
        lemma_group(s, i + 4, 0, false, Seq::empty());
        match skip_end(s, i) {
            Some(n) => {
                lemma_references_valid(s, n);
                assert(refs_from(s, i) == refs_from(s, n));
            },
            None => {
                if i + 1 <= s.len() {
                    lemma_references_valid(s, i + 1);
                }
                if let Some((inside, n)) = balanced_group(s, i + 5) {
                    lemma_references_valid(s, n);
                    lemma_cfg_names_valid(inside, 0);
                }
                if let Some((inside, n)) = balanced_group(s, i + 4) {
                    lemma_references_valid(s, n);
                    lemma_cfg_names_valid(inside, 0);
                }
                let r = refs_from(s, i);
                {
                    assert forall|k: int| 0 <= k < r.len() implies valid_feature_name(#[trigger] r[k]) by {
                        let g = if occurs_at(s, "#[cfg("@, i) { balanced_group(s, i + 5) } else { None };
                        let h = if occurs_at(s, "cfg!("@, i) { balanced_group(s, i + 4) } else { None };
                        if let Some((inside, n)) = g {
                            let c = cfg_names(inside, 0);
                            assert(r == c + refs_from(s, n));
                            if k >= c.len() {
                                assert(r[k] == refs_from(s, n)[k - c.len()]);
                            } else {
                                assert(r[k] == c[k]);
                            }
                        } else if let Some((inside, n)) = h {
                            let c = cfg_names(inside, 0);
                            assert(r == c + refs_from(s, n));
                            if k >= c.len() {
                                assert(r[k] == refs_from(s, n)[k - c.len()]);
                            } else {
                                assert(r[k] == c[k]);
                            }
                        } else {
                            assert(r == refs_from(s, i + 1));
                            assert(r[k] == refs_from(s, i + 1)[k]);
                        }
                    }
                }
            },
        }
    }
}

/// Where a scanned file stands: library code or test, example and bench code.
#[derive(Debug, Clone, Copy, PartialEq, Eq, Structural)]
pub enum SourceUsageClass {
    Normal,
    Dev,
}

/// The feature names that a package's sources test, split by where they stand.
#[derive(Debug)]
pub struct SourceUsage {
    pub normal_features: StrSet,
    pub dev_features: StrSet,
}

impl SourceUsage {
    /// The names that library code or any other scanned code tests.
    pub fn referenced_features(&self) -> (r: StrSet)
        ensures
            r@.to_set() == self.normal_features@.to_set() + self.dev_features@.to_set(),
    {
        let mut all = self.normal_features.clone();
        all.extend(&self.dev_features);
        all
    }

    /// Adds the names found in one file of the given class.
    pub fn record(&mut self, class: SourceUsageClass, features: &StrSet)
        ensures
            class == SourceUsageClass::Normal ==> final(self).normal_features@.to_set()
                == old(self).normal_features@.to_set() + features@.to_set(),
            class == SourceUsageClass::Normal ==> final(self).dev_features@ == old(self).dev_features@,
            class == SourceUsageClass::Dev ==> final(self).dev_features@.to_set()
                == old(self).dev_features@.to_set() + features@.to_set(),
            class == SourceUsageClass::Dev ==> final(self).normal_features@ == old(self).normal_features@,
    {
        match class {
            SourceUsageClass::Normal => self.normal_features.extend(features),
            SourceUsageClass::Dev => self.dev_features.extend(features),
        }
    }
}

impl Clone for SourceUsage {
    fn clone(&self) -> (r: Self)
        ensures
            r.normal_features@ == self.normal_features@,
            r.dev_features@ == self.dev_features@,
    {
        SourceUsage { normal_features: self.normal_features.clone(), dev_features: self.dev_features.clone() }
    }
}

impl Default for SourceUsage {
    fn default() -> (r: Self)
        ensures
            r.normal_features@ == Seq::<Seq<char>>::empty(),
            r.dev_features@ == Seq::<Seq<char>>::empty(),
    {
        SourceUsage { normal_features: StrSet::new(), dev_features: StrSet::new() }
    }
}

/// A directory entry the source walk passes over: a hidden name (one that
/// starts with `.`), or a `target` or `.git` entry.
pub open spec fn skipped_name(name: Seq<char>) -> bool {
    (name.len() > 0 && name[0] == '.') || name == "target"@ || name == ".git"@
}

/// Whether the source walk passes over a directory entry of this name.
pub fn is_skipped_entry_name(name: &str) -> (r: bool)
    ensures
        r == skipped_name(name@),
{
    let c = chars_of(name);
    if c.len() > 0 && c[0] == '.' {
        return true;
    }
    str_eq(name, "target") || str_eq(name, ".git")
}

} // verus!
