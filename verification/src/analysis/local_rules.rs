//! The project-local rule file `feature-lens.toml`: a TOML subset of
//! `[[section]]` headers and `key = value` lines, whose values are quoted
//! strings or arrays of quoted strings.
use vstd::prelude::*;

use super::{
    bloat_views, conflict_views, default_rule_views, parse_severity, BloatRule, BloatRuleView,
    ConflictRule, ConflictRuleView, DefaultFeatureRule, DefaultFeatureRuleView, Severity,
    Suggestions,
};
use crate::collections::{str_eq, StrMap};
use crate::json_scan::{json_string_at, json_string_exec, string_items, string_items_exec};
use crate::text::{
    before_char, before_char_exec, chars_of, decimal, decimal_string, ends_with, find_char_exec,
    find_char_from, join, join_strings, lemma_find_char_from, lines, lines_exec, push_str,
    split_char, split_exec, starts_with, string_of_all, sub_chars, trim_exec, trim_seq, views,
};

verus! {

/// What the parser holds between lines.
pub struct LocalState {
    pub conflicts: Seq<ConflictRuleView>,
    pub bloat: Seq<BloatRuleView>,
    pub defaults: Seq<DefaultFeatureRuleView>,
    pub section: Option<Seq<char>>,
    pub pending: Map<Seq<char>, Seq<char>>,
}

/// A comma-separated list: the trimmed, non-empty items.
pub open spec fn split_list(v: Seq<char>) -> Seq<Seq<char>> {
    split_char(v, ',').filter_map(
        |x: Seq<char>|
            if trim_seq(x).len() > 0 {
                Some(trim_seq(x))
            } else {
                None
            },
    )
}

pub open spec fn missing(key: Seq<char>) -> Seq<char> {
    "missing `"@ + key + "`"@
}

/// The severity of the pending rule, or `default` when none is given.
pub open spec fn pending_severity(p: Map<Seq<char>, Seq<char>>, default: Severity) -> Result<
    Severity,
    Seq<char>,
> {
    if p.contains_key("severity"@) {
        match parse_severity(p["severity"@]) {
            Some(s) => Ok(s),
            None => Err("invalid `severity`: "@ + p["severity"@]),
        }
    } else {
        Ok(default)
    }
}

/// The state with no pending keys.
pub open spec fn cleared(st: LocalState) -> LocalState {
    LocalState {
        conflicts: st.conflicts,
        bloat: st.bloat,
        defaults: st.defaults,
        section: st.section,
        pending: Map::empty(),
    }
}

/// Closes the current section: adds the rule its keys describe and clears
/// the keys. Before the first header there is no section and the keys stay.
pub open spec fn flush(st: LocalState) -> Result<LocalState, Seq<char>> {
    let p = st.pending;
    let c = cleared(st);
    match st.section {
        None => Ok(st),
        Some(sec) => if sec == "conflicts"@ {
            if !p.contains_key("crate"@) {
                Err(missing("crate"@))
            } else if !p.contains_key("features"@) {
                Err(missing("features"@))
            } else if !p.contains_key("message"@) {
                Err(missing("message"@))
            } else {
                match pending_severity(p, Severity::Warning) {
                    Err(e) => Err(e),
                    Ok(sv) => Ok(
                        LocalState {
                            conflicts: c.conflicts.push(
                                ConflictRuleView {
                                    crate_name: p["crate"@],
                                    features: split_list(p["features"@]),
                                    severity: sv,
                                    message: p["message"@],
                                },
                            ),
                            ..c
                        },
                    ),
                }
            }
        } else if sec == "bloat"@ {
            if !p.contains_key("crate"@) {
                Err(missing("crate"@))
            } else if !p.contains_key("feature"@) {
                Err(missing("feature"@))
            } else if !p.contains_key("message"@) {
                Err(missing("message"@))
            } else {
                match pending_severity(p, Severity::Info) {
                    Err(e) => Err(e),
                    Ok(sv) => Ok(
                        LocalState {
                            bloat: c.bloat.push(
                                BloatRuleView {
                                    crate_name: p["crate"@],
                                    feature: p["feature"@],
                                    pulls_in: if p.contains_key("pulls_in"@) {
                                        split_list(p["pulls_in"@])
                                    } else {
                                        Seq::empty()
                                    },
                                    severity: sv,
                                    message: p["message"@],
                                },
                            ),
                            ..c
                        },
                    ),
                }
            }
        } else if sec == "default_features.suggest_opt_out"@ {
            if !p.contains_key("crate"@) {
                Err(missing("crate"@))
            } else if !p.contains_key("reason"@) {
                Err(missing("reason"@))
            } else {
                match pending_severity(p, Severity::Info) {
                    Err(e) => Err(e),
                    Ok(sv) => Ok(
                        LocalState {
                            defaults: c.defaults.push(
                                DefaultFeatureRuleView {
                                    crate_name: p["crate"@],
                                    severity: sv,
                                    reason: p["reason"@],
                                },
                            ),
                            ..c
                        },
                    ),
                }
            }
        } else {
            Ok(c)
        },
    }
}

/// An error about line `n`.
pub open spec fn line_err(n: nat, msg: Seq<char>) -> Seq<char> {
    "line "@ + decimal(n) + ": "@ + msg
}

/// The value of a `key = value` line: a quoted string, or an array of
/// quoted strings joined with commas.
pub open spec fn parse_value(value: Seq<char>, n: nat) -> Result<Seq<char>, Seq<char>> {
    if value.len() > 0 && value[0] == '"' {
        match json_string_at(value, 0) {
            None => Err(line_err(n, "malformed string"@)),
            Some((v, _)) => Ok(v),
        }
    } else if value.len() > 0 && value[0] == '[' {
        if value.last() != ']' {
            Err(line_err(n, "malformed array"@))
        } else if string_items(value, 0).len() == 0 && value != "[]"@ {
            Err(line_err(n, "array items must be quoted strings"@))
        } else {
            Ok(join(string_items(value, 0), ","@))
        }
    } else {
        Err(line_err(n, "unsupported value `"@ + value + "`"@))
    }
}

/// One line, numbered `n`.
pub open spec fn step(st: LocalState, raw_line: Seq<char>, n: nat) -> Result<LocalState, Seq<char>> {
    let line = trim_seq(before_char(raw_line, '#'));
    if line.len() == 0 {
        Ok(st)
    } else if starts_with(line, "[["@) && ends_with(line, "]]"@) {
        match flush(st) {
            Err(e) => Err(e + " in section before line "@ + decimal(n)),
            Ok(s2) => Ok(LocalState { section: Some(line.subrange(2, line.len() - 2)), ..s2 }),
        }
    } else {
        match find_char_from(line, '=', 0) {
            None => Err(line_err(n, "expected `key = value`"@)),
            Some(i) => match parse_value(trim_seq(line.skip(i + 1)), n) {
                Err(e) => Err(e),
                Ok(v) => Ok(LocalState { pending: st.pending.insert(trim_seq(line.take(i)), v), ..st }),
            },
        }
    }
}

/// The lines from position `i` on.
pub open spec fn run_lines(ls: Seq<Seq<char>>, i: int, st: LocalState) -> Result<
    LocalState,
    Seq<char>,
>
    decreases ls.len() - i,
{
    if i < 0 || i >= ls.len() {
        Ok(st)
    } else {
        match step(st, ls[i], (i + 1) as nat) {
            Err(e) => Err(e),
            Ok(s2) => run_lines(ls, i + 1, s2),
        }
    }
}

pub open spec fn initial_state() -> LocalState {
    LocalState {
        conflicts: Seq::empty(),
        bloat: Seq::empty(),
        defaults: Seq::empty(),
        section: None,
        pending: Map::empty(),
    }
}

/// The rules of a local rule file, or the first error.
pub open spec fn local_rules(raw: Seq<char>) -> Result<LocalState, Seq<char>> {
    match run_lines(lines(raw), 0, initial_state()) {
        Err(e) => Err(e),
        Ok(st) => flush(st),
    }
}

/// The pending keys as texts.
pub open spec fn pending_view(m: StrMap<String>) -> Map<Seq<char>, Seq<char>> {
    m.as_map().map_values(|s: String| s@)
}

pub open spec fn section_view(s: Option<String>) -> Option<Seq<char>> {
    match s {
        Some(x) => Some(x@),
        None => None,
    }
}

pub open spec fn state_view(out: Suggestions, section: Option<String>, pending: StrMap<String>) -> LocalState {
    LocalState {
        conflicts: conflict_views(out.conflicts@),
        bloat: bloat_views(out.bloat@),
        defaults: default_rule_views(out.default_features@),
        section: section_view(section),
        pending: pending_view(pending),
    }
}

/// The trimmed, non-empty items of a comma-separated list.
fn split_list_exec(v: &str) -> (r: Vec<String>)
    ensures
        views(r@) == split_list(v@),
{
    let chars = chars_of(v);
    let pieces = split_exec(&chars, ',');
    let ghost ps = pieces@.map_values(|x: Vec<char>| x@);
    let mut out: Vec<String> = Vec::new();
    let mut i: usize = 0;
    while i < pieces.len()
        invariant
            i <= pieces.len(),
            ps == pieces@.map_values(|x: Vec<char>| x@),
            ps == split_char(v@, ','),
            views(out@) == ps.take(i as int).filter_map(
                |x: Seq<char>|
                    if trim_seq(x).len() > 0 {
                        Some(trim_seq(x))
                    } else {
                        None
                    },
            ),
        decreases pieces.len() - i,
    {
        let t = trim_exec(&pieces[i]);
        let ghost before = views(out@);
        proof {
            assert(ps.take(i + 1).drop_last() =~= ps.take(i as int));
            assert(ps.take(i + 1).last() == pieces@[i as int]@);
        }
        if t.len() > 0 {
            out.push(string_of_all(&t));
            assert(views(out@) =~= before + seq![t@]);
        }
        i = i + 1;
    }
    assert(ps.take(pieces.len() as int) =~= ps);
    out
}

/// Text of an error message, owned.
fn text(parts: &str) -> (r: String)
    ensures
        r@ == parts@,
{
    let mut r = String::new();
    push_str(&mut r, parts);
    r
}

/// `missing `key``.
fn missing_exec(key: &str) -> (r: String)
    ensures
        r@ == missing(key@),
{
    let mut r = text("missing `");
    push_str(&mut r, key);
    push_str(&mut r, "`");
    r
}

/// The value of a pending key, copied.
fn pending_value(pending: &StrMap<String>, key: &str) -> (r: Option<String>)
    ensures
        r matches Some(v) ==> pending_view(*pending).contains_key(key@) && pending_view(
            *pending,
        )[key@] == v@,
        r is None ==> !pending_view(*pending).contains_key(key@),
{
    match pending.get(key) {
        Some(v) => Some(v.clone()),
        None => None,
    }
}

/// The severity of the pending rule.
fn pending_severity_exec(pending: &StrMap<String>, default: Severity) -> (r: Result<
    Severity,
    String,
>)
    ensures
        r matches Ok(s) ==> pending_severity(pending_view(*pending), default) == Ok::<
            Severity,
            Seq<char>,
        >(s),
        r matches Err(e) ==> pending_severity(pending_view(*pending), default) == Err::<
            Severity,
            Seq<char>,
        >(e@),
{
    match pending_value(pending, "severity") {
        Some(raw) => match Severity::parse(raw.as_str()) {
            Some(s) => Ok(s),
            None => {
                let mut e = text("invalid `severity`: ");
                push_str(&mut e, raw.as_str());
                Err(e)
            },
        },
        None => Ok(default),
    }
}

/// Closes the current section (see `flush`).
fn push_pending(
    section: &Option<String>,
    pending: &mut StrMap<String>,
    out: &mut Suggestions,
) -> (r: Result<(), String>)
    ensures
        r is Ok ==> flush(state_view(*old(out), *section, *old(pending))) == Ok::<
            LocalState,
            Seq<char>,
        >(state_view(*final(out), *section, *final(pending))),
        r matches Err(e) ==> flush(state_view(*old(out), *section, *old(pending))) == Err::<
            LocalState,
            Seq<char>,
        >(e@),
{
    let ghost st = state_view(*out, *section, *pending);
    let sec = match section {
        None => return Ok(()),
        Some(s) => s,
    };
    let ghost p = pending_view(*pending);
    if str_eq(sec.as_str(), "conflicts") {
        let crate_name = match pending_value(pending, "crate") {
            Some(v) => v,
            None => return Err(missing_exec("crate")),
        };
        let features = match pending_value(pending, "features") {
            Some(v) => v,
            None => return Err(missing_exec("features")),
        };
        let message = match pending_value(pending, "message") {
            Some(v) => v,
            None => return Err(missing_exec("message")),
        };
        let severity = pending_severity_exec(pending, Severity::Warning)?;
        let features = split_list_exec(features.as_str());
        let ghost before = conflict_views(out.conflicts@);
        out.conflicts.push(ConflictRule { crate_name, features, severity, message });
        assert(conflict_views(out.conflicts@) =~= before.push(out.conflicts@.last()@));
    } else if str_eq(sec.as_str(), "bloat") {
        let crate_name = match pending_value(pending, "crate") {
            Some(v) => v,
            None => return Err(missing_exec("crate")),
        };
        let feature = match pending_value(pending, "feature") {
            Some(v) => v,
            None => return Err(missing_exec("feature")),
        };
        let message = match pending_value(pending, "message") {
            Some(v) => v,
            None => return Err(missing_exec("message")),
        };
        let pulls_in = match pending_value(pending, "pulls_in") {
            Some(v) => split_list_exec(v.as_str()),
            None => {
                assert(views(Seq::<String>::empty()) =~= Seq::<Seq<char>>::empty());
                Vec::new()
            },
        };
        let severity = pending_severity_exec(pending, Severity::Info)?;
        let ghost before = bloat_views(out.bloat@);
        out.bloat.push(BloatRule { crate_name, feature, pulls_in, severity, message });
        assert(bloat_views(out.bloat@) =~= before.push(out.bloat@.last()@));
    } else if str_eq(sec.as_str(), "default_features.suggest_opt_out") {
        let crate_name = match pending_value(pending, "crate") {
            Some(v) => v,
            None => return Err(missing_exec("crate")),
        };
        let reason = match pending_value(pending, "reason") {
            Some(v) => v,
            None => return Err(missing_exec("reason")),
        };
        let severity = pending_severity_exec(pending, Severity::Info)?;
        let ghost before = default_rule_views(out.default_features@);
        out.default_features.push(DefaultFeatureRule { crate_name, severity, reason });
        assert(default_rule_views(out.default_features@) =~= before.push(
            out.default_features@.last()@,
        ));
    }
    *pending = StrMap::new();
    assert(pending_view(*pending) =~= Map::<Seq<char>, Seq<char>>::empty());
    Ok(())
}

/// `line n: msg`.
fn line_err_exec(n: usize, msg: &str) -> (r: String)
    ensures
        r@ == line_err(n as nat, msg@),
{
    let mut r = text("line ");
    let d = decimal_string(n);
    push_str(&mut r, d.as_str());
    push_str(&mut r, ": ");
    push_str(&mut r, msg);
    r
}

/// The value of a `key = value` line (see `parse_value`).
fn parse_value_exec(value: &Vec<char>, n: usize) -> (r: Result<String, String>)
    ensures
        r matches Ok(v) ==> parse_value(value@, n as nat) == Ok::<Seq<char>, Seq<char>>(v@),
        r matches Err(e) ==> parse_value(value@, n as nat) == Err::<Seq<char>, Seq<char>>(e@),
{
    if value.len() > 0 && value[0] == '"' {
        match json_string_exec(value, 0) {
            None => Err(line_err_exec(n, "malformed string")),
            Some((v, _)) => Ok(string_of_all(&v)),
        }
    } else if value.len() > 0 && value[0] == '[' {
        if value[value.len() - 1] != ']' {
            return Err(line_err_exec(n, "malformed array"));
        }
        let arr = string_items_exec(value, 0);
        if arr.len() == 0 && !super::chars_eq(value, "[]") {
            return Err(line_err_exec(n, "array items must be quoted strings"));
        }
        Ok(join_strings(&arr, ","))
    } else {
        let mut m = text("unsupported value `");
        let vs = string_of_all(value);
        push_str(&mut m, vs.as_str());
        push_str(&mut m, "`");
        Err(line_err_exec(n, m.as_str()))
    }
}

/// Parses a project-local rule file. The first malformed line, or the first
/// section that lacks a required key, is an error.
pub fn parse_local_suggestions(raw: &str) -> (r: Result<Suggestions, String>)
    ensures
        r matches Ok(s) ==> local_rules(raw@) matches Ok(st) && st.conflicts == conflict_views(
            s.conflicts@,
        ) && st.bloat == bloat_views(s.bloat@) && st.defaults == default_rule_views(
            s.default_features@,
        ),
        r matches Err(e) ==> local_rules(raw@) == Err::<LocalState, Seq<char>>(e@),
{
    let chars = chars_of(raw);
    let all_lines = lines_exec(&chars);
    let ghost ls = all_lines@.map_values(|x: Vec<char>| x@);
    let mut out = Suggestions::default();
    let mut section: Option<String> = None;
    let mut pending: StrMap<String> = StrMap::new();
    proof {
        assert(conflict_views(out.conflicts@) =~= Seq::<ConflictRuleView>::empty());
        assert(bloat_views(out.bloat@) =~= Seq::<BloatRuleView>::empty());
        assert(default_rule_views(out.default_features@) =~= Seq::<DefaultFeatureRuleView>::empty());
        assert(pending_view(pending) =~= Map::<Seq<char>, Seq<char>>::empty());
        assert(state_view(out, section, pending) == initial_state());
    }
    let mut i: usize = 0;
    while i < all_lines.len()
        invariant
            i <= all_lines.len(),
            ls == all_lines@.map_values(|x: Vec<char>| x@),
            ls == lines(raw@),
            run_lines(ls, i as int, state_view(out, section, pending)) == run_lines(
                ls,
                0,
                initial_state(),
            ),
        decreases all_lines.len() - i,
    {
        let line_no = i + 1;
        let ghost st = state_view(out, section, pending);
        let stripped = before_char_exec(&all_lines[i], '#');
        let line = trim_exec(&stripped);
        if line.len() == 0 {
            i = i + 1;
            continue;
        }
        let open_header = line.len() >= 2 && line[0] == '[' && line[1] == '[';
        let close_header = line.len() >= 2 && line[line.len() - 2] == ']' && line[line.len() - 1]
            == ']';
        proof {
            assert(open_header == starts_with(line@, "[["@)) by {
                reveal_strlit("[[");
                assert("[["@ =~= seq!['[', '[']);
                if line@.len() >= 2 {
                    assert(line@.take(2) =~= seq![line@[0], line@[1]]);
                }
            }
            assert(close_header == ends_with(line@, "]]"@)) by {
                reveal_strlit("]]");
                assert("]]"@ =~= seq![']', ']']);
                if line@.len() >= 2 {
                    assert(line@.skip(line@.len() - 2) =~= seq![line@[line@.len() - 2], line@[line@.len() - 1]]);
                }
            }
        }
        if open_header && close_header {
            match push_pending(&section, &mut pending, &mut out) {
                Ok(()) => {},
                Err(e) => {
                    let mut m = e;
                    push_str(&mut m, " in section before line ");
                    let d = decimal_string(line_no);
                    push_str(&mut m, d.as_str());
                    return Err(m);
                },
            }
            assert(line.len() >= 4);
            section = Some(string_of_all(&sub_chars(&line, 2, line.len() - 2)));
            i = i + 1;
            continue;
        }
        let eq = find_char_exec(&line, '=', 0);
        let eq = match eq {
            None => return Err(line_err_exec(line_no, "expected `key = value`")),
            Some(k) => k,
        };
        proof {
            lemma_find_char_from(line@, '=', 0);
        }
        let key = trim_exec(&sub_chars(&line, 0, eq));
        let value = trim_exec(&sub_chars(&line, eq + 1, line.len()));
        proof {
            assert(line@.subrange(0, eq as int) =~= line@.take(eq as int));
            assert(line@.subrange(eq + 1, line@.len() as int) =~= line@.skip(eq + 1));
        }
        let parsed = parse_value_exec(&value, line_no)?;
        let ghost p0 = pending_view(pending);
        pending.insert(string_of_all(&key), parsed);
        proof {
            assert(pending_view(pending) =~= p0.insert(key@, parsed@));
        }
        i = i + 1;
    }
    push_pending(&section, &mut pending, &mut out)?;
    Ok(out)
}

} // verus!
