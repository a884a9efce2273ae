//! Report rendering: the terminal, Markdown and JSON reports, and the graph
//! exports behind the DOT and Mermaid formats.
use vstd::prelude::*;

use crate::analysis::{
    finding_views, kind_debug_name, kind_name, opt_text, severity_debug_name, severity_icon,
    severity_name, severity_rank, Finding, FindingKind, FindingView, Severity,
};
use crate::error::Error;
use crate::graph_export::{dot_text, mermaid_text, render_dot, render_mermaid};
use crate::collections::{lemma_sorted_of, sorted_of, StrMap, StrSet};
use crate::resolver::{FeatureGraph, FeatureNode, FeatureSource};
use crate::text::{
    chars_of, concat_all, decimal, decimal_string, hex_digit, hex_digit_exec,
    is_control, is_control_exec, join, join_strings, lemma_concat_step, lemma_join_step, push_char,
    push_str, views,
};
use crate::util::{crate_match, crate_matches, opt_view};

verus! {

/// The output formats of a report.
#[derive(Debug, Clone, Copy, PartialEq, Eq, Structural)]
pub enum OutputFormat {
    Terminal,
    Markdown,
    Json,
    Dot,
    Mermaid,
}

/// What a report shows and in which format.
#[derive(Debug)]
pub struct ReportOptions {
    pub format: OutputFormat,
    pub only_unused: bool,
    pub only_bloat: bool,
    pub crate_filter: Option<String>,
    pub min_severity: Option<Severity>,
}

impl Clone for ReportOptions {
    fn clone(&self) -> (r: Self)
        ensures
            r == *self,
    {
        let crate_filter = match &self.crate_filter {
            Some(f) => Some(f.clone()),
            None => None,
        };
        ReportOptions {
            format: self.format,
            only_unused: self.only_unused,
            only_bloat: self.only_bloat,
            crate_filter,
            min_severity: self.min_severity,
        }
    }
}

/// A finding passes the report options.
pub open spec fn keeps(f: FindingView, o: ReportOptions) -> bool {
    &&& (!o.only_unused || f.kind == FindingKind::Unused)
    &&& (!o.only_bloat || f.kind == FindingKind::Bloat)
    &&& crate_match(f.crate_name, opt_text(o.crate_filter))
    &&& match o.min_severity {
        Some(m) => severity_rank(f.severity) >= severity_rank(m),
        None => true,
    }
}

/// The findings that a report shows, in order.
pub open spec fn kept_findings(fs: Seq<FindingView>, o: ReportOptions) -> Seq<FindingView> {
    fs.filter(|f: FindingView| keeps(f, o))
}

/// The views of borrowed findings.
pub open spec fn ref_views(s: Seq<&Finding>) -> Seq<FindingView> {
    s.map_values(|f: &Finding| f@)
}

/// The nodes whose crate name passes the filter, in package-ID order.
pub open spec fn visible(g: &FeatureGraph, filter: Option<Seq<char>>) -> Seq<FeatureNode> {
    g.nodes.vals().filter(|n: FeatureNode| crate_match(n.name@, filter))
}

/// The nodes behind borrowed nodes.
pub open spec fn derefs(s: Seq<&FeatureNode>) -> Seq<FeatureNode> {
    s.map_values(|n: &FeatureNode| *n)
}

/// The number of active features over the nodes.
pub open spec fn active_total(nodes: Seq<FeatureNode>) -> nat
    decreases nodes.len(),
{
    if nodes.len() == 0 {
        0
    } else {
        active_total(nodes.drop_last()) + nodes.last().active_features@.len()
    }
}

/// A filter keeps no more active features than it is given.
pub proof fn lemma_active_total_filter(nodes: Seq<FeatureNode>, p: spec_fn(FeatureNode) -> bool)
    ensures
        active_total(nodes.filter(p)) <= active_total(nodes),
    decreases nodes.len(),
{
    if nodes.len() > 0 {
        let init = nodes.drop_last();
        lemma_active_total_filter(init, p);
        init.lemma_filter_push(nodes.last(), p);
        assert(init.push(nodes.last()) =~= nodes);
        if p(nodes.last()) {
            assert(init.filter(p).push(nodes.last()).drop_last() =~= init.filter(p));
        }
    }
}

/// The visible nodes of a graph.
pub fn visible_nodes<'a>(graph: &'a FeatureGraph, crate_filter: Option<&str>) -> (r: Vec<&'a FeatureNode>)
    ensures
        derefs(r@) == visible(graph, opt_view(crate_filter)),
{
    let nodes = graph.sorted_nodes();
    let ghost all = graph.nodes.vals();
    let ghost p = |n: FeatureNode| crate_match(n.name@, opt_view(crate_filter));
    let mut out: Vec<&FeatureNode> = Vec::new();
    let mut i: usize = 0;
    assert(all.take(0).filter(p) =~= Seq::<FeatureNode>::empty()) by {
        reveal(Seq::filter);
    }
    assert(derefs(out@) =~= Seq::<FeatureNode>::empty());
    while i < nodes.len()
        invariant
            i <= nodes.len(),
            nodes@.len() == all.len(),
            all == graph.nodes.vals(),
            forall|k: int| 0 <= k < nodes@.len() ==> *#[trigger] nodes@[k] == all[k],
            p == (|n: FeatureNode| crate_match(n.name@, opt_view(crate_filter))),
            derefs(out@) == all.take(i as int).filter(p),
        decreases nodes.len() - i,
    {
        let node = nodes[i];
        proof {
            assert(all.take(i + 1) =~= all.take(i as int).push(all[i as int]));
            all.take(i as int).lemma_filter_push(all[i as int], p);
        }
        if crate_matches(node.name.as_str(), crate_filter) {
            out.push(node);
            assert(derefs(out@) =~= all.take(i + 1).filter(p));
        }
        i = i + 1;
    }
    assert(all.take(nodes.len() as int) =~= all);
    out
}

/// The findings that pass the report options, in order.
pub fn filter_findings<'a>(findings: &'a [Finding], options: &ReportOptions) -> (r: Vec<&'a Finding>)
    ensures
        ref_views(r@) == kept_findings(finding_views(findings@), *options),
{
    let ghost all = finding_views(findings@);
    let ghost p = |f: FindingView| keeps(f, *options);
    let mut out: Vec<&Finding> = Vec::new();
    let mut i: usize = 0;
    assert(all.take(0).filter(p) =~= Seq::<FindingView>::empty()) by {
        reveal(Seq::filter);
    }
    assert(ref_views(out@) =~= Seq::<FindingView>::empty());
    while i < findings.len()
        invariant
            i <= findings.len(),
            all == finding_views(findings@),
            p == (|f: FindingView| keeps(f, *options)),
            ref_views(out@) == all.take(i as int).filter(p),
        decreases findings.len() - i,
    {
        let f = &findings[i];
        proof {
            assert(all.take(i + 1) =~= all.take(i as int).push(all[i as int]));
            all.take(i as int).lemma_filter_push(all[i as int], p);
        }
        let filter = match &options.crate_filter {
            Some(s) => Some(s.as_str()),
            None => None,
        };
        let kind_ok = (!options.only_unused || f.kind == FindingKind::Unused) && (
        !options.only_bloat || f.kind == FindingKind::Bloat);
        let severity_ok = match options.min_severity {
            Some(m) => crate::analysis::severity_at_least(f.severity, m),
            None => true,
        };
        if kind_ok && crate_matches(f.crate_name.as_str(), filter) && severity_ok {
            out.push(f);
            assert(ref_views(out@) =~= all.take(i + 1).filter(p));
        }
        i = i + 1;
    }
    assert(all.take(findings.len() as int) =~= all);
    out
}

/// The JSON escape of one character.
pub open spec fn json_escape_char(c: char) -> Seq<char> {
    if c == '\\' {
        "\\\\"@
    } else if c == '"' {
        "\\\""@
    } else if c == '\n' {
        "\\n"@
    } else if c == '\r' {
        "\\r"@
    } else if c == '\t' {
        "\\t"@
    } else if is_control(c) {
        "\\u00"@ + seq![hex_digit((c as u32 / 16) as nat), hex_digit((c as u32 % 16) as nat)]
    } else {
        seq![c]
    }
}

/// A text escaped for a JSON string literal.
pub open spec fn json_escaped(s: Seq<char>) -> Seq<char> {
    concat_all(s.map_values(|c: char| json_escape_char(c)))
}

/// The value of a hexadecimal digit.
pub open spec fn hex_value(c: char) -> Option<nat> {
    if '0' <= c && c <= '9' {
        Some((c as nat - 48) as nat)
    } else if 'a' <= c && c <= 'f' {
        Some((c as nat - 87) as nat)
    } else if 'A' <= c && c <= 'F' {
        Some((c as nat - 55) as nat)
    } else {
        None
    }
}

/// The character of a JSON `\uXXXX` escape: four hexadecimal digits that
/// give a scalar value (a lone surrogate is refused).
pub open spec fn unicode_escape(d: Seq<char>) -> Option<char> {
    match (hex_value(d[0]), hex_value(d[1]), hex_value(d[2]), hex_value(d[3])) {
        (Some(a), Some(b), Some(c), Some(e)) => {
            let v = 4096 * a + 256 * b + 16 * c + e;
            if 0xd800 <= v && v <= 0xdfff {
                None
            } else {
                Some(v as char)
            }
        },
        _ => None,
    }
}

/// The character of a one-letter JSON escape `\e`.
pub open spec fn short_escape(e: char) -> Option<char> {
    if e == '"' {
        Some('"')
    } else if e == '\\' {
        Some('\\')
    } else if e == '/' {
        Some('/')
    } else if e == 'b' {
        Some('\u{8}')
    } else if e == 'f' {
        Some('\u{c}')
    } else if e == 'n' {
        Some('\n')
    } else if e == 'r' {
        Some('\r')
    } else if e == 't' {
        Some('\t')
    } else {
        None
    }
}

/// The text that the body of a JSON string literal (what stands between its
/// quotes) denotes, or `None` where the body is not valid JSON: a raw `"`,
/// a raw character below U+0020, or a malformed escape.
pub open spec fn json_unescape(t: Seq<char>) -> Option<Seq<char>>
    decreases t.len(),
{
    if t.len() == 0 {
        Some(Seq::empty())
    } else if t[0] == '"' || (t[0] as u32) < 0x20 {
        None
    } else if t[0] == '\\' {
        if t.len() < 2 {
            None
        } else {
            match short_escape(t[1]) {
                Some(ch) => match json_unescape(t.skip(2)) {
                    Some(r) => Some(seq![ch] + r),
                    None => None,
                },
                None => if t[1] == 'u' && t.len() >= 6 {
                    match unicode_escape(t.subrange(2, 6)) {
                        Some(ch) => match json_unescape(t.skip(6)) {
                            Some(r) => Some(seq![ch] + r),
                            None => None,
                        },
                        None => None,
                    }
                } else {
                    None
                },
            }
        }
    } else {
        match json_unescape(t.skip(1)) {
            Some(r) => Some(seq![t[0]] + r),
            None => None,
        }
    }
}

/// A concatenation is its first part followed by the rest.
proof fn lemma_concat_first<A>(s: Seq<Seq<A>>)
    requires
        s.len() > 0,
    ensures
        concat_all(s) == s[0] + concat_all(s.drop_first()),
    decreases s.len(),
{
    if s.len() == 1 {
        assert(s.drop_first() =~= Seq::<Seq<A>>::empty());
        assert(concat_all(s.drop_last()) =~= Seq::<A>::empty());
        assert(concat_all(s) =~= s[0]);
    } else {
        lemma_concat_first(s.drop_last());
        assert(s.drop_last().drop_first() =~= s.drop_first().drop_last());
        assert(s.drop_first().last() == s.last());
    }
}

/// A hexadecimal digit reads back as its value.
proof fn lemma_hex_value(d: nat)
    requires
        d < 16,
    ensures
        hex_value(crate::text::hex_digit(d)) == Some(d),
{
}

/// One escaped character, then any valid body, decodes to the character
/// followed by what the body denotes.
proof fn lemma_unescape_one(c: char, rest: Seq<char>, r: Seq<char>)
    requires
        json_unescape(rest) == Some(r),
    ensures
        json_unescape(json_escape_char(c) + rest) == Some(seq![c] + r),
{
    reveal_strlit("\\\\");
    reveal_strlit("\\\"");
    reveal_strlit("\\n");
    reveal_strlit("\\r");
    reveal_strlit("\\t");
    reveal_strlit("\\u00");
    let t = json_escape_char(c) + rest;
    if c == '\\' || c == '"' || c == '\n' || c == '\r' || c == '\t' {
        assert(t[0] == '\\');
        assert(t.skip(2) =~= rest);
    } else if is_control(c) {
        let u = c as u32;
        let hi = (u / 16) as nat;
        let lo = (u % 16) as nat;
        lemma_hex_value(hi);
        lemma_hex_value(lo);
        assert(t[0] == '\\');
        assert(t[1] == 'u');
        assert(t.subrange(2, 6) =~= seq!['0', '0', crate::text::hex_digit(hi), crate::text::hex_digit(lo)]);
        assert(16 * hi + lo == u) by (nonlinear_arith)
            requires
                hi == (u / 16) as nat,
                lo == (u % 16) as nat,
        ;
        assert(unicode_escape(t.subrange(2, 6)) == Some(c));
        assert(t.skip(6) =~= rest);
    } else {
        assert(t[0] == c);
        assert(t.skip(1) =~= rest);
    }
}

/// JSON escaping is undone by JSON decoding: the escaped text is a valid
/// string-literal body (no raw `"`, no raw character below U+0020) that
/// denotes exactly the input.
pub proof fn lemma_json_escape_round_trip(s: Seq<char>)
    ensures
        json_unescape(json_escaped(s)) == Some(s),
    decreases s.len(),
{
    if s.len() == 0 {
        assert(s.map_values(|c: char| json_escape_char(c)) =~= Seq::<Seq<char>>::empty());
    } else {
        let parts = s.map_values(|c: char| json_escape_char(c));
        lemma_concat_first(parts);
        assert(parts.drop_first() =~= s.drop_first().map_values(|c: char| json_escape_char(c)));
        lemma_json_escape_round_trip(s.drop_first());
        lemma_unescape_one(s[0], json_escaped(s.drop_first()), s.drop_first());
        assert(seq![s[0]] + s.drop_first() =~= s);
    }
}

/// Escapes a text for a JSON string literal.
pub fn json_escape(value: &str) -> (r: String)
    ensures
        r@ == json_escaped(value@),
{
    let v = chars_of(value);
    let mut out = String::new();
    let mut i: usize = 0;
    assert(v@.take(0).map_values(|c: char| json_escape_char(c)) =~= Seq::<Seq<char>>::empty());
    while i < v.len()
        invariant
            i <= v.len(),
            v@ == value@,
            out@ == json_escaped(v@.take(i as int)),
        decreases v.len() - i,
    {
        let c = v[i];
        if c == '\\' {
            push_str(&mut out, "\\\\");
        } else if c == '"' {
            push_str(&mut out, "\\\"");
        } else if c == '\n' {
            push_str(&mut out, "\\n");
        } else if c == '\r' {
            push_str(&mut out, "\\r");
        } else if c == '\t' {
            push_str(&mut out, "\\t");
        } else if is_control_exec(c) {
            let u = c as u32;
            push_str(&mut out, "\\u00");
            push_char(&mut out, hex_digit_exec(u / 16));
            push_char(&mut out, hex_digit_exec(u % 16));
        } else {
            push_char(&mut out, c);
        }
        proof {
            lemma_concat_step(v@, |c: char| json_escape_char(c), i as int);
        }
        i = i + 1;
    }
    assert(v@.take(v.len() as int) =~= v@);
    out
}

/// Sums the active features of the nodes.
fn count_active(nodes: &Vec<&FeatureNode>) -> (r: usize)
    requires
        active_total(derefs(nodes@)) <= usize::MAX,
    ensures
        r == active_total(derefs(nodes@)),
{
    let ghost ns = derefs(nodes@);
    let mut total: usize = 0;
    let mut i: usize = 0;
    proof {
        lemma_active_total_prefix(ns, 0, ns.len() as int);
    }
    while i < nodes.len()
        invariant
            i <= nodes.len(),
            ns == derefs(nodes@),
            active_total(ns) <= usize::MAX,
            total == active_total(ns.take(i as int)),
        decreases nodes.len() - i,
    {
        proof {
            assert(ns.take(i + 1).drop_last() =~= ns.take(i as int));
            lemma_active_total_prefix(ns, i + 1, ns.len() as int);
            assert(ns.take(ns.len() as int) =~= ns);
        }
        total = total + nodes[i].active_features.len();
        i = i + 1;
    }
    assert(ns.take(nodes.len() as int) =~= ns);
    total
}

/// The number of active features over all nodes of a graph, where it fits
/// in a `usize`: the condition under which a report can be rendered.
pub fn active_feature_count(graph: &FeatureGraph) -> (r: Option<usize>)
    ensures
        r matches Some(n) ==> n == active_total(graph.nodes.vals()),
        r is None ==> active_total(graph.nodes.vals()) > usize::MAX,
{
    let nodes = graph.sorted_nodes();
    let ghost ns = graph.nodes.vals();
    assert(derefs(nodes@) =~= ns);
    let mut total: usize = 0;
    let mut i: usize = 0;
    while i < nodes.len()
        invariant
            i <= nodes.len(),
            ns == derefs(nodes@),
            ns == graph.nodes.vals(),
            total == active_total(ns.take(i as int)),
        decreases nodes.len() - i,
    {
        proof {
            assert(ns.take(i + 1).drop_last() =~= ns.take(i as int));
        }
        match total.checked_add(nodes[i].active_features.len()) {
            Some(t) => total = t,
            None => {
                proof {
                    assert(ns.take(i + 1).last() == ns[i as int]);
                    assert(*nodes@[i as int] == ns[i as int]);
                    assert(active_total(ns.take(i + 1)) == total + ns[i as int].active_features@.len());
                    lemma_active_total_prefix(ns, i + 1, ns.len() as int);
                    assert(ns.take(ns.len() as int) =~= ns);
                }
                return None;
            },
        }
        i = i + 1;
    }
    assert(ns.take(nodes.len() as int) =~= ns);
    Some(total)
}

/// A prefix has no more active features than a longer prefix.
proof fn lemma_active_total_prefix(nodes: Seq<FeatureNode>, i: int, j: int)
    requires
        0 <= i <= j <= nodes.len(),
    ensures
        active_total(nodes.take(i)) <= active_total(nodes.take(j)),
    decreases j - i,
{
    if i < j {
        lemma_active_total_prefix(nodes, i, j - 1);
        assert(nodes.take(j).drop_last() =~= nodes.take(j - 1));
    }
}

/// The findings whose crate is `name`, in order.
pub open spec fn findings_of(fs: Seq<FindingView>, name: Seq<char>) -> Seq<FindingView> {
    fs.filter(|f: FindingView| f.crate_name == name)
}

/// The findings about the crate of a node, in order.
pub open spec fn node_findings(fs: Seq<FindingView>, n: FeatureNode) -> Seq<FindingView> {
    findings_of(fs, n.name@)
}

/// The borrowed findings whose crate is `name`.
fn select_findings<'a>(findings: &Vec<&'a Finding>, name: &str) -> (r: Vec<&'a Finding>)
    ensures
        ref_views(r@) == findings_of(ref_views(findings@), name@),
{
    let ghost all = ref_views(findings@);
    let ghost p = |f: FindingView| f.crate_name == name@;
    let mut out: Vec<&Finding> = Vec::new();
    let mut i: usize = 0;
    assert(all.take(0).filter(p) =~= Seq::<FindingView>::empty()) by {
        reveal(Seq::filter);
    }
    assert(ref_views(out@) =~= Seq::<FindingView>::empty());
    while i < findings.len()
        invariant
            i <= findings.len(),
            all == ref_views(findings@),
            p == (|f: FindingView| f.crate_name == name@),
            ref_views(out@) == all.take(i as int).filter(p),
        decreases findings.len() - i,
    {
        let f = findings[i];
        proof {
            assert(all.take(i + 1) =~= all.take(i as int).push(all[i as int]));
            all.take(i as int).lemma_filter_push(all[i as int], p);
        }
        if crate::collections::str_eq(f.crate_name.as_str(), name) {
            out.push(f);
            assert(ref_views(out@) =~= all.take(i + 1).filter(p));
        }
        i = i + 1;
    }
    assert(all.take(findings.len() as int) =~= all);
    out
}

/// The distinct requesters of a feature, in increasing order, joined.
pub open spec fn requesters_text(srcs: Seq<FeatureSource>) -> Seq<char> {
    join(sorted_of(srcs.map_values(|s: FeatureSource| s.requested_by@).to_set()), ", "@)
}

/// The "requested by" line of a finding about `feature` of node `n`.
pub open spec fn requested_line(n: FeatureNode, feature: Option<Seq<char>>) -> Seq<char> {
    match feature {
        Some(x) => match n.feature_sources.spec_get(x) {
            Some(srcs) => if requesters_text(srcs@).len() > 0 {
                "│    requested by: "@ + requesters_text(srcs@) + "\n"@
            } else {
                Seq::empty()
            },
            None => Seq::empty(),
        },
        None => Seq::empty(),
    }
}

/// The terminal lines of one finding of node `n`.
pub open spec fn terminal_finding(n: FeatureNode, f: FindingView) -> Seq<char> {
    "│  "@ + severity_icon(f.severity) + " "@ + kind_name(f.kind) + ": "@ + f.message + "\n"@
        + requested_line(n, f.feature)
}

/// The active-features line of a node.
pub open spec fn active_line(n: FeatureNode) -> Seq<char> {
    if n.active_features@.len() == 0 {
        "│  active features: <none>\n"@
    } else {
        "│  active features: "@ + join(n.active_features@, ", "@) + "\n"@
    }
}

/// The terminal section of one node.
pub open spec fn terminal_node(n: FeatureNode, fs: Seq<FindingView>) -> Seq<char> {
    terminal_head(n) + concat_all(
        node_findings(fs, n).map_values(|f: FindingView| terminal_finding(n, f)),
    ) + "│\n"@
}

/// The terminal report over the visible nodes and the shown findings.
pub open spec fn terminal_report(nodes: Seq<FeatureNode>, fs: Seq<FindingView>) -> Seq<char> {
    "Feature Footprint Report\n"@ + "────────────────────────\n"@ + "✓ "@ + decimal(
        active_total(nodes),
    ) + " total features active across "@ + decimal(nodes.len()) + " crates\n"@ + "⚠ "@
        + decimal(fs.len()) + " findings detected\n"@ + finding_summary(fs) + "\n"@ + concat_all(
        nodes.map_values(|n: FeatureNode| terminal_node(n, fs)),
    )
}

/// The number of findings of a severity.
pub open spec fn severity_count(fs: Seq<FindingView>, s: Severity) -> nat
    decreases fs.len(),
{
    if fs.len() == 0 {
        0
    } else {
        severity_count(fs.drop_last(), s) + if fs.last().severity == s {
            1nat
        } else {
            0nat
        }
    }
}

/// The number of findings of a kind.
pub open spec fn kind_count(fs: Seq<FindingView>, k: FindingKind) -> nat
    decreases fs.len(),
{
    if fs.len() == 0 {
        0
    } else {
        kind_count(fs.drop_last(), k) + if fs.last().kind == k {
            1nat
        } else {
            0nat
        }
    }
}

/// `Kind n` where findings of the kind are shown, else nothing.
pub open spec fn kind_entry(fs: Seq<FindingView>, k: FindingKind) -> Seq<Seq<char>> {
    if kind_count(fs, k) > 0 {
        seq![kind_name(k) + " "@ + decimal(kind_count(fs, k))]
    } else {
        Seq::empty()
    }
}

/// The counts of the kinds that occur, in the order in which kinds are
/// declared; `none` where no finding is shown.
pub open spec fn kind_summary(fs: Seq<FindingView>) -> Seq<char> {
    let entries = kind_entry(fs, FindingKind::Unused) + kind_entry(fs, FindingKind::Conflict)
        + kind_entry(fs, FindingKind::Duplicate) + kind_entry(fs, FindingKind::Bloat) + kind_entry(
        fs,
        FindingKind::DefaultFeature,
    );
    if entries.len() == 0 {
        "none"@
    } else {
        join(entries, ", "@)
    }
}

/// The summary of the shown findings: their number, then their counts by
/// severity and by kind.
pub open spec fn finding_summary(fs: Seq<FindingView>) -> Seq<char> {
    "Finding summary: "@ + decimal(fs.len()) + " visible findings\n"@ + "  severity: info "@ + decimal(
        severity_count(fs, Severity::Info),
    ) + ", warning "@ + decimal(severity_count(fs, Severity::Warning)) + ", error "@ + decimal(
        severity_count(fs, Severity::Error),
    ) + "\n"@ + "  kind: "@ + kind_summary(fs) + "\n"@
}

/// Counts of the findings by severity (info, warning, error) and by kind
/// (in declaration order).
fn count_findings(findings: &Vec<&Finding>) -> (r: ([usize; 3], [usize; 5]))
    ensures
        r.0[0] == severity_count(ref_views(findings@), Severity::Info),
        r.0[1] == severity_count(ref_views(findings@), Severity::Warning),
        r.0[2] == severity_count(ref_views(findings@), Severity::Error),
        r.1[0] == kind_count(ref_views(findings@), FindingKind::Unused),
        r.1[1] == kind_count(ref_views(findings@), FindingKind::Conflict),
        r.1[2] == kind_count(ref_views(findings@), FindingKind::Duplicate),
        r.1[3] == kind_count(ref_views(findings@), FindingKind::Bloat),
        r.1[4] == kind_count(ref_views(findings@), FindingKind::DefaultFeature),
{
    let ghost fs = ref_views(findings@);
    let mut info: usize = 0;
    let mut warning: usize = 0;
    let mut error: usize = 0;
    let mut unused: usize = 0;
    let mut conflict: usize = 0;
    let mut duplicate: usize = 0;
    let mut bloat: usize = 0;
    let mut default: usize = 0;
    let mut i: usize = 0;
    while i < findings.len()
        invariant
            i <= findings.len(),
            fs == ref_views(findings@),
            info == severity_count(fs.take(i as int), Severity::Info),
            warning == severity_count(fs.take(i as int), Severity::Warning),
            error == severity_count(fs.take(i as int), Severity::Error),
            info + warning + error == i,
            unused == kind_count(fs.take(i as int), FindingKind::Unused),
            conflict == kind_count(fs.take(i as int), FindingKind::Conflict),
            duplicate == kind_count(fs.take(i as int), FindingKind::Duplicate),
            bloat == kind_count(fs.take(i as int), FindingKind::Bloat),
            default == kind_count(fs.take(i as int), FindingKind::DefaultFeature),
            unused + conflict + duplicate + bloat + default == i,
        decreases findings.len() - i,
    {
        let f = findings[i];
        proof {
            assert(fs.take(i + 1).drop_last() =~= fs.take(i as int));
            assert(fs.take(i + 1).last() == f@);
        }
        match f.severity {
            Severity::Info => info = info + 1,
            Severity::Warning => warning = warning + 1,
            Severity::Error => error = error + 1,
        }
        match f.kind {
            FindingKind::Unused => unused = unused + 1,
            FindingKind::Conflict => conflict = conflict + 1,
            FindingKind::Duplicate => duplicate = duplicate + 1,
            FindingKind::Bloat => bloat = bloat + 1,
            FindingKind::DefaultFeature => default = default + 1,
        }
        i = i + 1;
    }
    assert(fs.take(findings.len() as int) =~= fs);
    ([info, warning, error], [unused, conflict, duplicate, bloat, default])
}

/// Appends `Kind n` to `entries` where `n > 0`.
fn push_kind_entry(entries: &mut Vec<String>, k: FindingKind, n: usize)
    ensures
        n > 0 ==> views(final(entries)@) == views(old(entries)@).push(
            kind_name(k) + " "@ + decimal(n as nat),
        ),
        n == 0 ==> final(entries)@ == old(entries)@,
{
    if n > 0 {
        let mut e = crate::text::owned(kind_debug_name(k));
        push_str(&mut e, " ");
        push_str(&mut e, decimal_string(n).as_str());
        entries.push(e);
        assert(views(entries@) =~= views(old(entries)@).push(kind_name(k) + " "@ + decimal(n as nat)));
    }
}

/// The summary of the shown findings.
fn finding_summary_of(findings: &Vec<&Finding>) -> (r: String)
    ensures
        r@ == finding_summary(ref_views(findings@)),
{
    let ghost fs = ref_views(findings@);
    let (severities, kinds) = count_findings(findings);
    let mut entries: Vec<String> = Vec::new();
    let ghost e0 = views(entries@);
    assert(e0 =~= Seq::<Seq<char>>::empty());
    push_kind_entry(&mut entries, FindingKind::Unused, kinds[0]);
    let ghost e1 = views(entries@);
    assert(e1 =~= e0 + kind_entry(fs, FindingKind::Unused));
    push_kind_entry(&mut entries, FindingKind::Conflict, kinds[1]);
    let ghost e2 = views(entries@);
    assert(e2 =~= e1 + kind_entry(fs, FindingKind::Conflict));
    push_kind_entry(&mut entries, FindingKind::Duplicate, kinds[2]);
    let ghost e3 = views(entries@);
    assert(e3 =~= e2 + kind_entry(fs, FindingKind::Duplicate));
    push_kind_entry(&mut entries, FindingKind::Bloat, kinds[3]);
    let ghost e4 = views(entries@);
    assert(e4 =~= e3 + kind_entry(fs, FindingKind::Bloat));
    push_kind_entry(&mut entries, FindingKind::DefaultFeature, kinds[4]);
    assert(views(entries@) =~= e4 + kind_entry(fs, FindingKind::DefaultFeature));
    let mut out = String::new();
    push_str(&mut out, "Finding summary: ");
    push_str(&mut out, decimal_string(findings.len()).as_str());
    push_str(&mut out, " visible findings\n");
    push_str(&mut out, "  severity: info ");
    push_str(&mut out, decimal_string(severities[0]).as_str());
    push_str(&mut out, ", warning ");
    push_str(&mut out, decimal_string(severities[1]).as_str());
    push_str(&mut out, ", error ");
    push_str(&mut out, decimal_string(severities[2]).as_str());
    push_str(&mut out, "\n");
    push_str(&mut out, "  kind: ");
    if entries.len() == 0 {
        push_str(&mut out, "none");
    } else {
        push_str(&mut out, join_strings(&entries, ", ").as_str());
    }
    push_str(&mut out, "\n");
    assert(out@ =~= finding_summary(fs));
    out
}

/// The distinct requesters of a feature, in increasing order, joined.
fn requesters(sources: &Vec<FeatureSource>) -> (r: String)
    ensures
        r@ == requesters_text(sources@),
{
    let ghost names = sources@.map_values(|s: FeatureSource| s.requested_by@);
    let mut set = StrSet::new();
    let mut i: usize = 0;
    assert(names.take(0).to_set() =~= Set::<Seq<char>>::empty());
    assert(set@.to_set() =~= Set::<Seq<char>>::empty());
    while i < sources.len()
        invariant
            i <= sources.len(),
            names == sources@.map_values(|s: FeatureSource| s.requested_by@),
            set@.to_set() == names.take(i as int).to_set(),
        decreases sources.len() - i,
    {
        set.insert(sources[i].requested_by.clone());
        proof {
            assert(names.take(i + 1) =~= names.take(i as int).push(names[i as int]));
            names.take(i as int).lemma_push_to_set_commute(names[i as int]);
        }
        i = i + 1;
    }
    assert(names.take(sources.len() as int) =~= names);
    set.sorted_ensures();
    let v = set.to_vec();
    proof {
        lemma_sorted_of(set@);
    }
    join_strings(&v, ", ")
}

/// Appends the terminal lines of one finding of `node`.
fn push_terminal_finding(out: &mut String, node: &FeatureNode, f: &Finding)
    ensures
        final(out)@ == old(out)@ + terminal_finding(*node, f@),
{
    push_str(out, "│  ");
    push_str(out, f.severity.icon());
    push_str(out, " ");
    push_str(out, kind_debug_name(f.kind));
    push_str(out, ": ");
    push_str(out, f.message.as_str());
    push_str(out, "\n");
    let ghost mid = out@;
    assert(mid =~= old(out)@ + ("│  "@ + severity_icon(f.severity) + " "@ + kind_name(f.kind) + ": "@
        + f.message@ + "\n"@));
    if let Some(feature) = &f.feature {
        if let Some(sources) = node.feature_sources.get(feature.as_str()) {
            let requesters = requesters(sources);
            if !requesters.as_str().is_empty() {
                push_str(out, "│    requested by: ");
                push_str(out, requesters.as_str());
                push_str(out, "\n");
            }
        }
    }
    assert(out@ =~= old(out)@ + terminal_finding(*node, f@));
}

/// The head of the terminal section of one node: name, version, counts
/// and active features.
pub open spec fn terminal_head(n: FeatureNode) -> Seq<char> {
    "┌─ "@ + n.name@ + " ("@ + n.version@ + ")\n"@ + "│  dependencies: "@ + decimal(
        n.dependencies@.len(),
    ) + " direct, "@ + decimal(n.optional_dependencies@.len()) + " optional\n"@ + active_line(n)
}

/// The head of the terminal section of one node.
fn terminal_head_of(node: &FeatureNode) -> (r: String)
    ensures
        r@ == terminal_head(*node),
{
    let mut out = String::new();
    push_str(&mut out, "┌─ ");
    push_str(&mut out, node.name.as_str());
    push_str(&mut out, " (");
    push_str(&mut out, node.version.as_str());
    push_str(&mut out, ")\n");
    push_str(&mut out, "│  dependencies: ");
    push_str(&mut out, decimal_string(node.dependencies.len()).as_str());
    push_str(&mut out, " direct, ");
    push_str(&mut out, decimal_string(node.optional_dependencies.len()).as_str());
    push_str(&mut out, " optional\n");
    if node.active_features.is_empty() {
        push_str(&mut out, "│  active features: <none>\n");
    } else {
        push_str(&mut out, "│  active features: ");
        let v = node.active_features.to_vec();
        push_str(&mut out, join_strings(&v, ", ").as_str());
        push_str(&mut out, "\n");
    }
    assert(out@ =~= terminal_head(*node));
    out
}

/// The terminal lines of the findings about one node.
fn terminal_findings_of(node: &FeatureNode, findings: &Vec<&Finding>) -> (r: String)
    ensures
        r@ == concat_all(
            node_findings(ref_views(findings@), *node).map_values(
                |f: FindingView| terminal_finding(*node, f),
            ),
        ),
{
    let mine = select_findings(findings, node.name.as_str());
    let ghost nf = ref_views(mine@);
    let ghost lines = |f: FindingView| terminal_finding(*node, f);
    let mut body = String::new();
    let mut i: usize = 0;
    assert(nf.take(0).map_values(lines) =~= Seq::<Seq<char>>::empty());
    while i < mine.len()
        invariant
            i <= mine.len(),
            nf == ref_views(mine@),
            lines == (|f: FindingView| terminal_finding(*node, f)),
            body@ == concat_all(nf.take(i as int).map_values(lines)),
        decreases mine.len() - i,
    {
        push_terminal_finding(&mut body, node, mine[i]);
        proof {
            lemma_concat_step(nf, lines, i as int);
        }
        i = i + 1;
    }
    assert(nf.take(mine.len() as int) =~= nf);
    body
}

/// Appends the terminal section of one node.
fn push_terminal_node(out: &mut String, node: &FeatureNode, findings: &Vec<&Finding>)
    ensures
        final(out)@ == old(out)@ + terminal_node(*node, ref_views(findings@)),
{
    let head = terminal_head_of(node);
    let body = terminal_findings_of(node, findings);
    push_str(out, head.as_str());
    push_str(out, body.as_str());
    push_str(out, "│\n");
    assert(out@ =~= old(out)@ + terminal_node(*node, ref_views(findings@)));
}

/// The terminal report.
fn render_terminal(graph: &FeatureGraph, findings: &Vec<&Finding>, crate_filter: Option<&str>) -> (r: String)
    requires
        active_total(graph.nodes.vals()) <= usize::MAX,
    ensures
        r@ == terminal_report(visible(graph, opt_view(crate_filter)), ref_views(findings@)),
{
    let visible_nodes = visible_nodes(graph, crate_filter);
    let ghost ns = derefs(visible_nodes@);
    let ghost fs = ref_views(findings@);
    proof {
        lemma_active_total_filter(graph.nodes.vals(), |n: FeatureNode| crate_match(n.name@, opt_view(crate_filter)));
    }
    let total_features = count_active(&visible_nodes);
    let mut output = String::new();
    push_str(&mut output, "Feature Footprint Report\n");
    push_str(&mut output, "────────────────────────\n");
    push_str(&mut output, "✓ ");
    push_str(&mut output, decimal_string(total_features).as_str());
    push_str(&mut output, " total features active across ");
    push_str(&mut output, decimal_string(visible_nodes.len()).as_str());
    push_str(&mut output, " crates\n");
    push_str(&mut output, "⚠ ");
    push_str(&mut output, decimal_string(findings.len()).as_str());
    push_str(&mut output, " findings detected\n");
    push_str(&mut output, finding_summary_of(findings).as_str());
    push_str(&mut output, "\n");
    let ghost head = output@;
    let ghost sections = |n: FeatureNode| terminal_node(n, fs);
    let mut body = String::new();
    let mut i: usize = 0;
    assert(ns.take(0).map_values(sections) =~= Seq::<Seq<char>>::empty());
    while i < visible_nodes.len()
        invariant
            i <= visible_nodes.len(),
            ns == derefs(visible_nodes@),
            fs == ref_views(findings@),
            sections == (|n: FeatureNode| terminal_node(n, fs)),
            body@ == concat_all(ns.take(i as int).map_values(sections)),
        decreases visible_nodes.len() - i,
    {
        push_terminal_node(&mut body, visible_nodes[i], findings);
        proof {
            lemma_concat_step(ns, sections, i as int);
        }
        i = i + 1;
    }
    assert(ns.take(visible_nodes.len() as int) =~= ns);
    push_str(&mut output, body.as_str());
    assert(output@ =~= terminal_report(ns, fs));
    output
}

/// The Markdown text of one finding.
pub open spec fn markdown_finding(f: FindingView) -> Seq<char> {
    severity_icon(f.severity) + " "@ + kind_name(f.kind) + ": "@ + f.message
}

/// `_none_` in place of an empty cell.
pub open spec fn or_none(s: Seq<char>) -> Seq<char> {
    if s.len() == 0 {
        "_none_"@
    } else {
        s
    }
}

/// The Markdown table row of one node.
pub open spec fn markdown_row(n: FeatureNode, fs: Seq<FindingView>) -> Seq<char> {
    "| "@ + n.name@ + " | "@ + n.version@ + " | "@ + (if n.active_features@.len() == 0 {
        "_none_"@
    } else {
        join(n.active_features@, ", "@)
    }) + " | "@ + or_none(
        join(node_findings(fs, n).map_values(|f: FindingView| markdown_finding(f)), "<br>"@),
    ) + " |\n"@
}

/// The Markdown report over the visible nodes and the shown findings.
pub open spec fn markdown_report(nodes: Seq<FeatureNode>, fs: Seq<FindingView>) -> Seq<char> {
    "# Feature Footprint Report\n\n"@ + "Analyzed **"@ + decimal(nodes.len()) + "** crates.\n\n"@
        + "| Crate | Version | Active Features | Findings |\n"@ + "|---|---:|---|---|\n"@ + concat_all(
        nodes.map_values(|n: FeatureNode| markdown_row(n, fs)),
    )
}

/// Appends the Markdown row of one node.
fn push_markdown_row(out: &mut String, node: &FeatureNode, findings: &Vec<&Finding>)
    ensures
        final(out)@ == old(out)@ + markdown_row(*node, ref_views(findings@)),
{
    let features = if node.active_features.is_empty() {
        crate::text::owned("_none_")
    } else {
        let v = node.active_features.to_vec();
        join_strings(&v, ", ")
    };
    let mine = select_findings(findings, node.name.as_str());
    let ghost items = ref_views(mine@).map_values(|f: FindingView| markdown_finding(f));
    let mut cell = String::new();
    let mut i: usize = 0;
    while i < mine.len()
        invariant
            i <= mine.len(),
            items == ref_views(mine@).map_values(|f: FindingView| markdown_finding(f)),
            i > 0 ==> cell@ == join(items.take(i as int), "<br>"@),
            i == 0 ==> cell@ == Seq::<char>::empty(),
        decreases mine.len() - i,
    {
        let f = mine[i];
        if i > 0 {
            push_str(&mut cell, "<br>");
        }
        push_str(&mut cell, f.severity.icon());
        push_str(&mut cell, " ");
        push_str(&mut cell, kind_debug_name(f.kind));
        push_str(&mut cell, ": ");
        push_str(&mut cell, f.message.as_str());
        proof {
            lemma_join_step(items, "<br>"@, i as int);
            assert(items[i as int] == markdown_finding(f@));
        }
        assert(cell@ =~= join(items.take(i + 1), "<br>"@));
        i = i + 1;
    }
    assert(items.take(mine.len() as int) =~= items);
    proof {
        if mine.len() == 0 {
            assert(items.len() == 0);
        }
    }
    push_str(out, "| ");
    push_str(out, node.name.as_str());
    push_str(out, " | ");
    push_str(out, node.version.as_str());
    push_str(out, " | ");
    push_str(out, features.as_str());
    push_str(out, " | ");
    if cell.as_str().is_empty() {
        push_str(out, "_none_");
    } else {
        push_str(out, cell.as_str());
    }
    push_str(out, " |\n");
    assert(out@ =~= old(out)@ + markdown_row(*node, ref_views(findings@)));
}

/// The Markdown report.
fn render_markdown(graph: &FeatureGraph, findings: &Vec<&Finding>, crate_filter: Option<&str>) -> (r: String)
    ensures
        r@ == markdown_report(visible(graph, opt_view(crate_filter)), ref_views(findings@)),
{
    let visible_nodes = visible_nodes(graph, crate_filter);
    let ghost ns = derefs(visible_nodes@);
    let ghost fs = ref_views(findings@);
    let mut output = String::new();
    push_str(&mut output, "# Feature Footprint Report\n\n");
    push_str(&mut output, "Analyzed **");
    push_str(&mut output, decimal_string(visible_nodes.len()).as_str());
    push_str(&mut output, "** crates.\n\n");
    push_str(&mut output, "| Crate | Version | Active Features | Findings |\n");
    push_str(&mut output, "|---|---:|---|---|\n");
    let ghost rows = |n: FeatureNode| markdown_row(n, fs);
    let mut body = String::new();
    let mut i: usize = 0;
    assert(ns.take(0).map_values(rows) =~= Seq::<Seq<char>>::empty());
    while i < visible_nodes.len()
        invariant
            i <= visible_nodes.len(),
            ns == derefs(visible_nodes@),
            fs == ref_views(findings@),
            rows == (|n: FeatureNode| markdown_row(n, fs)),
            body@ == concat_all(ns.take(i as int).map_values(rows)),
        decreases visible_nodes.len() - i,
    {
        push_markdown_row(&mut body, visible_nodes[i], findings);
        proof {
            lemma_concat_step(ns, rows, i as int);
        }
        i = i + 1;
    }
    assert(ns.take(visible_nodes.len() as int) =~= ns);
    push_str(&mut output, body.as_str());
    assert(output@ =~= markdown_report(ns, fs));
    output
}

/// A JSON string literal.
pub open spec fn quoted(s: Seq<char>) -> Seq<char> {
    "\""@ + json_escaped(s) + "\""@
}

/// The items of a JSON array of strings, without brackets.
pub open spec fn json_list(items: Seq<Seq<char>>) -> Seq<char> {
    join(items.map_values(|s: Seq<char>| quoted(s)), ", "@)
}

/// The tail of a JSON object or array whose entries stand on lines of their own.
pub open spec fn gap(nonempty: bool) -> Seq<char> {
    if nonempty {
        "\n      "@
    } else {
        Seq::empty()
    }
}

/// One entry of `dependency_features`.
pub open spec fn dep_entry(k: Seq<char>, v: Seq<Seq<char>>) -> Seq<char> {
    "\n        \""@ + json_escaped(k) + "\": ["@ + json_list(v) + "]"@
}

/// The entries of `dependency_features`, in key order.
pub open spec fn dep_entries(m: StrMap<Vec<String>>) -> Seq<Seq<char>> {
    Seq::new(m.keys().len(), |i: int| dep_entry(m.keys()[i], views(m.vals()[i]@)))
}

/// One recorded source as a JSON object.
pub open spec fn source_json(s: FeatureSource) -> Seq<char> {
    "{\"requested_by\": \""@ + json_escaped(s.requested_by@) + "\", \"path\": ["@ + json_list(
        views(s.path@),
    ) + "]}"@
}

/// One entry of `feature_sources`.
pub open spec fn source_entry(f: Seq<char>, srcs: Seq<FeatureSource>) -> Seq<char> {
    "\n        \""@ + json_escaped(f) + "\": ["@ + join(
        srcs.map_values(|s: FeatureSource| source_json(s)),
        ", "@,
    ) + "]"@
}

/// The entries of `feature_sources`, in feature order.
pub open spec fn source_entries(m: StrMap<Vec<FeatureSource>>) -> Seq<Seq<char>> {
    Seq::new(m.keys().len(), |i: int| source_entry(m.keys()[i], m.vals()[i]@))
}

/// One finding as a JSON object.
pub open spec fn finding_json(f: FindingView) -> Seq<char> {
    "\n        {"@ + "\n          \"kind\": \""@ + kind_name(f.kind) + "\","@
        + "\n          \"severity\": \""@ + severity_name(f.severity) + "\","@
        + "\n          \"feature\": "@ + (match f.feature {
        Some(x) => quoted(x),
        None => "null"@,
    }) + ",\n          \"message\": \""@ + json_escaped(f.message) + "\"\n        }"@
}

/// The identifying fields of a node.
pub open spec fn json_head(n: FeatureNode) -> Seq<char> {
    "    {\n"@ + "      \"name\": \""@ + json_escaped(n.name@) + "\",\n"@
        + "      \"version\": \""@ + json_escaped(n.version@) + "\",\n"@
        + "      \"package_id\": \""@ + json_escaped(n.package_id@) + "\",\n"@
        + "      \"manifest_path\": \""@ + json_escaped(n.manifest_path@) + "\",\n"@
}

/// The list fields of a node.
pub open spec fn json_lists(n: FeatureNode) -> Seq<char> {
    "      \"active_features\": ["@ + json_list(n.active_features@) + "],\n"@
        + "      \"dependencies\": ["@ + json_list(views(n.dependencies@)) + "],\n"@
        + "      \"optional_dependencies\": ["@ + json_list(n.optional_dependencies@) + "],\n"@
}

/// The map fields of a node.
pub open spec fn json_maps(n: FeatureNode) -> Seq<char> {
    "      \"dependency_features\": {"@ + join(dep_entries(n.dependency_features), ","@) + gap(
        dep_entries(n.dependency_features).len() > 0,
    ) + "},\n"@ + "      \"feature_sources\": {"@ + join(
        source_entries(n.feature_sources),
        ","@,
    ) + gap(source_entries(n.feature_sources).len() > 0) + "},\n"@
}

/// The findings field of a node, which closes its object.
pub open spec fn json_findings(nf: Seq<FindingView>) -> Seq<char> {
    "      \"findings\": ["@ + join(nf.map_values(|f: FindingView| finding_json(f)), ","@) + gap(
        nf.len() > 0,
    ) + "]\n    }"@
}

/// One node as a JSON object.
pub open spec fn json_node(n: FeatureNode, fs: Seq<FindingView>) -> Seq<char> {
    json_head(n) + json_lists(n) + json_maps(n) + json_findings(node_findings(fs, n))
}

/// The JSON report over the visible nodes and the shown findings.
pub open spec fn json_report(nodes: Seq<FeatureNode>, fs: Seq<FindingView>) -> Seq<char> {
    "{\n"@ + "  \"crate_count\": "@ + decimal(nodes.len()) + ",\n"@
        + "  \"total_active_features\": "@ + decimal(active_total(nodes)) + ",\n"@
        + "  \"crates\": [\n"@ + join(nodes.map_values(|n: FeatureNode| json_node(n, fs)), ",\n"@)
        + "\n  ]\n}\n"@
}

/// Appends a JSON string literal.
fn push_quoted(out: &mut String, s: &str)
    ensures
        final(out)@ == old(out)@ + quoted(s@),
{
    push_str(out, "\"");
    push_str(out, json_escape(s).as_str());
    push_str(out, "\"");
    assert(out@ =~= old(out)@ + quoted(s@));
}

/// The items of a JSON array of the strings, without brackets.
fn json_list_of(items: &Vec<String>) -> (r: String)
    ensures
        r@ == json_list(views(items@)),
{
    let ghost parts = views(items@).map_values(|s: Seq<char>| quoted(s));
    let mut out = String::new();
    let mut i: usize = 0;
    while i < items.len()
        invariant
            i <= items.len(),
            parts == views(items@).map_values(|s: Seq<char>| quoted(s)),
            i > 0 ==> out@ == join(parts.take(i as int), ", "@),
            i == 0 ==> out@ == Seq::<char>::empty(),
        decreases items.len() - i,
    {
        if i > 0 {
            push_str(&mut out, ", ");
        }
        push_quoted(&mut out, items[i].as_str());
        proof {
            lemma_join_step(parts, ", "@, i as int);
        }
        assert(out@ =~= join(parts.take(i + 1), ", "@));
        i = i + 1;
    }
    assert(parts.take(items.len() as int) =~= parts);
    out
}

/// Appends one finding as a JSON object.
fn push_finding_json(out: &mut String, f: &Finding)
    ensures
        final(out)@ == old(out)@ + finding_json(f@),
{
    push_str(out, "\n        {");
    push_str(out, "\n          \"kind\": \"");
    push_str(out, kind_debug_name(f.kind));
    push_str(out, "\",");
    push_str(out, "\n          \"severity\": \"");
    push_str(out, severity_debug_name(f.severity));
    push_str(out, "\",");
    push_str(out, "\n          \"feature\": ");
    let ghost mid = out@;
    match &f.feature {
        Some(feature) => push_quoted(out, feature.as_str()),
        None => push_str(out, "null"),
    }
    let ghost after = out@;
    push_str(out, ",\n          \"message\": \"");
    push_str(out, json_escape(f.message.as_str()).as_str());
    push_str(out, "\"\n        }");
    assert(out@ =~= old(out)@ + finding_json(f@));
}

/// Appends one recorded source as a JSON object.
fn push_source_json(out: &mut String, source: &FeatureSource)
    ensures
        final(out)@ == old(out)@ + source_json(*source),
{
    push_str(out, "{\"requested_by\": \"");
    push_str(out, json_escape(source.requested_by.as_str()).as_str());
    push_str(out, "\", \"path\": [");
    push_str(out, json_list_of(&source.path).as_str());
    push_str(out, "]}");
    assert(out@ =~= old(out)@ + source_json(*source));
}

/// The identifying fields of a node.
fn json_head_of(node: &FeatureNode) -> (r: String)
    ensures
        r@ == json_head(*node),
{
    let mut out = String::new();
    push_str(&mut out, "    {\n");
    push_str(&mut out, "      \"name\": \"");
    push_str(&mut out, json_escape(node.name.as_str()).as_str());
    push_str(&mut out, "\",\n");
    push_str(&mut out, "      \"version\": \"");
    push_str(&mut out, json_escape(node.version.as_str()).as_str());
    push_str(&mut out, "\",\n");
    push_str(&mut out, "      \"package_id\": \"");
    push_str(&mut out, json_escape(node.package_id.as_str()).as_str());
    push_str(&mut out, "\",\n");
    push_str(&mut out, "      \"manifest_path\": \"");
    push_str(&mut out, json_escape(node.manifest_path.as_str()).as_str());
    push_str(&mut out, "\",\n");
    assert(out@ =~= json_head(*node));
    out
}

/// The list fields of a node.
fn json_lists_of(node: &FeatureNode) -> (r: String)
    ensures
        r@ == json_lists(*node),
{
    let mut out = String::new();
    push_str(&mut out, "      \"active_features\": [");
    push_str(&mut out, json_list_of(&node.active_features.to_vec()).as_str());
    push_str(&mut out, "],\n");
    push_str(&mut out, "      \"dependencies\": [");
    push_str(&mut out, json_list_of(&node.dependencies).as_str());
    push_str(&mut out, "],\n");
    push_str(&mut out, "      \"optional_dependencies\": [");
    push_str(&mut out, json_list_of(&node.optional_dependencies.to_vec()).as_str());
    push_str(&mut out, "],\n");
    assert(out@ =~= json_lists(*node));
    out
}

/// The entries of `dependency_features`, joined.
fn dep_entries_of(m: &StrMap<Vec<String>>) -> (r: String)
    ensures
        r@ == join(dep_entries(*m), ","@),
{
    m.wf_ensures();
    let ghost parts = dep_entries(*m);
    let mut out = String::new();
    let mut i: usize = 0;
    let n = m.len();
    while i < n
        invariant
            i <= n,
            n == m.keys().len(),
            n == m.vals().len(),
            parts == dep_entries(*m),
            i > 0 ==> out@ == join(parts.take(i as int), ","@),
            i == 0 ==> out@ == Seq::<char>::empty(),
        decreases n - i,
    {
        if i > 0 {
            push_str(&mut out, ",");
        }
        let ghost before = out@;
        push_str(&mut out, "\n        \"");
        push_str(&mut out, json_escape(m.key_at(i).as_str()).as_str());
        push_str(&mut out, "\": [");
        push_str(&mut out, json_list_of(m.value_at(i)).as_str());
        push_str(&mut out, "]");
        proof {
            lemma_join_step(parts, ","@, i as int);
            assert(out@ =~= before + parts[i as int]);
        }
        assert(out@ =~= join(parts.take(i + 1), ","@));
        i = i + 1;
    }
    assert(parts.take(n as int) =~= parts);
    out
}

/// One entry of `feature_sources`.
fn source_entry_of(feature: &String, sources: &Vec<FeatureSource>) -> (r: String)
    ensures
        r@ == source_entry(feature@, sources@),
{
    let ghost parts = sources@.map_values(|s: FeatureSource| source_json(s));
    let mut list = String::new();
    let mut i: usize = 0;
    while i < sources.len()
        invariant
            i <= sources.len(),
            parts == sources@.map_values(|s: FeatureSource| source_json(s)),
            i > 0 ==> list@ == join(parts.take(i as int), ", "@),
            i == 0 ==> list@ == Seq::<char>::empty(),
        decreases sources.len() - i,
    {
        if i > 0 {
            push_str(&mut list, ", ");
        }
        push_source_json(&mut list, &sources[i]);
        proof {
            lemma_join_step(parts, ", "@, i as int);
        }
        assert(list@ =~= join(parts.take(i + 1), ", "@));
        i = i + 1;
    }
    assert(parts.take(sources.len() as int) =~= parts);
    let mut out = String::new();
    push_str(&mut out, "\n        \"");
    push_str(&mut out, json_escape(feature.as_str()).as_str());
    push_str(&mut out, "\": [");
    push_str(&mut out, list.as_str());
    push_str(&mut out, "]");
    assert(out@ =~= source_entry(feature@, sources@));
    out
}

/// The entries of `feature_sources`, joined.
fn source_entries_of(m: &StrMap<Vec<FeatureSource>>) -> (r: String)
    ensures
        r@ == join(source_entries(*m), ","@),
{
    m.wf_ensures();
    let ghost parts = source_entries(*m);
    let mut out = String::new();
    let mut i: usize = 0;
    let n = m.len();
    while i < n
        invariant
            i <= n,
            n == m.keys().len(),
            n == m.vals().len(),
            parts == source_entries(*m),
            i > 0 ==> out@ == join(parts.take(i as int), ","@),
            i == 0 ==> out@ == Seq::<char>::empty(),
        decreases n - i,
    {
        if i > 0 {
            push_str(&mut out, ",");
        }
        push_str(&mut out, source_entry_of(m.key_at(i), m.value_at(i)).as_str());
        proof {
            lemma_join_step(parts, ","@, i as int);
        }
        assert(out@ =~= join(parts.take(i + 1), ","@));
        i = i + 1;
    }
    assert(parts.take(n as int) =~= parts);
    out
}

/// The map fields of a node.
fn json_maps_of(node: &FeatureNode) -> (r: String)
    ensures
        r@ == json_maps(*node),
{
    node.dependency_features.wf_ensures();
    node.feature_sources.wf_ensures();
    let mut out = String::new();
    push_str(&mut out, "      \"dependency_features\": {");
    push_str(&mut out, dep_entries_of(&node.dependency_features).as_str());
    if !node.dependency_features.is_empty() {
        push_str(&mut out, "\n      ");
    }
    push_str(&mut out, "},\n");
    push_str(&mut out, "      \"feature_sources\": {");
    push_str(&mut out, source_entries_of(&node.feature_sources).as_str());
    if !node.feature_sources.is_empty() {
        push_str(&mut out, "\n      ");
    }
    push_str(&mut out, "},\n");
    assert(out@ =~= json_maps(*node));
    out
}

/// The findings field of a node.
fn json_findings_of(mine: &Vec<&Finding>) -> (r: String)
    ensures
        r@ == json_findings(ref_views(mine@)),
{
    let ghost parts = ref_views(mine@).map_values(|f: FindingView| finding_json(f));
    let mut list = String::new();
    let mut i: usize = 0;
    while i < mine.len()
        invariant
            i <= mine.len(),
            parts == ref_views(mine@).map_values(|f: FindingView| finding_json(f)),
            i > 0 ==> list@ == join(parts.take(i as int), ","@),
            i == 0 ==> list@ == Seq::<char>::empty(),
        decreases mine.len() - i,
    {
        if i > 0 {
            push_str(&mut list, ",");
        }
        push_finding_json(&mut list, mine[i]);
        proof {
            lemma_join_step(parts, ","@, i as int);
        }
        assert(list@ =~= join(parts.take(i + 1), ","@));
        i = i + 1;
    }
    assert(parts.take(mine.len() as int) =~= parts);
    let mut out = String::new();
    push_str(&mut out, "      \"findings\": [");
    push_str(&mut out, list.as_str());
    if mine.len() > 0 {
        push_str(&mut out, "\n      ");
    }
    push_str(&mut out, "]\n    }");
    assert(out@ =~= json_findings(ref_views(mine@)));
    out
}

/// One node as a JSON object.
fn json_node_of(node: &FeatureNode, findings: &Vec<&Finding>) -> (r: String)
    ensures
        r@ == json_node(*node, ref_views(findings@)),
{
    let mut out = json_head_of(node);
    push_str(&mut out, json_lists_of(node).as_str());
    push_str(&mut out, json_maps_of(node).as_str());
    let mine = select_findings(findings, node.name.as_str());
    push_str(&mut out, json_findings_of(&mine).as_str());
    out
}

/// The JSON objects of the nodes, joined.
#[verifier::rlimit(40)]
fn json_crates(nodes: &Vec<&FeatureNode>, findings: &Vec<&Finding>) -> (r: String)
    ensures
        r@ == join(
            derefs(nodes@).map_values(|n: FeatureNode| json_node(n, ref_views(findings@))),
            ",\n"@,
        ),
{
    let ghost fs = ref_views(findings@);
    let ghost parts = derefs(nodes@).map_values(|n: FeatureNode| json_node(n, fs));
    let mut crates = String::new();
    let mut i: usize = 0;
    while i < nodes.len()
        invariant
            i <= nodes.len(),
            fs == ref_views(findings@),
            parts == derefs(nodes@).map_values(|n: FeatureNode| json_node(n, fs)),
            i > 0 ==> crates@ == join(parts.take(i as int), ",\n"@),
            i == 0 ==> crates@ == Seq::<char>::empty(),
        decreases nodes.len() - i,
    {
        if i > 0 {
            push_str(&mut crates, ",\n");
        }
        let node_text = json_node_of(nodes[i], findings);
        push_str(&mut crates, node_text.as_str());
        proof {
            lemma_join_step(parts, ",\n"@, i as int);
            assert(parts[i as int] == node_text@);
        }
        assert(crates@ =~= join(parts.take(i + 1), ",\n"@));
        i = i + 1;
    }
    assert(parts.take(nodes.len() as int) =~= parts);
    crates
}

/// The JSON report.
fn render_json(graph: &FeatureGraph, findings: &Vec<&Finding>, crate_filter: Option<&str>) -> (r: String)
    requires
        active_total(graph.nodes.vals()) <= usize::MAX,
    ensures
        r@ == json_report(visible(graph, opt_view(crate_filter)), ref_views(findings@)),
{
    let visible_nodes = visible_nodes(graph, crate_filter);
    proof {
        lemma_active_total_filter(graph.nodes.vals(), |n: FeatureNode| crate_match(n.name@, opt_view(crate_filter)));
    }
    let total_features = count_active(&visible_nodes);
    let crates = json_crates(&visible_nodes, findings);
    let mut output = String::new();
    push_str(&mut output, "{\n");
    push_str(&mut output, "  \"crate_count\": ");
    push_str(&mut output, decimal_string(visible_nodes.len()).as_str());
    push_str(&mut output, ",\n");
    push_str(&mut output, "  \"total_active_features\": ");
    push_str(&mut output, decimal_string(total_features).as_str());
    push_str(&mut output, ",\n");
    push_str(&mut output, "  \"crates\": [\n");
    push_str(&mut output, crates.as_str());
    push_str(&mut output, "\n  ]\n}\n");
    assert(output@ =~= json_report(derefs(visible_nodes@), ref_views(findings@)));
    output
}

/// The report that the options ask for.
pub open spec fn rendered(g: &FeatureGraph, fs: Seq<FindingView>, o: ReportOptions) -> Seq<char> {
    let kept = kept_findings(fs, o);
    let filter = opt_text(o.crate_filter);
    match o.format {
        OutputFormat::Terminal => terminal_report(visible(g, filter), kept),
        OutputFormat::Markdown => markdown_report(visible(g, filter), kept),
        OutputFormat::Json => json_report(visible(g, filter), kept),
        OutputFormat::Dot => dot_text(g, filter),
        OutputFormat::Mermaid => mermaid_text(g, filter),
    }
}

/// Renders the findings about a graph in the requested format. The active
/// features of the graph must be countable in a `usize`.
pub fn render(graph: &FeatureGraph, findings: &[Finding], options: &ReportOptions) -> (r: Result<
    String,
    Error,
>)
    requires
        active_total(graph.nodes.vals()) <= usize::MAX,
    ensures
        r matches Ok(s) && s@ == rendered(graph, finding_views(findings@), *options),
{
    let kept = filter_findings(findings, options);
    let crate_filter = match &options.crate_filter {
        Some(s) => Some(s.as_str()),
        None => None,
    };
    assert(opt_view(crate_filter) == opt_text(options.crate_filter));
    match options.format {
        OutputFormat::Terminal => Ok(render_terminal(graph, &kept, crate_filter)),
        OutputFormat::Markdown => Ok(render_markdown(graph, &kept, crate_filter)),
        OutputFormat::Json => Ok(render_json(graph, &kept, crate_filter)),
        OutputFormat::Dot => Ok(render_dot(graph, crate_filter)),
        OutputFormat::Mermaid => Ok(render_mermaid(graph, crate_filter)),
    }
}

/// Filtering twice with the same options shows the same findings as
/// filtering once, and every shown finding passes the options.
pub proof fn lemma_kept_findings_idempotent(fs: Seq<FindingView>, o: ReportOptions)
    ensures
        kept_findings(kept_findings(fs, o), o) == kept_findings(fs, o),
        forall|i: int| 0 <= i < kept_findings(fs, o).len() ==> keeps(#[trigger] kept_findings(fs, o)[i], o),
    decreases fs.len(),
{
    let p = |f: FindingView| keeps(f, o);
    if fs.len() == 0 {
        assert(fs.filter(p) =~= fs) by {
            reveal(Seq::filter);
        }
    } else {
        let init = fs.drop_last();
        lemma_kept_findings_idempotent(init, o);
        init.lemma_filter_push(fs.last(), p);
        assert(init.push(fs.last()) =~= fs);
        if p(fs.last()) {
            init.filter(p).lemma_filter_push(fs.last(), p);
            assert forall|i: int| 0 <= i < kept_findings(fs, o).len() implies keeps(#[trigger] kept_findings(fs, o)[i], o) by {
                if i < init.filter(p).len() {
                    assert(kept_findings(fs, o)[i] == kept_findings(init, o)[i]);
                }
            }
        }
    }
}

/// Filters apply before rendering: every format that lists findings shows
/// the same selected findings, so two finding lists that select the same
/// findings give the same report.
pub proof fn lemma_formats_share_findings(g: &FeatureGraph, a: Seq<FindingView>, b: Seq<FindingView>, o: ReportOptions)
    requires
        kept_findings(a, o) == kept_findings(b, o),
    ensures
        rendered(g, a, o) == rendered(g, b, o),
{
}

} // verus!
