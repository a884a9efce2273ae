//! Shared data of the analysis passes, the suggestion database and its two
//! formats, and the pass that merges all findings.
use vstd::prelude::*;

use crate::collections::{str_eq, StrMap};
use crate::json_scan::{
    array_field, array_field_exec, array_objects, array_objects_exec, char_views, field,
    field_exec, object_field, object_field_exec,
};
use crate::resolver::{FeatureGraph, FeatureNode, NodeView};
use crate::text::{chars_of, lower_char_exec, lower_seq, views};

pub mod bloat;
pub mod builtin;
pub mod conflicts;
pub mod duplication;
pub mod local_rules;
pub mod order;
pub mod source_usage;
pub mod unused;

pub use self::local_rules::parse_local_suggestions;

use self::bloat::bloat_findings;
use self::conflicts::conflict_findings;
use self::duplication::duplicate_findings;
use self::order::{report_order, sort_findings};
use self::source_usage::SourceUsage;
use self::unused::{unused_findings, usage_view};

verus! {

/// Shared inputs for independent analysis passes.
pub struct AnalysisContext<'a> {
    pub graph: &'a FeatureGraph,
    pub suggestions: &'a Suggestions,
}

impl<'a> AnalysisContext<'a> {
    pub fn new(graph: &'a FeatureGraph, suggestions: &'a Suggestions) -> (r: Self)
        ensures
            r.graph == graph,
            r.suggestions == suggestions,
    {
        AnalysisContext { graph, suggestions }
    }
}

/// A reportable analysis result.
#[derive(Debug, PartialEq, Eq)]
pub struct Finding {
    pub crate_name: String,
    pub feature: Option<String>,
    pub kind: FindingKind,
    pub severity: Severity,
    pub message: String,
}

impl Clone for Finding {
    fn clone(&self) -> (r: Self)
        ensures
            r == *self,
    {
        let feature = match &self.feature {
            Some(f) => Some(f.clone()),
            None => None,
        };
        Finding {
            crate_name: self.crate_name.clone(),
            feature,
            kind: self.kind,
            severity: self.severity,
            message: self.message.clone(),
        }
    }
}

#[derive(Debug, Clone, Copy, PartialEq, Eq, Structural)]
pub enum FindingKind {
    Unused,
    Conflict,
    Duplicate,
    Bloat,
    DefaultFeature,
}

#[derive(Debug, Clone, Copy, PartialEq, Eq, Structural, PartialOrd, Ord)]
pub enum Severity {
    Info,
    Warning,
    Error,
}

/// The rank of a severity: `Info < Warning < Error`.
pub open spec fn severity_rank(s: Severity) -> int {
    match s {
        Severity::Info => 0,
        Severity::Warning => 1,
        Severity::Error => 2,
    }
}

/// The severity named by a text, compared without ASCII case.
pub open spec fn parse_severity(value: Seq<char>) -> Option<Severity> {
    let l = lower_seq(value);
    if l == "info"@ {
        Some(Severity::Info)
    } else if l == "warning"@ || l == "warn"@ {
        Some(Severity::Warning)
    } else if l == "error"@ || l == "deny"@ {
        Some(Severity::Error)
    } else {
        None
    }
}

/// The name that `{:?}` prints for a finding kind.
pub open spec fn kind_name(k: FindingKind) -> Seq<char> {
    match k {
        FindingKind::Unused => "Unused"@,
        FindingKind::Conflict => "Conflict"@,
        FindingKind::Duplicate => "Duplicate"@,
        FindingKind::Bloat => "Bloat"@,
        FindingKind::DefaultFeature => "DefaultFeature"@,
    }
}

/// The name that `{:?}` prints for a severity.
pub open spec fn severity_name(s: Severity) -> Seq<char> {
    match s {
        Severity::Info => "Info"@,
        Severity::Warning => "Warning"@,
        Severity::Error => "Error"@,
    }
}

/// The name that `{:?}` prints for a finding kind.
pub fn kind_debug_name(k: FindingKind) -> (r: &'static str)
    ensures
        r@ == kind_name(k),
{
    match k {
        FindingKind::Unused => "Unused",
        FindingKind::Conflict => "Conflict",
        FindingKind::Duplicate => "Duplicate",
        FindingKind::Bloat => "Bloat",
        FindingKind::DefaultFeature => "DefaultFeature",
    }
}

/// The name that `{:?}` prints for a severity.
pub fn severity_debug_name(s: Severity) -> (r: &'static str)
    ensures
        r@ == severity_name(s),
{
    match s {
        Severity::Info => "Info",
        Severity::Warning => "Warning",
        Severity::Error => "Error",
    }
}

/// Whether `a` is at least as severe as `b`.
pub fn severity_at_least(a: Severity, b: Severity) -> (r: bool)
    ensures
        r == (severity_rank(a) >= severity_rank(b)),
{
    let ra: u8 = match a {
        Severity::Info => 0,
        Severity::Warning => 1,
        Severity::Error => 2,
    };
    let rb: u8 = match b {
        Severity::Info => 0,
        Severity::Warning => 1,
        Severity::Error => 2,
    };
    ra >= rb
}

/// The icon shown beside a finding of a severity.
pub open spec fn severity_icon(s: Severity) -> Seq<char> {
    match s {
        Severity::Info => "ℹ"@,
        Severity::Warning => "⚠"@,
        Severity::Error => "✖"@,
    }
}

impl Severity {
    pub fn icon(self) -> (r: &'static str)
        ensures
            r@ == severity_icon(self),
    {
        match self {
            Severity::Info => "ℹ",
            Severity::Warning => "⚠",
            Severity::Error => "✖",
        }
    }

    pub fn parse(value: &str) -> (r: Option<Self>)
        ensures
            r == parse_severity(value@),
    {
        let v = chars_of(value);
        let mut l: Vec<char> = Vec::new();
        let mut i: usize = 0;
        while i < v.len()
            invariant
                i <= v.len(),
                l@ == lower_seq(v@.take(i as int)),
            decreases v.len() - i,
        {
            l.push(lower_char_exec(v[i]));
            i = i + 1;
            assert(l@ =~= lower_seq(v@.take(i as int)));
        }
        assert(v@.take(v.len() as int) =~= v@);
        if chars_eq(&l, "info") {
            Some(Severity::Info)
        } else if chars_eq(&l, "warning") || chars_eq(&l, "warn") {
            Some(Severity::Warning)
        } else if chars_eq(&l, "error") || chars_eq(&l, "deny") {
            Some(Severity::Error)
        } else {
            None
        }
    }

    pub fn as_str(self) -> (r: &'static str)
        ensures
            r@ == (match self {
                Severity::Info => "info"@,
                Severity::Warning => "warning"@,
                Severity::Error => "error"@,
            }),
    {
        match self {
            Severity::Info => "info",
            Severity::Warning => "warning",
            Severity::Error => "error",
        }
    }
}

/// Whether the characters spell `s`.
pub fn chars_eq(v: &Vec<char>, s: &str) -> (r: bool)
    ensures
        r == (v@ == s@),
{
    let w = chars_of(s);
    if v.len() != w.len() {
        return false;
    }
    let mut i: usize = 0;
    while i < v.len()
        invariant
            v.len() == w.len(),
            w@ == s@,
            i <= v.len(),
            forall|k: int| 0 <= k < i ==> v@[k] == w@[k],
        decreases v.len() - i,
    {
        if v[i] != w[i] {
            assert(v@[i as int] != w@[i as int]);
            assert(v@ != w@);
            return false;
        }
        i = i + 1;
    }
    assert(v@ =~= w@);
    true
}

/// Optional suggestion database loaded from `suggestions.json`.
#[derive(Debug)]
pub struct Suggestions {
    pub conflicts: Vec<ConflictRule>,
    pub bloat: Vec<BloatRule>,
    pub default_features: Vec<DefaultFeatureRule>,
}

impl Default for Suggestions {
    fn default() -> (r: Self)
        ensures
            r.conflicts@ == Seq::<ConflictRule>::empty(),
            r.bloat@ == Seq::<BloatRule>::empty(),
            r.default_features@ == Seq::<DefaultFeatureRule>::empty(),
    {
        Suggestions { conflicts: Vec::new(), bloat: Vec::new(), default_features: Vec::new() }
    }
}

impl Suggestions {
    /// Appends the rules of `other`, keeping their order.
    pub fn extend(&mut self, other: Suggestions)
        ensures
            final(self).conflicts@ == old(self).conflicts@ + other.conflicts@,
            final(self).bloat@ == old(self).bloat@ + other.bloat@,
            final(self).default_features@ == old(self).default_features@
                + other.default_features@,
    {
        let Suggestions { conflicts: mut c, bloat: mut b, default_features: mut d } = other;
        self.conflicts.append(&mut c);
        self.bloat.append(&mut b);
        self.default_features.append(&mut d);
    }
}

#[derive(Debug)]
pub struct ConflictRule {
    pub crate_name: String,
    pub features: Vec<String>,
    pub severity: Severity,
    pub message: String,
}

#[derive(Debug)]
pub struct BloatRule {
    pub crate_name: String,
    pub feature: String,
    pub pulls_in: Vec<String>,
    pub severity: Severity,
    pub message: String,
}

#[derive(Debug)]
pub struct DefaultFeatureRule {
    pub crate_name: String,
    pub severity: Severity,
    pub reason: String,
}

/// The content of a conflict rule.
pub struct ConflictRuleView {
    pub crate_name: Seq<char>,
    pub features: Seq<Seq<char>>,
    pub severity: Severity,
    pub message: Seq<char>,
}

/// The content of a bloat rule.
pub struct BloatRuleView {
    pub crate_name: Seq<char>,
    pub feature: Seq<char>,
    pub pulls_in: Seq<Seq<char>>,
    pub severity: Severity,
    pub message: Seq<char>,
}

/// The content of a default-feature rule.
pub struct DefaultFeatureRuleView {
    pub crate_name: Seq<char>,
    pub severity: Severity,
    pub reason: Seq<char>,
}

impl View for ConflictRule {
    type V = ConflictRuleView;

    open spec fn view(&self) -> ConflictRuleView {
        ConflictRuleView {
            crate_name: self.crate_name@,
            features: views(self.features@),
            severity: self.severity,
            message: self.message@,
        }
    }
}

impl View for BloatRule {
    type V = BloatRuleView;

    open spec fn view(&self) -> BloatRuleView {
        BloatRuleView {
            crate_name: self.crate_name@,
            feature: self.feature@,
            pulls_in: views(self.pulls_in@),
            severity: self.severity,
            message: self.message@,
        }
    }
}

impl View for DefaultFeatureRule {
    type V = DefaultFeatureRuleView;

    open spec fn view(&self) -> DefaultFeatureRuleView {
        DefaultFeatureRuleView {
            crate_name: self.crate_name@,
            severity: self.severity,
            reason: self.reason@,
        }
    }
}

pub open spec fn conflict_views(v: Seq<ConflictRule>) -> Seq<ConflictRuleView> {
    v.map_values(|r: ConflictRule| r@)
}

pub open spec fn bloat_views(v: Seq<BloatRule>) -> Seq<BloatRuleView> {
    v.map_values(|r: BloatRule| r@)
}

pub open spec fn default_rule_views(v: Seq<DefaultFeatureRule>) -> Seq<DefaultFeatureRuleView> {
    v.map_values(|r: DefaultFeatureRule| r@)
}

/// The severity that an optional `"severity"` field gives, or `default`.
pub open spec fn severity_or(value: Option<Seq<char>>, default: Severity) -> Severity {
    match value {
        Some(v) => match parse_severity(v) {
            Some(s) => s,
            None => default,
        },
        None => default,
    }
}

/// A conflict rule object: needs `crate`, `features` and `message`.
pub open spec fn json_conflict_rule(o: Seq<char>) -> Option<ConflictRuleView> {
    match (field(o, "crate"@), array_field(o, "features"@), field(o, "message"@)) {
        (Some(c), Some(f), Some(m)) => Some(
            ConflictRuleView {
                crate_name: c,
                features: f,
                severity: severity_or(field(o, "severity"@), Severity::Warning),
                message: m,
            },
        ),
        _ => None,
    }
}

/// A bloat rule object: needs `crate`, `feature` and `message`.
pub open spec fn json_bloat_rule(o: Seq<char>) -> Option<BloatRuleView> {
    match (field(o, "crate"@), field(o, "feature"@), field(o, "message"@)) {
        (Some(c), Some(f), Some(m)) => Some(
            BloatRuleView {
                crate_name: c,
                feature: f,
                pulls_in: match array_field(o, "pulls_in"@) {
                    Some(p) => p,
                    None => Seq::empty(),
                },
                severity: severity_or(field(o, "severity"@), Severity::Info),
                message: m,
            },
        ),
        _ => None,
    }
}

/// A default-feature rule object: needs `crate` and `reason`.
pub open spec fn json_default_rule(o: Seq<char>) -> Option<DefaultFeatureRuleView> {
    match (field(o, "crate"@), field(o, "reason"@)) {
        (Some(c), Some(r)) => Some(
            DefaultFeatureRuleView {
                crate_name: c,
                severity: severity_or(field(o, "severity"@), Severity::Info),
                reason: r,
            },
        ),
        _ => None,
    }
}

/// The default-feature rule objects: those in `default_features.suggest_opt_out`.
pub open spec fn json_default_objects(raw: Seq<char>) -> Seq<Seq<char>> {
    match object_field(raw, "default_features"@) {
        Some(d) => array_objects(d, "suggest_opt_out"@),
        None => Seq::empty(),
    }
}

/// Reads an optional `"severity"` field.
fn severity_field(o: &Vec<char>, default: Severity) -> (r: Severity)
    ensures
        r == severity_or(field(o@, "severity"@), default),
{
    match field_exec(o, "severity") {
        Some(s) => match Severity::parse(s.as_str()) {
            Some(v) => v,
            None => default,
        },
        None => default,
    }
}

/// The conflict rules of the given objects, in order.
fn conflict_rules_of(objects: &Vec<Vec<char>>) -> (r: Vec<ConflictRule>)
    ensures
        conflict_views(r@) == char_views(objects@).filter_map(|o: Seq<char>| json_conflict_rule(o)),
{
    let ghost objs = char_views(objects@);
    let mut out: Vec<ConflictRule> = Vec::new();
    let mut i: usize = 0;
    while i < objects.len()
        invariant
            i <= objects.len(),
            objs == char_views(objects@),
            conflict_views(out@) == objs.take(i as int).filter_map(
                |o: Seq<char>| json_conflict_rule(o),
            ),
        decreases objects.len() - i,
    {
        let o = &objects[i];
        let ghost before = conflict_views(out@);
        proof {
            assert(objs.take(i + 1).drop_last() =~= objs.take(i as int));
            assert(objs.take(i + 1).last() == o@);
        }
        match (field_exec(o, "crate"), array_field_exec(o, "features"), field_exec(o, "message")) {
            (Some(crate_name), Some(features), Some(message)) => {
                let severity = severity_field(o, Severity::Warning);
                out.push(ConflictRule { crate_name, features, severity, message });
                assert(conflict_views(out@) =~= before + seq![out@.last()@]);
            },
            _ => {},
        }
        i = i + 1;
    }
    assert(objs.take(objects.len() as int) =~= objs);
    out
}

/// The bloat rules of the given objects, in order.
fn bloat_rules_of(objects: &Vec<Vec<char>>) -> (r: Vec<BloatRule>)
    ensures
        bloat_views(r@) == char_views(objects@).filter_map(|o: Seq<char>| json_bloat_rule(o)),
{
    let ghost objs = char_views(objects@);
    let mut out: Vec<BloatRule> = Vec::new();
    let mut i: usize = 0;
    while i < objects.len()
        invariant
            i <= objects.len(),
            objs == char_views(objects@),
            bloat_views(out@) == objs.take(i as int).filter_map(|o: Seq<char>| json_bloat_rule(o)),
        decreases objects.len() - i,
    {
        let o = &objects[i];
        let ghost before = bloat_views(out@);
        proof {
            assert(objs.take(i + 1).drop_last() =~= objs.take(i as int));
            assert(objs.take(i + 1).last() == o@);
        }
        match (field_exec(o, "crate"), field_exec(o, "feature"), field_exec(o, "message")) {
            (Some(crate_name), Some(feature), Some(message)) => {
                let pulls_in = match array_field_exec(o, "pulls_in") {
                    Some(p) => p,
                    None => {
                        assert(views(Seq::<String>::empty()) =~= Seq::<Seq<char>>::empty());
                        Vec::new()
                    },
                };
                let severity = severity_field(o, Severity::Info);
                out.push(BloatRule { crate_name, feature, pulls_in, severity, message });
                assert(bloat_views(out@) =~= before + seq![out@.last()@]);
            },
            _ => {},
        }
        i = i + 1;
    }
    assert(objs.take(objects.len() as int) =~= objs);
    out
}

/// The default-feature rules of the given objects, in order.
fn default_rules_of(objects: &Vec<Vec<char>>) -> (r: Vec<DefaultFeatureRule>)
    ensures
        default_rule_views(r@) == char_views(objects@).filter_map(
            |o: Seq<char>| json_default_rule(o),
        ),
{
    let ghost objs = char_views(objects@);
    let mut out: Vec<DefaultFeatureRule> = Vec::new();
    let mut i: usize = 0;
    while i < objects.len()
        invariant
            i <= objects.len(),
            objs == char_views(objects@),
            default_rule_views(out@) == objs.take(i as int).filter_map(
                |o: Seq<char>| json_default_rule(o),
            ),
        decreases objects.len() - i,
    {
        let o = &objects[i];
        let ghost before = default_rule_views(out@);
        proof {
            assert(objs.take(i + 1).drop_last() =~= objs.take(i as int));
            assert(objs.take(i + 1).last() == o@);
        }
        match (field_exec(o, "crate"), field_exec(o, "reason")) {
            (Some(crate_name), Some(reason)) => {
                let severity = severity_field(o, Severity::Info);
                out.push(DefaultFeatureRule { crate_name, severity, reason });
                assert(default_rule_views(out@) =~= before + seq![out@.last()@]);
            },
            _ => {},
        }
        i = i + 1;
    }
    assert(objs.take(objects.len() as int) =~= objs);
    out
}

/// Parses the JSON suggestion database. Rule objects that lack a required
/// field are skipped.
pub fn parse_suggestions(raw: &str) -> (r: Suggestions)
    ensures
        conflict_views(r.conflicts@) == array_objects(raw@, "conflicts"@).filter_map(
            |o: Seq<char>| json_conflict_rule(o),
        ),
        bloat_views(r.bloat@) == array_objects(raw@, "bloat"@).filter_map(
            |o: Seq<char>| json_bloat_rule(o),
        ),
        default_rule_views(r.default_features@) == json_default_objects(raw@).filter_map(
            |o: Seq<char>| json_default_rule(o),
        ),
{
    let s = chars_of(raw);
    let conflicts = conflict_rules_of(&array_objects_exec(&s, "conflicts"));
    let bloat = bloat_rules_of(&array_objects_exec(&s, "bloat"));
    let default_objects = match object_field_exec(&s, "default_features") {
        Some(d) => array_objects_exec(&d, "suggest_opt_out"),
        None => {
            assert(char_views(Seq::<Vec<char>>::empty()) =~= Seq::<Seq<char>>::empty());
            Vec::new()
        },
    };
    let default_features = default_rules_of(&default_objects);
    Suggestions { conflicts, bloat, default_features }
}

/// What a finding says.
pub struct FindingView {
    pub crate_name: Seq<char>,
    pub feature: Option<Seq<char>>,
    pub kind: FindingKind,
    pub severity: Severity,
    pub message: Seq<char>,
}

pub open spec fn opt_text(o: Option<String>) -> Option<Seq<char>> {
    match o {
        Some(s) => Some(s@),
        None => None,
    }
}

impl View for Finding {
    type V = FindingView;

    open spec fn view(&self) -> FindingView {
        FindingView {
            crate_name: self.crate_name@,
            feature: opt_text(self.feature),
            kind: self.kind,
            severity: self.severity,
            message: self.message@,
        }
    }
}

pub open spec fn finding_views(v: Seq<Finding>) -> Seq<FindingView> {
    v.map_values(|f: Finding| f@)
}

/// The nodes of a graph in package-ID order.
pub open spec fn graph_nodes(g: &FeatureGraph) -> Seq<NodeView> {
    g.nodes.vals().map_values(|n: FeatureNode| n@)
}

/// One list of findings per node, in node order, concatenated.
pub open spec fn per_node(nodes: Seq<NodeView>, f: spec_fn(NodeView) -> Seq<FindingView>) -> Seq<FindingView>
    decreases nodes.len(),
{
    if nodes.len() == 0 {
        Seq::empty()
    } else {
        per_node(nodes.drop_last(), f) + f(nodes.last())
    }
}

/// What `f` gives for an element of `s` is in `s.filter_map(f)`.
pub proof fn lemma_filter_map_has<A, B>(s: Seq<A>, f: spec_fn(A) -> Option<B>, i: int, y: B)
    requires
        0 <= i < s.len(),
        f(s[i]) == Some(y),
    ensures
        s.filter_map(f).contains(y),
    decreases s.len(),
{
    let rest = s.drop_last();
    if i == s.len() - 1 {
        assert(s.filter_map(f) == rest.filter_map(f) + seq![y]);
        assert(s.filter_map(f)[rest.filter_map(f).len() as int] == y);
    } else {
        assert(rest[i] == s[i]);
        lemma_filter_map_has(rest, f, i, y);
        let k = choose|k: int| 0 <= k < rest.filter_map(f).len() && rest.filter_map(f)[k] == y;
        match f(s.last()) {
            Some(v) => {
                assert(s.filter_map(f) == rest.filter_map(f) + seq![v]);
                assert(s.filter_map(f)[k] == y);
            },
            None => {},
        }
    }
}

/// A finding of `per_node` comes from the list of some node.
pub proof fn lemma_per_node_from(nodes: Seq<NodeView>, f: spec_fn(NodeView) -> Seq<FindingView>, x: FindingView)
    requires
        per_node(nodes, f).contains(x),
    ensures
        exists|i: int| 0 <= i < nodes.len() && #[trigger] f(nodes[i]).contains(x),
    decreases nodes.len(),
{
    let a = per_node(nodes.drop_last(), f);
    let b = f(nodes.last());
    let k = choose|k: int| 0 <= k < (a + b).len() && (a + b)[k] == x;
    if k < a.len() {
        assert(a[k] == x);
        lemma_per_node_from(nodes.drop_last(), f, x);
        let i = choose|i: int| 0 <= i < nodes.drop_last().len() && #[trigger] f(nodes.drop_last()[i]).contains(x);
        assert(nodes[i] == nodes.drop_last()[i]);
    } else {
        assert(b[k - a.len()] == x);
        assert(f(nodes[nodes.len() - 1]).contains(x));
    }
}

/// Every finding of a node's list is a finding of `per_node`.
pub proof fn lemma_per_node_has(nodes: Seq<NodeView>, f: spec_fn(NodeView) -> Seq<FindingView>, i: int, x: FindingView)
    requires
        0 <= i < nodes.len(),
        f(nodes[i]).contains(x),
    ensures
        per_node(nodes, f).contains(x),
    decreases nodes.len(),
{
    let a = per_node(nodes.drop_last(), f);
    let b = f(nodes.last());
    if i == nodes.len() - 1 {
        let k = choose|k: int| 0 <= k < b.len() && b[k] == x;
        assert((a + b)[a.len() + k] == x);
    } else {
        assert(nodes.drop_last()[i] == nodes[i]);
        lemma_per_node_has(nodes.drop_last(), f, i, x);
        let k = choose|k: int| 0 <= k < a.len() && a[k] == x;
        assert((a + b)[k] == x);
    }
}

/// The finding of a default-feature rule on a node whose `default` feature
/// is active.
pub open spec fn default_finding(n: NodeView, r: DefaultFeatureRuleView) -> Option<FindingView> {
    if r.crate_name == n.name {
        Some(
            FindingView {
                crate_name: n.name,
                feature: Some("default"@),
                kind: FindingKind::DefaultFeature,
                severity: r.severity,
                message: r.reason,
            },
        )
    } else {
        None
    }
}

/// The default-feature findings: per node with `default` active, in
/// package-ID order, per rule in order.
pub open spec fn default_feature_findings(nodes: Seq<NodeView>, rules: Seq<DefaultFeatureRuleView>) -> Seq<
    FindingView,
> {
    per_node(
        nodes,
        |n: NodeView|
            if n.active_features.contains("default"@) {
                rules.filter_map(|r: DefaultFeatureRuleView| default_finding(n, r))
            } else {
                Seq::empty()
            },
    )
}

/// A default-feature finding is reported only on a node whose `default`
/// feature is active, for a rule naming that node's crate, with the rule's
/// reason as its message.
pub proof fn lemma_default_findings_sound(nodes: Seq<NodeView>, rules: Seq<DefaultFeatureRuleView>, x: FindingView)
    requires
        default_feature_findings(nodes, rules).contains(x),
    ensures
        x.kind == FindingKind::DefaultFeature,
        x.feature == Some("default"@),
        exists|i: int, j: int|
            0 <= i < nodes.len() && 0 <= j < rules.len() && #[trigger] nodes[i].name == x.crate_name
                && #[trigger] rules[j].crate_name == x.crate_name && nodes[i].active_features.contains("default"@)
                && x.message == rules[j].reason && x.severity == rules[j].severity,
{
    let per = |n: NodeView|
        if n.active_features.contains("default"@) {
            rules.filter_map(|r: DefaultFeatureRuleView| default_finding(n, r))
        } else {
            Seq::empty()
        };
    lemma_per_node_from(nodes, per, x);
    let i = choose|i: int| 0 <= i < nodes.len() && #[trigger] per(nodes[i]).contains(x);
    let n = nodes[i];
    assert(n.active_features.contains("default"@));
    rules.lemma_filter_map_contains(|r: DefaultFeatureRuleView| default_finding(n, r), x);
    let r = choose|r: DefaultFeatureRuleView| #[trigger] rules.contains(r) && default_finding(n, r) == Some(x);
    let j = choose|j: int| 0 <= j < rules.len() && rules[j] == r;
    assert(nodes[i].name == x.crate_name && rules[j].crate_name == x.crate_name);
}

/// Where a node's `default` feature is active and a rule names its crate,
/// a default-feature finding on that crate with the rule's reason is
/// reported.
pub proof fn lemma_default_findings_complete(nodes: Seq<NodeView>, rules: Seq<DefaultFeatureRuleView>, i: int, j: int)
    requires
        0 <= i < nodes.len(),
        0 <= j < rules.len(),
        rules[j].crate_name == nodes[i].name,
        nodes[i].active_features.contains("default"@),
    ensures
        exists|x: FindingView|
            #[trigger] default_feature_findings(nodes, rules).contains(x) && x.crate_name == nodes[i].name
                && x.kind == FindingKind::DefaultFeature && x.message == rules[j].reason,
{
    let n = nodes[i];
    let x = default_finding(n, rules[j]).unwrap();
    lemma_filter_map_has(rules, |r: DefaultFeatureRuleView| default_finding(n, r), j, x);
    let per = |n: NodeView|
        if n.active_features.contains("default"@) {
            rules.filter_map(|r: DefaultFeatureRuleView| default_finding(n, r))
        } else {
            Seq::empty()
        };
    assert(per(nodes[i]).contains(x));
    lemma_per_node_has(nodes, per, i, x);
    assert(default_feature_findings(nodes, rules).contains(x));
}

/// Default-feature findings: a crate whose resolved features include
/// `default` and that a rule suggests opting out of defaults for.
pub fn default_features(context: &AnalysisContext<'_>) -> (r: Vec<Finding>)
    ensures
        finding_views(r@) == default_feature_findings(
            graph_nodes(context.graph),
            default_rule_views(context.suggestions.default_features@),
        ),
{
    let nodes = context.graph.sorted_nodes();
    let rules = &context.suggestions.default_features;
    let ghost ns = graph_nodes(context.graph);
    let ghost rs = default_rule_views(rules@);
    let ghost per = |n: NodeView|
        if n.active_features.contains("default"@) {
            rs.filter_map(|r: DefaultFeatureRuleView| default_finding(n, r))
        } else {
            Seq::empty()
        };
    let mut findings: Vec<Finding> = Vec::new();
    let mut i: usize = 0;
    proof {
        assert(finding_views(findings@) =~= per_node(ns.take(0), per));
    }
    while i < nodes.len()
        invariant
            i <= nodes.len(),
            ns == graph_nodes(context.graph),
            ns.len() == nodes@.len(),
            forall|k: int| 0 <= k < nodes@.len() ==> (#[trigger] nodes@[k])@ == ns[k],
            rs == default_rule_views(rules@),
            per == (|n: NodeView|
                if n.active_features.contains("default"@) {
                    rs.filter_map(|r: DefaultFeatureRuleView| default_finding(n, r))
                } else {
                    Seq::empty()
                }),
            finding_views(findings@) == per_node(ns.take(i as int), per),
        decreases nodes.len() - i,
    {
        let node = nodes[i];
        let ghost nv = ns[i as int];
        let ghost start = finding_views(findings@);
        proof {
            assert(ns.take(i + 1).drop_last() =~= ns.take(i as int));
            assert(ns.take(i + 1).last() == nv);
        }
        // Cargo metadata's resolved feature list is the source of truth: a
        // resolved `default` feature means the crate's defaults are active.
        if !node.active_features.contains("default") {
            proof {
                assert(start + per(nv) =~= start);
            }
            i = i + 1;
            continue;
        }
        let mut j: usize = 0;
        while j < rules.len()
            invariant
                j <= rules.len(),
                node@ == nv,
                rs == default_rule_views(rules@),
                finding_views(findings@) == start + rs.take(j as int).filter_map(
                    |r: DefaultFeatureRuleView| default_finding(nv, r),
                ),
            decreases rules.len() - j,
        {
            let rule = &rules[j];
            let ghost before = finding_views(findings@);
            proof {
                assert(rs.take(j + 1).drop_last() =~= rs.take(j as int));
                assert(rs.take(j + 1).last() == rule@);
            }
            if str_eq(rule.crate_name.as_str(), node.name.as_str()) {
                let f = Finding {
                    crate_name: node.name.clone(),
                    feature: Some(crate::text::owned("default")),
                    kind: FindingKind::DefaultFeature,
                    severity: rule.severity,
                    message: rule.reason.clone(),
                };
                findings.push(f);
                proof {
                    assert(finding_views(findings@) =~= before.push(default_finding(nv, rule@).unwrap()));
                }
            }
            proof {
                assert(start + rs.take(j + 1).filter_map(|r: DefaultFeatureRuleView| default_finding(nv, r))
                    =~= finding_views(findings@));
            }
            j = j + 1;
        }
        proof {
            assert(rs.take(rules.len() as int) =~= rs);
        }
        i = i + 1;
    }
    proof {
        assert(ns.take(nodes.len() as int) =~= ns);
    }
    findings
}

/// Every finding of the five passes before sorting: unused features,
/// conflicts, duplicates, bloat, then default features.
pub open spec fn all_findings(
    nodes: Seq<NodeView>,
    usage: Map<Seq<char>, Set<Seq<char>>>,
    suggestions: &Suggestions,
) -> Seq<FindingView> {
    unused_findings(nodes, usage) + conflict_findings(nodes, conflict_views(suggestions.conflicts@))
        + duplicate_findings(nodes) + bloat_findings(nodes, bloat_views(suggestions.bloat@))
        + default_feature_findings(nodes, default_rule_views(suggestions.default_features@))
}

/// Runs every pass and returns the findings in report order. `usage` holds
/// the scanned source usage of each package, keyed by manifest path.
pub fn run_all(context: &AnalysisContext<'_>, usage: &StrMap<SourceUsage>) -> (r: Vec<Finding>)
    ensures
        finding_views(r@) == report_order(
            all_findings(graph_nodes(context.graph), usage_view(*usage), context.suggestions),
        ),
{
    let mut findings: Vec<Finding> = Vec::new();
    let mut part = unused::analyze(context, usage);
    findings.append(&mut part);
    let mut part = conflicts::analyze(context);
    findings.append(&mut part);
    let mut part = duplication::analyze(context);
    findings.append(&mut part);
    let mut part = bloat::analyze(context);
    findings.append(&mut part);
    let mut part = default_features(context);
    findings.append(&mut part);
    proof {
        let ns = graph_nodes(context.graph);
        assert(finding_views(findings@) =~= all_findings(ns, usage_view(*usage), context.suggestions));
    }
    sort_findings(findings)
}

} // verus!
