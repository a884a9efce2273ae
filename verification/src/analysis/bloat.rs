//! Bloat findings: an active feature that a rule marks as heavy.
use vstd::prelude::*;

use crate::analysis::{
    bloat_views, finding_views, graph_nodes, lemma_filter_map_has, lemma_per_node_from, lemma_per_node_has,
    per_node, AnalysisContext, BloatRuleView, Finding, FindingKind, FindingView,
};
use crate::collections::str_eq;
use crate::resolver::NodeView;
use crate::text::{join, join_strings, push_str};

verus! {

/// The message of a bloat finding: the rule's message, then the crates it
/// pulls in, if it names any.
pub open spec fn bloat_message(r: BloatRuleView) -> Seq<char> {
    if r.pulls_in.len() == 0 {
        r.message
    } else {
        r.message + " Pulls in: "@ + join(r.pulls_in, ", "@) + "."@
    }
}

/// The finding of rule `r` on node `n`, where it applies.
pub open spec fn bloat_finding(n: NodeView, r: BloatRuleView) -> Option<FindingView> {
    if r.crate_name == n.name && n.active_features.contains(r.feature) {
        Some(
            FindingView {
                crate_name: n.name,
                feature: Some(r.feature),
                kind: FindingKind::Bloat,
                severity: r.severity,
                message: bloat_message(r),
            },
        )
    } else {
        None
    }
}

/// The bloat findings: per node in package-ID order, per rule in order.
pub open spec fn bloat_findings(nodes: Seq<NodeView>, rules: Seq<BloatRuleView>) -> Seq<FindingView> {
    per_node(nodes, |n: NodeView| rules.filter_map(|r: BloatRuleView| bloat_finding(n, r)))
}

pub fn analyze(context: &AnalysisContext<'_>) -> (r: Vec<Finding>)
    ensures
        finding_views(r@) == bloat_findings(
            graph_nodes(context.graph),
            bloat_views(context.suggestions.bloat@),
        ),
{
    let nodes = context.graph.sorted_nodes();
    let rules = &context.suggestions.bloat;
    let ghost ns = graph_nodes(context.graph);
    let ghost rs = bloat_views(rules@);
    let ghost per = |n: NodeView| rs.filter_map(|r: BloatRuleView| bloat_finding(n, r));
    let mut findings: Vec<Finding> = Vec::new();
    let mut i: usize = 0;
    proof {
        assert(ns.len() == nodes@.len());
        assert(finding_views(findings@) =~= per_node(ns.take(0), per));
    }
    while i < nodes.len()
        invariant
            i <= nodes.len(),
            ns == graph_nodes(context.graph),
            ns.len() == nodes@.len(),
            forall|k: int| 0 <= k < nodes@.len() ==> (#[trigger] nodes@[k])@ == ns[k],
            rs == bloat_views(rules@),
            per == (|n: NodeView| rs.filter_map(|r: BloatRuleView| bloat_finding(n, r))),
            finding_views(findings@) == per_node(ns.take(i as int), per),
        decreases nodes.len() - i,
    {
        let node = nodes[i];
        let ghost nv = ns[i as int];
        let ghost start = finding_views(findings@);
        proof {
            assert(ns.take(i + 1).drop_last() =~= ns.take(i as int));
            assert(ns.take(i + 1).last() == nv);
            assert(node@ == nv);
        }
        let mut j: usize = 0;
        while j < rules.len()
            invariant
                j <= rules.len(),
                node@ == nv,
                rs == bloat_views(rules@),
                finding_views(findings@) == start + rs.take(j as int).filter_map(
                    |r: BloatRuleView| bloat_finding(nv, r),
                ),
            decreases rules.len() - j,
        {
            let rule = &rules[j];
            let ghost before = finding_views(findings@);
            proof {
                assert(rs.take(j + 1).drop_last() =~= rs.take(j as int));
                assert(rs.take(j + 1).last() == rule@);
            }
            if str_eq(rule.crate_name.as_str(), node.name.as_str()) && node.active_features.contains(
                rule.feature.as_str(),
            ) {
                let message = if rule.pulls_in.len() == 0 {
                    rule.message.clone()
                } else {
                    let mut m = rule.message.clone();
                    push_str(&mut m, " Pulls in: ");
                    let joined = join_strings(&rule.pulls_in, ", ");
                    push_str(&mut m, joined.as_str());
                    push_str(&mut m, ".");
                    m
                };
                let f = Finding {
                    crate_name: node.name.clone(),
                    feature: Some(rule.feature.clone()),
                    kind: FindingKind::Bloat,
                    severity: rule.severity,
                    message,
                };
                findings.push(f);
                proof {
                    assert(finding_views(findings@) =~= before.push(bloat_finding(nv, rule@).unwrap()));
                    assert(start + rs.take(j + 1).filter_map(|r: BloatRuleView| bloat_finding(nv, r))
                        =~= before.push(bloat_finding(nv, rule@).unwrap()));
                }
            } else {
                proof {
                    assert(start + rs.take(j + 1).filter_map(|r: BloatRuleView| bloat_finding(nv, r))
                        =~= before);
                }
            }
            j = j + 1;
        }
        proof {
            assert(rs.take(rules.len() as int) =~= rs);
            assert(per(nv) == rs.filter_map(|r: BloatRuleView| bloat_finding(nv, r)));
        }
        i = i + 1;
    }
    proof {
        assert(ns.take(nodes.len() as int) =~= ns);
    }
    findings
}

/// A bloat finding names a feature that is active on a node of its crate
/// and that a rule for that crate marks as heavy.
pub proof fn lemma_bloat_findings_sound(nodes: Seq<NodeView>, rules: Seq<BloatRuleView>, x: FindingView)
    requires
        bloat_findings(nodes, rules).contains(x),
    ensures
        x.kind == FindingKind::Bloat,
        exists|i: int, j: int|
            0 <= i < nodes.len() && 0 <= j < rules.len() && #[trigger] nodes[i].name == x.crate_name
                && #[trigger] rules[j].crate_name == x.crate_name && x.feature == Some(rules[j].feature)
                && nodes[i].active_features.contains(rules[j].feature) && x.severity == rules[j].severity,
{
    let per = |n: NodeView| rules.filter_map(|r: BloatRuleView| bloat_finding(n, r));
    lemma_per_node_from(nodes, per, x);
    let i = choose|i: int| 0 <= i < nodes.len() && #[trigger] per(nodes[i]).contains(x);
    let n = nodes[i];
    rules.lemma_filter_map_contains(|r: BloatRuleView| bloat_finding(n, r), x);
    let r = choose|r: BloatRuleView| #[trigger] rules.contains(r) && bloat_finding(n, r) == Some(x);
    let j = choose|j: int| 0 <= j < rules.len() && rules[j] == r;
    assert(nodes[i].name == x.crate_name && rules[j].crate_name == x.crate_name);
}

/// Where a rule for a node's crate names a feature active on the node, a
/// bloat finding on that crate and feature is reported.
pub proof fn lemma_bloat_findings_complete(nodes: Seq<NodeView>, rules: Seq<BloatRuleView>, i: int, j: int)
    requires
        0 <= i < nodes.len(),
        0 <= j < rules.len(),
        rules[j].crate_name == nodes[i].name,
        nodes[i].active_features.contains(rules[j].feature),
    ensures
        exists|x: FindingView|
            #[trigger] bloat_findings(nodes, rules).contains(x) && x.crate_name == nodes[i].name && x.kind
                == FindingKind::Bloat && x.feature == Some(rules[j].feature),
{
    let n = nodes[i];
    let x = bloat_finding(n, rules[j]).unwrap();
    lemma_filter_map_has(rules, |r: BloatRuleView| bloat_finding(n, r), j, x);
    let per = |n: NodeView| rules.filter_map(|r: BloatRuleView| bloat_finding(n, r));
    assert(per(nodes[i]).contains(x));
    lemma_per_node_has(nodes, per, i, x);
    assert(bloat_findings(nodes, rules).contains(x));
}

} // verus!
