//! Conflict findings: every feature of a rule's set is active at once.
use vstd::prelude::*;

use crate::analysis::{
    conflict_views, finding_views, graph_nodes, lemma_filter_map_has, lemma_per_node_from, lemma_per_node_has,
    per_node, AnalysisContext, ConflictRuleView, Finding, FindingKind, FindingView,
};
use crate::collections::{lemma_sorted_of, lemma_sorted_of_finite, sorted_of, str_eq, StrSet};
use crate::resolver::NodeView;
use crate::text::{join, join_strings, views};

verus! {

/// The finding of rule `r` on node `n`: the rule names the node's crate,
/// lists at least two distinct features, and all of them are active. The
/// finding's feature is the sorted list of those features.
pub open spec fn conflict_finding(n: NodeView, r: ConflictRuleView) -> Option<FindingView> {
    let fs = sorted_of(r.features.to_set());
    if r.crate_name == n.name && fs.len() >= 2 && forall|k: int|
        0 <= k < fs.len() ==> n.active_features.contains(#[trigger] fs[k]) {
        Some(
            FindingView {
                crate_name: n.name,
                feature: Some(join(fs, ", "@)),
                kind: FindingKind::Conflict,
                severity: r.severity,
                message: r.message,
            },
        )
    } else {
        None
    }
}

/// The conflict findings: per node in package-ID order, per rule in order.
pub open spec fn conflict_findings(nodes: Seq<NodeView>, rules: Seq<ConflictRuleView>) -> Seq<FindingView> {
    per_node(nodes, |n: NodeView| rules.filter_map(|r: ConflictRuleView| conflict_finding(n, r)))
}

pub fn analyze(context: &AnalysisContext<'_>) -> (r: Vec<Finding>)
    ensures
        finding_views(r@) == conflict_findings(
            graph_nodes(context.graph),
            conflict_views(context.suggestions.conflicts@),
        ),
{
    let nodes = context.graph.sorted_nodes();
    let rules = &context.suggestions.conflicts;
    let ghost ns = graph_nodes(context.graph);
    let ghost rs = conflict_views(rules@);
    let ghost per = |n: NodeView| rs.filter_map(|r: ConflictRuleView| conflict_finding(n, r));
    let mut findings: Vec<Finding> = Vec::new();
    let mut i: usize = 0;
    proof {
        assert(finding_views(findings@) =~= per_node(ns.take(0), per));
    }
    while i < nodes.len()
        invariant
            i <= nodes.len(),
            ns == graph_nodes(context.graph),
            ns.len() == nodes@.len(),
            forall|k: int| 0 <= k < nodes@.len() ==> (#[trigger] nodes@[k])@ == ns[k],
            rs == conflict_views(rules@),
            per == (|n: NodeView| rs.filter_map(|r: ConflictRuleView| conflict_finding(n, r))),
            finding_views(findings@) == per_node(ns.take(i as int), per),
        decreases nodes.len() - i,
    {
        let node = nodes[i];
        let ghost nv = ns[i as int];
        let ghost start = finding_views(findings@);
        proof {
            assert(ns.take(i + 1).drop_last() =~= ns.take(i as int));
            assert(ns.take(i + 1).last() == nv);
        }
        let mut j: usize = 0;
        while j < rules.len()
            invariant
                j <= rules.len(),
                node@ == nv,
                rs == conflict_views(rules@),
                finding_views(findings@) == start + rs.take(j as int).filter_map(
                    |r: ConflictRuleView| conflict_finding(nv, r),
                ),
            decreases rules.len() - j,
        {
            let rule = &rules[j];
            let ghost before = finding_views(findings@);
            proof {
                assert(rs.take(j + 1).drop_last() =~= rs.take(j as int));
                assert(rs.take(j + 1).last() == rule@);
            }
            let ghost hit = conflict_finding(nv, rule@);
            if !str_eq(rule.crate_name.as_str(), node.name.as_str()) {
                proof {
                    assert(hit is None);
                    assert(start + rs.take(j + 1).filter_map(|r: ConflictRuleView| conflict_finding(nv, r)) =~= before);
                }
                j = j + 1;
                continue;
            }
            let copy = rule.features.clone();
            assert(views(copy@) =~= views(rule.features@));
            let set = StrSet::from_vec(copy);
            let conflict_features = set.to_vec();
            let ghost fs = views(conflict_features@);
            proof {
                lemma_sorted_of(set@);
                assert(fs == sorted_of(rule@.features.to_set()));
            }
            if conflict_features.len() < 2 {
                proof {
                    assert(start + rs.take(j + 1).filter_map(|r: ConflictRuleView| conflict_finding(nv, r)) =~= before);
                }
                j = j + 1;
                continue;
            }
            let mut all = true;
            let mut k: usize = 0;
            while k < conflict_features.len()
                invariant
                    k <= conflict_features.len(),
                    fs == views(conflict_features@),
                    node@ == nv,
                    all == forall|m: int| 0 <= m < k ==> nv.active_features.contains(#[trigger] fs[m]),
                decreases conflict_features.len() - k,
            {
                let present = node.active_features.contains(conflict_features[k].as_str());
                let ghost prev_all = all;
                proof {
                    assert(fs[k as int] == conflict_features@[k as int]@);
                }
                if !present {
                    all = false;
                }
                proof {
                    assert(all == forall|m: int| 0 <= m < k + 1 ==> nv.active_features.contains(#[trigger] fs[m])) by {
                        if all {
                            assert forall|m: int| 0 <= m < k + 1 implies nv.active_features.contains(#[trigger] fs[m]) by {
                                if m < k {
                                    assert(prev_all);
                                }
                            }
                        }
                    }
                }
                k = k + 1;
            }
            if all {
                let f = Finding {
                    crate_name: node.name.clone(),
                    feature: Some(join_strings(&conflict_features, ", ")),
                    kind: FindingKind::Conflict,
                    severity: rule.severity,
                    message: rule.message.clone(),
                };
                findings.push(f);
                proof {
                    assert(hit is Some);
                    assert(finding_views(findings@) =~= before.push(hit.unwrap()));
                    assert(start + rs.take(j + 1).filter_map(|r: ConflictRuleView| conflict_finding(nv, r))
                        =~= before.push(hit.unwrap()));
                }
            } else {
                proof {
                    assert(hit is None);
                    assert(start + rs.take(j + 1).filter_map(|r: ConflictRuleView| conflict_finding(nv, r)) =~= before);
                }
            }
            j = j + 1;
        }
        proof {
            assert(rs.take(rules.len() as int) =~= rs);
        }
        i = i + 1;
    }
    proof {
        assert(ns.take(nodes.len() as int) =~= ns);
    }
    findings
}

/// A conflict finding is reported only where a rule for the node's crate
/// has every one of its listed features active on that node; it carries the
/// rule's severity and message.
pub proof fn lemma_conflict_findings_sound(nodes: Seq<NodeView>, rules: Seq<ConflictRuleView>, x: FindingView)
    requires
        conflict_findings(nodes, rules).contains(x),
    ensures
        x.kind == FindingKind::Conflict,
        exists|i: int, j: int|
            0 <= i < nodes.len() && 0 <= j < rules.len() && #[trigger] nodes[i].name == x.crate_name
                && #[trigger] rules[j].crate_name == x.crate_name && x.severity == rules[j].severity
                && x.message == rules[j].message && forall|m: int|
                0 <= m < rules[j].features.len() ==> nodes[i].active_features.contains(
                    #[trigger] rules[j].features[m],
                ),
{
    broadcast use vstd::seq_lib::seq_to_set_is_finite;

    let per = |n: NodeView| rules.filter_map(|r: ConflictRuleView| conflict_finding(n, r));
    lemma_per_node_from(nodes, per, x);
    let i = choose|i: int| 0 <= i < nodes.len() && #[trigger] per(nodes[i]).contains(x);
    let n = nodes[i];
    rules.lemma_filter_map_contains(|r: ConflictRuleView| conflict_finding(n, r), x);
    let r = choose|r: ConflictRuleView| #[trigger] rules.contains(r) && conflict_finding(n, r) == Some(x);
    let j = choose|j: int| 0 <= j < rules.len() && rules[j] == r;
    let fs = sorted_of(r.features.to_set());
    lemma_sorted_of_finite(r.features.to_set());
    assert forall|m: int| 0 <= m < r.features.len() implies n.active_features.contains(#[trigger] r.features[m]) by {
        assert(r.features.to_set().contains(r.features[m]));
        assert(fs.to_set().contains(r.features[m]));
        let k = choose|k: int| 0 <= k < fs.len() && fs[k] == r.features[m];
    }
    assert(nodes[i].name == x.crate_name && rules[j].crate_name == x.crate_name);
}

/// Where a rule for a node's crate lists at least two distinct features and
/// all of them are active on the node, a conflict finding on that crate with
/// the rule's severity and message is reported.
pub proof fn lemma_conflict_findings_complete(nodes: Seq<NodeView>, rules: Seq<ConflictRuleView>, i: int, j: int)
    requires
        0 <= i < nodes.len(),
        0 <= j < rules.len(),
        rules[j].crate_name == nodes[i].name,
        rules[j].features.to_set().len() >= 2,
        forall|m: int| 0 <= m < rules[j].features.len() ==> nodes[i].active_features.contains(#[trigger] rules[j].features[m]),
    ensures
        exists|x: FindingView|
            #[trigger] conflict_findings(nodes, rules).contains(x) && x.crate_name == nodes[i].name && x.kind
                == FindingKind::Conflict && x.severity == rules[j].severity && x.message == rules[j].message,
{
    broadcast use vstd::seq_lib::seq_to_set_is_finite;

    let n = nodes[i];
    let r = rules[j];
    let fs = sorted_of(r.features.to_set());
    lemma_sorted_of_finite(r.features.to_set());
    assert forall|k: int| 0 <= k < fs.len() implies n.active_features.contains(#[trigger] fs[k]) by {
        assert(fs.to_set().contains(fs[k]));
        assert(r.features.to_set().contains(fs[k]));
        let m = choose|m: int| 0 <= m < r.features.len() && r.features[m] == fs[k];
        assert(n.active_features.contains(r.features[m]));
    }
    let x = conflict_finding(n, r).unwrap();
    assert(conflict_finding(n, r) == Some(x));
    lemma_filter_map_has(rules, |r: ConflictRuleView| conflict_finding(n, r), j, x);
    let per = |n: NodeView| rules.filter_map(|r: ConflictRuleView| conflict_finding(n, r));
    assert(per(nodes[i]).contains(x));
    lemma_per_node_has(nodes, per, i, x);
    assert(conflict_findings(nodes, rules).contains(x));
}

} // verus!
