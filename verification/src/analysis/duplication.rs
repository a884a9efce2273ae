//! Duplicate findings: one active feature requested through more than one
//! requester lineage.
use vstd::prelude::*;

use crate::analysis::{
    finding_views, graph_nodes, lemma_filter_map_has, lemma_per_node_from, lemma_per_node_has, per_node,
    AnalysisContext, Finding, FindingKind, FindingView, Severity,
};
use crate::collections::{lemma_sorted_of, lemma_sorted_of_finite, sorted_of, str_eq, StrSet};
use crate::resolver::{source_views, FeatureNode, FeatureSource, NodeView, SourceView};
use crate::text::{join, join_strings, push_str};

verus! {

/// A source that only says that the package enabled its own feature.
pub open spec fn self_activation(n: NodeView, s: SourceView) -> bool {
    s.requested_by == n.name && (s.path.len() == 0 || (s.path.len() == 1 && s.path[0] == n.name))
}

/// How a lineage is shown: its path joined with ` -> `, or the requester
/// when there is no path.
pub open spec fn lineage_text(s: SourceView) -> Seq<char> {
    if s.path.len() == 0 {
        s.requested_by
    } else {
        join(s.path, " -> "@)
    }
}

/// The distinct lineages of the sources that are not self-activations.
pub open spec fn lineages(n: NodeView, srcs: Seq<SourceView>) -> Set<Seq<char>> {
    srcs.filter_map(
        |s: SourceView|
            if !self_activation(n, s) {
                Some(lineage_text(s))
            } else {
                None
            },
    ).to_set()
}

/// The duplicate finding of feature `f`, when it has two lineages or more.
pub open spec fn duplicate_finding(n: NodeView, f: Seq<char>, srcs: Seq<SourceView>) -> Option<FindingView> {
    let ls = sorted_of(lineages(n, srcs));
    if ls.len() > 1 {
        Some(
            FindingView {
                crate_name: n.name,
                feature: Some(f),
                kind: FindingKind::Duplicate,
                severity: Severity::Warning,
                message: "feature `"@ + f + "` is requested through multiple lineages: "@ + join(
                    ls,
                    "; "@,
                ),
            },
        )
    } else {
        None
    }
}

/// The duplicate findings of a node, by feature in sorted order.
pub open spec fn node_duplicates(n: NodeView) -> Seq<FindingView> {
    sorted_of(n.feature_sources.dom()).filter_map(
        |f: Seq<char>| duplicate_finding(n, f, n.feature_sources[f]),
    )
}

/// The duplicate findings: per node in package-ID order.
pub open spec fn duplicate_findings(nodes: Seq<NodeView>) -> Seq<FindingView> {
    per_node(nodes, |n: NodeView| node_duplicates(n))
}

pub fn is_self_activation(node: &FeatureNode, source: &FeatureSource) -> (r: bool)
    ensures
        r == self_activation(node@, source@),
{
    str_eq(source.requested_by.as_str(), node.name.as_str()) && (source.path.len() == 0 || (
    source.path.len() == 1 && str_eq(source.path[0].as_str(), node.name.as_str())))
}

pub fn format_lineage(source: &FeatureSource) -> (r: String)
    ensures
        r@ == lineage_text(source@),
{
    if source.path.len() == 0 {
        source.requested_by.clone()
    } else {
        join_strings(&source.path, " -> ")
    }
}

pub fn meaningful_lineages(node: &FeatureNode, sources: &Vec<FeatureSource>) -> (r: StrSet)
    ensures
        r@.to_set() == lineages(node@, source_views(sources@)),
{
    let ghost ss = source_views(sources@);
    let ghost f = |s: SourceView|
        if !self_activation(node@, s) {
            Some(lineage_text(s))
        } else {
            None
        };
    let mut set = StrSet::new();
    let mut i: usize = 0;
    proof {
        assert(ss.take(0).filter_map(f) =~= Seq::<Seq<char>>::empty());
        assert(set@.to_set() =~= Set::<Seq<char>>::empty());
    }
    while i < sources.len()
        invariant
            i <= sources.len(),
            ss == source_views(sources@),
            f == (|s: SourceView|
                if !self_activation(node@, s) {
                    Some(lineage_text(s))
                } else {
                    None
                }),
            set@.to_set() == ss.take(i as int).filter_map(f).to_set(),
        decreases sources.len() - i,
    {
        let source = &sources[i];
        let ghost prev = ss.take(i as int).filter_map(f);
        proof {
            assert(ss.take(i + 1).drop_last() =~= ss.take(i as int));
            assert(ss.take(i + 1).last() == source@);
        }
        if !is_self_activation(node, source) {
            let text = format_lineage(source);
            let ghost t = text@;
            set.insert(text);
            proof {
                assert(ss.take(i + 1).filter_map(f) =~= prev.push(t));
                prev.lemma_push_to_set_commute(t);
            }
        } else {
            assert(ss.take(i + 1).filter_map(f) =~= prev);
        }
        i = i + 1;
    }
    assert(ss.take(sources.len() as int) =~= ss);
    set
}

/// The duplicate findings of one node.
fn node_analyze(node: &FeatureNode, findings: &mut Vec<Finding>)
    ensures
        finding_views(final(findings)@) == finding_views(old(findings)@) + node_duplicates(node@),
{
    let ghost nv = node@;
    let ghost start = finding_views(findings@);
    let srcs = &node.feature_sources;
    srcs.wf_ensures();
    let ghost keys = srcs.keys();
    proof {
        lemma_sorted_of(keys);
        assert(keys.to_set() =~= nv.feature_sources.dom());
    }
    let ghost g = |f: Seq<char>| duplicate_finding(nv, f, nv.feature_sources[f]);
    let n = srcs.len();
    let mut i: usize = 0;
    proof {
        assert(start + keys.take(0).filter_map(g) =~= start);
    }
    while i < n
        invariant
            i <= n,
            n == keys.len(),
            n == srcs.vals().len(),
            keys == srcs.keys(),
            *srcs == node.feature_sources,
            keys.no_duplicates(),
            nv == node@,
            g == (|f: Seq<char>| duplicate_finding(nv, f, nv.feature_sources[f])),
            finding_views(findings@) == start + keys.take(i as int).filter_map(g),
        decreases n - i,
    {
        let feature = srcs.key_at(i);
        let sources = srcs.value_at(i);
        let ghost before = finding_views(findings@);
        proof {
            assert(keys.take(i + 1).drop_last() =~= keys.take(i as int));
            assert(keys.take(i + 1).last() == feature@);
            keys.index_of_first_ensures(feature@);
            assert(keys.contains(feature@));
            assert(keys.index_of(feature@) == i) by {
                if keys.index_of(feature@) != i {
                    assert(keys[keys.index_of(feature@)] == feature@);
                }
            }
            assert(srcs.as_map().dom().contains(feature@));
            assert(srcs.as_map()[feature@] == *sources);
            assert(nv.feature_sources[feature@] == source_views(sources@));
        }
        let lineage_set = meaningful_lineages(node, sources);
        lineage_set.sorted_ensures();
        proof {
            lemma_sorted_of(lineage_set@);
        }
        if lineage_set.len() > 1 {
            let ls = lineage_set.to_vec();
            let mut message = crate::text::owned("feature `");
            push_str(&mut message, feature.as_str());
            push_str(&mut message, "` is requested through multiple lineages: ");
            let joined = join_strings(&ls, "; ");
            push_str(&mut message, joined.as_str());
            let f = Finding {
                crate_name: node.name.clone(),
                feature: Some(feature.clone()),
                kind: FindingKind::Duplicate,
                severity: Severity::Warning,
                message,
            };
            findings.push(f);
            proof {
                assert(finding_views(findings@) =~= before.push(g(feature@).unwrap()));
            }
        }
        proof {
            assert(start + keys.take(i + 1).filter_map(g) =~= finding_views(findings@));
        }
        i = i + 1;
    }
    proof {
        assert(keys.take(n as int) =~= keys);
    }
}

pub fn analyze(context: &AnalysisContext<'_>) -> (r: Vec<Finding>)
    ensures
        finding_views(r@) == duplicate_findings(graph_nodes(context.graph)),
{
    let nodes = context.graph.sorted_nodes();
    let ghost ns = graph_nodes(context.graph);
    let mut findings: Vec<Finding> = Vec::new();
    let mut i: usize = 0;
    proof {
        assert(finding_views(findings@) =~= per_node(ns.take(0), |n: NodeView| node_duplicates(n)));
    }
    while i < nodes.len()
        invariant
            i <= nodes.len(),
            ns == graph_nodes(context.graph),
            ns.len() == nodes@.len(),
            forall|k: int| 0 <= k < nodes@.len() ==> (#[trigger] nodes@[k])@ == ns[k],
            finding_views(findings@) == per_node(ns.take(i as int), |n: NodeView| node_duplicates(n)),
        decreases nodes.len() - i,
    {
        proof {
            assert(ns.take(i + 1).drop_last() =~= ns.take(i as int));
            assert(ns.take(i + 1).last() == ns[i as int]);
        }
        node_analyze(nodes[i], &mut findings);
        i = i + 1;
    }
    proof {
        assert(ns.take(nodes.len() as int) =~= ns);
    }
    findings
}

/// Where a feature of a node has two sources that are not the package's own
/// activation and whose lineages differ, a duplicate finding on that node
/// and feature is reported.
pub proof fn lemma_duplicate_findings_complete(nodes: Seq<NodeView>, i: int, f: Seq<char>, a: int, b: int)
    requires
        0 <= i < nodes.len(),
        nodes[i].feature_sources.dom().finite(),
        nodes[i].feature_sources.contains_key(f),
        0 <= a < nodes[i].feature_sources[f].len(),
        0 <= b < nodes[i].feature_sources[f].len(),
        !self_activation(nodes[i], nodes[i].feature_sources[f][a]),
        !self_activation(nodes[i], nodes[i].feature_sources[f][b]),
        lineage_text(nodes[i].feature_sources[f][a]) != lineage_text(nodes[i].feature_sources[f][b]),
    ensures
        exists|x: FindingView|
            #[trigger] duplicate_findings(nodes).contains(x) && x.crate_name == nodes[i].name && x.feature
                == Some(f) && x.kind == FindingKind::Duplicate,
{
    broadcast use vstd::seq_lib::seq_to_set_is_finite;
    broadcast use vstd::set::group_set_axioms;

    let n = nodes[i];
    let srcs = n.feature_sources[f];
    let g = |s: SourceView|
        if !self_activation(n, s) {
            Some(lineage_text(s))
        } else {
            None
        };
    let la = lineage_text(srcs[a]);
    let lb = lineage_text(srcs[b]);
    lemma_filter_map_has(srcs, g, a, la);
    lemma_filter_map_has(srcs, g, b, lb);
    let ls = lineages(n, srcs);
    assert(ls == srcs.filter_map(g).to_set());
    assert(ls.contains(la) && ls.contains(lb));
    lemma_sorted_of_finite(ls);
    let pair = set![la, lb];
    assert(pair.len() == 2) by {
        assert(set![la].len() == 1);
        assert(pair =~= set![la].insert(lb));
    }
    vstd::set_lib::lemma_len_subset(pair, ls);
    let x = duplicate_finding(n, f, srcs).unwrap();
    assert(duplicate_finding(n, f, srcs) == Some(x));
    let keys = sorted_of(n.feature_sources.dom());
    lemma_sorted_of_finite(n.feature_sources.dom());
    assert(keys.to_set().contains(f));
    let k = choose|k: int| 0 <= k < keys.len() && keys[k] == f;
    lemma_filter_map_has(keys, |f: Seq<char>| duplicate_finding(n, f, n.feature_sources[f]), k, x);
    assert(node_duplicates(n).contains(x));
    let per = |n: NodeView| node_duplicates(n);
    assert(per(nodes[i]).contains(x));
    lemma_per_node_has(nodes, per, i, x);
    assert(duplicate_findings(nodes).contains(x));
}

/// A duplicate finding is reported only for a feature of a node that has
/// two sources, not the package's own activation, with different lineages.
pub proof fn lemma_duplicate_findings_sound(nodes: Seq<NodeView>, x: FindingView)
    requires
        forall|i: int| 0 <= i < nodes.len() ==> (#[trigger] nodes[i]).feature_sources.dom().finite(),
        duplicate_findings(nodes).contains(x),
    ensures
        x.kind == FindingKind::Duplicate,
        exists|i: int, f: Seq<char>, a: int, b: int|
            #![trigger nodes[i].feature_sources[f][a], nodes[i].feature_sources[f][b]]
            0 <= i < nodes.len() && nodes[i].name == x.crate_name && x.feature == Some(f)
                && nodes[i].feature_sources.contains_key(f) && 0 <= a < nodes[i].feature_sources[f].len()
                && 0 <= b < nodes[i].feature_sources[f].len() && !self_activation(nodes[i], nodes[i].feature_sources[f][a])
                && !self_activation(nodes[i], nodes[i].feature_sources[f][b]) && lineage_text(
                nodes[i].feature_sources[f][a],
            ) != lineage_text(nodes[i].feature_sources[f][b]),
{
    broadcast use vstd::seq_lib::seq_to_set_is_finite;

    let per = |n: NodeView| node_duplicates(n);
    lemma_per_node_from(nodes, per, x);
    let i = choose|i: int| 0 <= i < nodes.len() && #[trigger] per(nodes[i]).contains(x);
    let n = nodes[i];
    let keys = sorted_of(n.feature_sources.dom());
    let h = |f: Seq<char>| duplicate_finding(n, f, n.feature_sources[f]);
    keys.lemma_filter_map_contains(h, x);
    let f = choose|f: Seq<char>| #[trigger] keys.contains(f) && h(f) == Some(x);
    let srcs = n.feature_sources[f];
    let ls = lineages(n, srcs);
    let g = |s: SourceView|
        if !self_activation(n, s) {
            Some(lineage_text(s))
        } else {
            None
        };
    assert(ls == srcs.filter_map(g).to_set());
    assert(sorted_of(ls).len() > 1);
    lemma_sorted_of_finite(ls);
    let q = sorted_of(ls);
    assert(q[0] != q[1]) by {
        assert(q.no_duplicates());
    }
    assert(ls.contains(q[0]) && ls.contains(q[1])) by {
        assert(q.to_set().contains(q[0]));
        assert(q.to_set().contains(q[1]));
    }
    srcs.lemma_filter_map_contains(g, q[0]);
    srcs.lemma_filter_map_contains(g, q[1]);
    let s0 = choose|t: SourceView| #[trigger] srcs.contains(t) && g(t) == Some(q[0]);
    let s1 = choose|t: SourceView| #[trigger] srcs.contains(t) && g(t) == Some(q[1]);
    let a = choose|a: int| 0 <= a < srcs.len() && srcs[a] == s0;
    let b = choose|b: int| 0 <= b < srcs.len() && srcs[b] == s1;
    assert(n.feature_sources.contains_key(f)) by {
        lemma_sorted_of_finite(n.feature_sources.dom());
        assert(keys.to_set().contains(f));
    }
    assert(nodes[i].name == x.crate_name);
    assert(nodes[i].feature_sources[f][a] == s0 && nodes[i].feature_sources[f][b] == s1);
}

} // verus!
