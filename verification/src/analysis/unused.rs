//! Unused findings: an active feature that nothing refers to.
//!
//! A feature other than `default` is unused when no feature list of its
//! package names it (as itself or as the `/name` part of `dep/name`), no
//! dependency feature list names it, it is not an optional dependency, and
//! the package's scanned sources do not test it. The scanned sources are
//! handed in per manifest path; a package without an entry was not scanned.
use vstd::prelude::*;

use crate::analysis::source_usage::SourceUsage;
use crate::analysis::{
    finding_views, graph_nodes, lemma_filter_map_has, lemma_per_node_from, lemma_per_node_has, per_node,
    AnalysisContext, Finding, FindingKind, FindingView, Severity,
};
use crate::collections::{list_map_view, str_eq, StrMap, StrSet};
use crate::resolver::{FeatureNode, NodeView};
use crate::text::{ends_with, owned, push_str, str_ends_with, views};

verus! {

/// Whether an item of `items` is `f`, or, with `suffix`, ends with `/f`.
pub open spec fn names_feature(items: Seq<Seq<char>>, f: Seq<char>, suffix: bool) -> bool {
    exists|x: int|
        0 <= x < items.len() && (items[x] == f || (suffix && ends_with(
            #[trigger] items[x],
            "/"@ + f,
        )))
}

/// Whether some list of the map names `f`.
pub open spec fn some_list_names(m: Map<Seq<char>, Seq<Seq<char>>>, f: Seq<char>, suffix: bool) -> bool {
    exists|k: Seq<char>| m.dom().contains(k) && names_feature(#[trigger] m[k], f, suffix)
}

/// The features that the scanned sources of each manifest path test.
pub open spec fn usage_view(m: StrMap<SourceUsage>) -> Map<Seq<char>, Set<Seq<char>>> {
    m.as_map().map_values(
        |u: SourceUsage| u.normal_features@.to_set() + u.dev_features@.to_set(),
    )
}

/// The tested features of a manifest path; none where it was not scanned.
pub open spec fn usage_refs(usage: Map<Seq<char>, Set<Seq<char>>>, path: Seq<char>) -> Set<Seq<char>> {
    if usage.dom().contains(path) {
        usage[path]
    } else {
        Set::empty()
    }
}

/// The unused finding of active feature `f` of node `n`, given the features
/// that the node's sources test.
pub open spec fn unused_finding(n: NodeView, f: Seq<char>, refs: Set<Seq<char>>) -> Option<FindingView> {
    if f != "default"@ && !some_list_names(n.available_features, f, true) && !some_list_names(
        n.dependency_features,
        f,
        false,
    ) && !n.optional_dependencies.contains(f) && !refs.contains(f) {
        Some(
            FindingView {
                crate_name: n.name,
                feature: Some(f),
                kind: FindingKind::Unused,
                severity: Severity::Warning,
                message: "feature `"@ + f
                    + "` is active but not referenced by manifest feature expansion or scanned Rust source cfg usage"@,
            },
        )
    } else {
        None
    }
}

/// The unused findings of one node, by feature in sorted order.
pub open spec fn node_unused(n: NodeView, refs: Set<Seq<char>>) -> Seq<FindingView> {
    n.active_features.filter_map(|f: Seq<char>| unused_finding(n, f, refs))
}

/// The unused findings: per node in package-ID order.
pub open spec fn unused_findings(nodes: Seq<NodeView>, usage: Map<Seq<char>, Set<Seq<char>>>) -> Seq<FindingView> {
    per_node(nodes, |n: NodeView| node_unused(n, usage_refs(usage, n.manifest_path)))
}

/// Whether some list of `m` names `f` (as itself, or with `suffix` also as
/// the end of `dep/f`).
fn any_list_names(m: &StrMap<Vec<String>>, f: &str, suffix: bool) -> (r: bool)
    ensures
        r == some_list_names(list_map_view(*m), f@, suffix),
{
    m.wf_ensures();
    let ghost mv = list_map_view(*m);
    let mut slash_f = owned("/");
    push_str(&mut slash_f, f);
    let n = m.len();
    let mut j: usize = 0;
    while j < n
        invariant
            j <= n,
            n == m.keys().len(),
            n == m.vals().len(),
            m.keys().no_duplicates(),
            mv == list_map_view(*m),
            slash_f@ == "/"@ + f@,
            forall|jj: int| 0 <= jj < j ==> !names_feature(#[trigger] views(m.vals()[jj]@), f@, suffix),
        decreases n - j,
    {
        let items = m.value_at(j);
        let mut x: usize = 0;
        while x < items.len()
            invariant
                x <= items.len(),
                j < n,
                n == m.keys().len(),
                n == m.vals().len(),
                m.keys().no_duplicates(),
                mv == list_map_view(*m),
                *items == m.vals()[j as int],
                slash_f@ == "/"@ + f@,
                forall|xx: int|
                    0 <= xx < x ==> !(views(items@)[xx] == f@ || (suffix && ends_with(
                        #[trigger] views(items@)[xx],
                        "/"@ + f@,
                    ))),
            decreases items.len() - x,
        {
            let item = items[x].as_str();
            if str_eq(item, f) || (suffix && str_ends_with(item, slash_f.as_str())) {
                proof {
                    let k = m.keys()[j as int];
                    m.keys().index_of_first_ensures(k);
                    assert(m.keys().contains(k));
                    assert(m.keys().index_of(k) == j) by {
                        if m.keys().index_of(k) != j {
                            assert(m.keys()[m.keys().index_of(k)] == k);
                        }
                    }
                    assert(mv.dom().contains(k));
                    assert(mv[k] == views(items@));
                    assert(views(items@)[x as int] == items@[x as int]@);
                    assert(names_feature(mv[k], f@, suffix));
                }
                return true;
            }
            x = x + 1;
        }
        proof {
            assert(!names_feature(views(m.vals()[j as int]@), f@, suffix)) by {
                assert(views(items@).len() == items@.len());
            }
        }
        j = j + 1;
    }
    proof {
        assert forall|k: Seq<char>| mv.dom().contains(k) implies !names_feature(#[trigger] mv[k], f@, suffix) by {
            let jj = m.keys().index_of(k);
            m.keys().index_of_first_ensures(k);
            assert(mv[k] == views(m.vals()[jj]@));
        }
    }
    false
}

/// The unused findings of one node.
fn node_analyze(node: &FeatureNode, refs: &StrSet, findings: &mut Vec<Finding>)
    ensures
        finding_views(final(findings)@) == finding_views(old(findings)@) + node_unused(
            node@,
            refs@.to_set(),
        ),
{
    let ghost nv = node@;
    let ghost start = finding_views(findings@);
    let ghost rs = refs@.to_set();
    let ghost g = |f: Seq<char>| unused_finding(nv, f, rs);
    let active = &node.active_features;
    let n = active.len();
    let mut i: usize = 0;
    proof {
        assert(start + nv.active_features.take(0).filter_map(g) =~= start);
    }
    while i < n
        invariant
            i <= n,
            n == nv.active_features.len(),
            nv == node@,
            *active == node.active_features,
            rs == refs@.to_set(),
            g == (|f: Seq<char>| unused_finding(nv, f, rs)),
            finding_views(findings@) == start + nv.active_features.take(i as int).filter_map(g),
        decreases n - i,
    {
        let feature = active.get(i).as_str();
        let ghost before = finding_views(findings@);
        proof {
            assert(nv.active_features.take(i + 1).drop_last() =~= nv.active_features.take(i as int));
            assert(nv.active_features.take(i + 1).last() == feature@);
            reveal_strlit("default");
        }
        let unused = !str_eq(feature, "default") && !any_list_names(&node.available_features, feature, true)
            && !any_list_names(&node.dependency_features, feature, false)
            && !node.optional_dependencies.contains(feature) && !refs.contains(feature);
        if unused {
            let mut message = owned("feature `");
            push_str(&mut message, feature);
            push_str(
                &mut message,
                "` is active but not referenced by manifest feature expansion or scanned Rust source cfg usage",
            );
            let f = Finding {
                crate_name: node.name.clone(),
                feature: Some(owned(feature)),
                kind: FindingKind::Unused,
                severity: Severity::Warning,
                message,
            };
            findings.push(f);
            proof {
                assert(g(feature@) is Some);
                assert(finding_views(findings@) =~= before.push(g(feature@).unwrap()));
            }
        } else {
            proof {
                assert(g(feature@) is None);
            }
        }
        proof {
            assert(start + nv.active_features.take(i + 1).filter_map(g) =~= finding_views(findings@));
        }
        i = i + 1;
    }
    proof {
        assert(nv.active_features.take(n as int) =~= nv.active_features);
    }
}

/// Finds active features that nothing refers to. `usage` holds, per
/// manifest path, what the package's scanned sources test.
pub fn analyze(context: &AnalysisContext<'_>, usage: &StrMap<SourceUsage>) -> (r: Vec<Finding>)
    ensures
        finding_views(r@) == unused_findings(graph_nodes(context.graph), usage_view(*usage)),
{
    let nodes = context.graph.sorted_nodes();
    let ghost ns = graph_nodes(context.graph);
    let ghost uv = usage_view(*usage);
    let ghost per = |n: NodeView| node_unused(n, usage_refs(uv, n.manifest_path));
    let mut findings: Vec<Finding> = Vec::new();
    let mut i: usize = 0;
    proof {
        assert(finding_views(findings@) =~= per_node(ns.take(0), per));
    }
    while i < nodes.len()
        invariant
            i <= nodes.len(),
            ns == graph_nodes(context.graph),
            ns.len() == nodes@.len(),
            forall|k: int| 0 <= k < nodes@.len() ==> (#[trigger] nodes@[k])@ == ns[k],
            uv == usage_view(*usage),
            per == (|n: NodeView| node_unused(n, usage_refs(uv, n.manifest_path))),
            finding_views(findings@) == per_node(ns.take(i as int), per),
        decreases nodes.len() - i,
    {
        let node = nodes[i];
        proof {
            assert(ns.take(i + 1).drop_last() =~= ns.take(i as int));
            assert(ns.take(i + 1).last() == ns[i as int]);
        }
        let refs = match usage.get(node.manifest_path.as_str()) {
            Some(u) => u.referenced_features(),
            None => StrSet::new(),
        };
        proof {
            let path = node@.manifest_path;
            if usage.keys().contains(path) {
                assert(uv.dom().contains(path));
            } else {
                assert(!uv.dom().contains(path));
                assert(refs@.to_set() =~= Set::<Seq<char>>::empty());
            }
            assert(refs@.to_set() == usage_refs(uv, path));
        }
        node_analyze(node, &refs, &mut findings);
        i = i + 1;
    }
    proof {
        assert(ns.take(nodes.len() as int) =~= ns);
    }
    findings
}

/// An unused finding never names `default`, nor a feature that the node's
/// scanned sources test, nor one of its optional dependencies.
pub proof fn lemma_unused_respects_sources(n: NodeView, refs: Set<Seq<char>>, u: FindingView)
    requires
        node_unused(n, refs).contains(u),
    ensures
        u.kind == FindingKind::Unused,
        u.crate_name == n.name,
        u.feature matches Some(f) && f != "default"@ && !refs.contains(f)
            && !n.optional_dependencies.contains(f) && n.active_features.contains(f),
{
    n.active_features.lemma_filter_map_contains(|f: Seq<char>| unused_finding(n, f, refs), u);
}

/// Whether the feature `f` goes unreferenced on node `n` given the
/// features `refs` that its sources test: it is not `default`, no item of a
/// feature list is `f` or ends with `/f`, no item of a dependency feature
/// list is `f`, it is no optional dependency, and the sources do not test it.
pub open spec fn unreferenced(n: NodeView, f: Seq<char>, refs: Set<Seq<char>>) -> bool {
    &&& f != "default"@
    &&& forall|k: Seq<char>, m: int|
        n.available_features.contains_key(k) && 0 <= m < n.available_features[k].len() ==> (#[trigger] n.available_features[k][m]
            != f && !ends_with(n.available_features[k][m], "/"@ + f))
    &&& forall|k: Seq<char>, m: int|
        n.dependency_features.contains_key(k) && 0 <= m < n.dependency_features[k].len()
            ==> #[trigger] n.dependency_features[k][m] != f
    &&& !n.optional_dependencies.contains(f)
    &&& !refs.contains(f)
}

proof fn lemma_unused_finding_iff(n: NodeView, f: Seq<char>, refs: Set<Seq<char>>)
    ensures
        unused_finding(n, f, refs) is Some <==> unreferenced(n, f, refs),
        unused_finding(n, f, refs) matches Some(u) ==> u.crate_name == n.name && u.feature == Some(f) && u.kind
            == FindingKind::Unused,
{
    if some_list_names(n.available_features, f, true) {
        let k = choose|k: Seq<char>| n.available_features.dom().contains(k) && names_feature(#[trigger] n.available_features[k], f, true);
        let m = choose|m: int|
            0 <= m < n.available_features[k].len() && (n.available_features[k][m] == f || (true && ends_with(
                #[trigger] n.available_features[k][m],
                "/"@ + f,
            )));
        assert(!(n.available_features[k][m] != f && !ends_with(n.available_features[k][m], "/"@ + f)));
    }
    if some_list_names(n.dependency_features, f, false) {
        let k = choose|k: Seq<char>| n.dependency_features.dom().contains(k) && names_feature(#[trigger] n.dependency_features[k], f, false);
        let m = choose|m: int|
            0 <= m < n.dependency_features[k].len() && (n.dependency_features[k][m] == f || (false && ends_with(
                #[trigger] n.dependency_features[k][m],
                "/"@ + f,
            )));
        assert(n.dependency_features[k][m] == f);
    }
    if !some_list_names(n.available_features, f, true) {
        assert forall|k: Seq<char>, m: int|
            n.available_features.contains_key(k) && 0 <= m < n.available_features[k].len() implies (#[trigger] n.available_features[k][m]
                != f && !ends_with(n.available_features[k][m], "/"@ + f)) by {
            if !(n.available_features[k][m] != f && !ends_with(n.available_features[k][m], "/"@ + f)) {
                assert(names_feature(n.available_features[k], f, true));
            }
        }
    }
    if !some_list_names(n.dependency_features, f, false) {
        assert forall|k: Seq<char>, m: int|
            n.dependency_features.contains_key(k) && 0 <= m < n.dependency_features[k].len() implies #[trigger] n.dependency_features[k][m]
                != f by {
            if n.dependency_features[k][m] == f {
                assert(names_feature(n.dependency_features[k], f, false));
            }
        }
    }
}

/// An unused finding of a node names one of its active features that goes
/// unreferenced: nothing in its feature lists, dependency feature lists,
/// optional dependencies or scanned sources refers to it; and every active
/// feature that goes unreferenced gets one.
pub proof fn lemma_node_unused_exact(n: NodeView, refs: Set<Seq<char>>)
    ensures
        forall|u: FindingView|
            #[trigger] node_unused(n, refs).contains(u) ==> u.kind == FindingKind::Unused && u.crate_name == n.name
                && u.feature is Some && n.active_features.contains(u.feature.unwrap()) && unreferenced(
                n,
                u.feature.unwrap(),
                refs,
            ),
        forall|j: int|
            0 <= j < n.active_features.len() && unreferenced(n, #[trigger] n.active_features[j], refs) ==> exists|u: FindingView|
                #[trigger] node_unused(n, refs).contains(u) && u.feature == Some(n.active_features[j]) && u.kind
                    == FindingKind::Unused,
{
    let g = |f: Seq<char>| unused_finding(n, f, refs);
    assert forall|u: FindingView| #[trigger] node_unused(n, refs).contains(u) implies u.kind == FindingKind::Unused
        && u.crate_name == n.name && u.feature is Some && n.active_features.contains(u.feature.unwrap())
        && unreferenced(n, u.feature.unwrap(), refs) by {
        n.active_features.lemma_filter_map_contains(g, u);
        let f = choose|f: Seq<char>| #[trigger] n.active_features.contains(f) && g(f) == Some(u);
        lemma_unused_finding_iff(n, f, refs);
    }
    assert forall|j: int|
        0 <= j < n.active_features.len() && unreferenced(n, #[trigger] n.active_features[j], refs) implies exists|u: FindingView|
            #[trigger] node_unused(n, refs).contains(u) && u.feature == Some(n.active_features[j]) && u.kind
                == FindingKind::Unused by {
        let f = n.active_features[j];
        lemma_unused_finding_iff(n, f, refs);
        let u = unused_finding(n, f, refs).unwrap();
        lemma_filter_map_has(n.active_features, g, j, u);
        assert(node_unused(n, refs).contains(u));
    }
}

/// Over a graph: an unused finding names an active feature of a node of its
/// crate that goes unreferenced given what that node's scanned sources test.
pub proof fn lemma_unused_findings_sound(nodes: Seq<NodeView>, usage: Map<Seq<char>, Set<Seq<char>>>, x: FindingView)
    requires
        unused_findings(nodes, usage).contains(x),
    ensures
        x.kind == FindingKind::Unused,
        x.feature is Some,
        exists|i: int|
            0 <= i < nodes.len() && #[trigger] nodes[i].name == x.crate_name && nodes[i].active_features.contains(
                x.feature.unwrap(),
            ) && unreferenced(nodes[i], x.feature.unwrap(), usage_refs(usage, nodes[i].manifest_path)),
{
    let per = |n: NodeView| node_unused(n, usage_refs(usage, n.manifest_path));
    lemma_per_node_from(nodes, per, x);
    let i = choose|i: int| 0 <= i < nodes.len() && #[trigger] per(nodes[i]).contains(x);
    lemma_node_unused_exact(nodes[i], usage_refs(usage, nodes[i].manifest_path));
    assert(node_unused(nodes[i], usage_refs(usage, nodes[i].manifest_path)).contains(x));
}

} // verus!
