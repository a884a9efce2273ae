//! The order of feature-source lists: by the requesting feature, then by the
//! path, both compared lexicographically; equal sources keep their order.
use vstd::prelude::*;
use vstd::multiset::Multiset;

use crate::collections::{
    compare_str, lemma_lt_asym, lemma_lt_irreflexive, lemma_lt_total, lemma_lt_trans, seq_lt, Order3, StrMap,
};
use crate::resolver::{
    nodes_view, source_views, sources_view, FeatureGraph, FeatureNode, FeatureSource, GraphView, NodeView,
    SourceView,
};
use crate::text::views;

verus! {

/// Path `a` sorts strictly before path `b`: by the first step where they
/// differ, and a proper prefix before the longer path.
pub open spec fn path_lt(a: Seq<Seq<char>>, b: Seq<Seq<char>>) -> bool
    decreases a.len(),
{
    if a.len() == 0 {
        b.len() > 0
    } else if b.len() == 0 {
        false
    } else if a[0] != b[0] {
        seq_lt(a[0], b[0])
    } else {
        path_lt(a.drop_first(), b.drop_first())
    }
}

/// Source `a` sorts strictly before source `b`.
pub open spec fn source_lt(a: SourceView, b: SourceView) -> bool {
    seq_lt(a.requested_by, b.requested_by) || (a.requested_by == b.requested_by && path_lt(a.path, b.path))
}

/// `path_lt` is a strict total order.
pub proof fn lemma_path_lt_order(a: Seq<Seq<char>>, b: Seq<Seq<char>>, c: Seq<Seq<char>>)
    ensures
        !path_lt(a, a),
        path_lt(a, b) ==> !path_lt(b, a),
        path_lt(a, b) && path_lt(b, c) ==> path_lt(a, c),
        a != b ==> path_lt(a, b) || path_lt(b, a),
    decreases a.len(),
{
    if a.len() > 0 {
        lemma_lt_irreflexive(a[0]);
        if b.len() > 0 {
            lemma_lt_irreflexive(b[0]);
            lemma_lt_asym(a[0], b[0]);
            lemma_lt_total(a[0], b[0]);
            if a[0] == b[0] && a.drop_first() == b.drop_first() {
                assert(a.len() == a.drop_first().len() + 1);
                assert(b.len() == b.drop_first().len() + 1);
                assert forall|k: int| 0 <= k < a.len() implies a[k] == b[k] by {
                    if k > 0 {
                        assert(a[k] == a.drop_first()[k - 1]);
                        assert(b[k] == b.drop_first()[k - 1]);
                    }
                }
                assert(a =~= b);
            }
            if c.len() > 0 {
                if seq_lt(a[0], b[0]) && seq_lt(b[0], c[0]) {
                    lemma_lt_trans(a[0], b[0], c[0]);
                }
                lemma_lt_asym(b[0], c[0]);
                lemma_path_lt_order(a.drop_first(), b.drop_first(), c.drop_first());
            } else {
                lemma_path_lt_order(a.drop_first(), b.drop_first(), a.drop_first());
            }
        } else {
            lemma_path_lt_order(a.drop_first(), a.drop_first(), a.drop_first());
        }
    } else if b.len() == 0 {
        assert(a =~= b);
    }
}

proof fn lemma_source_lt_basic(a: SourceView, b: SourceView, c: SourceView)
    ensures
        !source_lt(a, a),
        source_lt(a, b) ==> !source_lt(b, a),
        source_lt(a, b) && source_lt(b, c) ==> source_lt(a, c),
        a != b ==> source_lt(a, b) || source_lt(b, a),
{
    lemma_lt_irreflexive(a.requested_by);
    lemma_lt_irreflexive(b.requested_by);
    lemma_lt_asym(a.requested_by, b.requested_by);
    lemma_lt_total(a.requested_by, b.requested_by);
    if seq_lt(a.requested_by, b.requested_by) && seq_lt(b.requested_by, c.requested_by) {
        lemma_lt_trans(a.requested_by, b.requested_by, c.requested_by);
    }
    lemma_path_lt_order(a.path, b.path, c.path);
}

/// `source_lt` is a strict total order on what sources say, so its
/// complement is transitive too.
pub proof fn lemma_source_lt_order(a: SourceView, b: SourceView, c: SourceView)
    ensures
        !source_lt(a, a),
        source_lt(a, b) ==> !source_lt(b, a),
        source_lt(a, b) && source_lt(b, c) ==> source_lt(a, c),
        a != b ==> source_lt(a, b) || source_lt(b, a),
        !source_lt(a, b) && !source_lt(b, c) ==> !source_lt(a, c),
{
    lemma_source_lt_basic(a, b, c);
    lemma_source_lt_basic(c, b, a);
    lemma_source_lt_basic(b, c, a);
    lemma_source_lt_basic(a, c, b);
}

/// Inserts `x` into `s` after every source that does not sort after it.
pub open spec fn insert_source(s: Seq<SourceView>, x: SourceView) -> Seq<SourceView>
    decreases s.len(),
{
    if s.len() == 0 {
        seq![x]
    } else if source_lt(x, s.last()) {
        insert_source(s.drop_last(), x).push(s.last())
    } else {
        s.push(x)
    }
}

/// The stable sort of `s` by `source_lt`.
pub open spec fn sort_sources(s: Seq<SourceView>) -> Seq<SourceView>
    decreases s.len(),
{
    if s.len() == 0 {
        Seq::empty()
    } else {
        insert_source(sort_sources(s.drop_last()), s.last())
    }
}

/// No source sorts before an earlier one.
pub open spec fn sources_in_order(s: Seq<SourceView>) -> bool {
    forall|i: int, j: int| 0 <= i < j < s.len() ==> !source_lt(#[trigger] s[j], #[trigger] s[i])
}

proof fn lemma_insert_source(s: Seq<SourceView>, x: SourceView)
    requires
        sources_in_order(s),
    ensures
        sources_in_order(insert_source(s, x)),
        insert_source(s, x).to_multiset() == s.to_multiset().insert(x),
        insert_source(s, x).len() == s.len() + 1,
        forall|k: int| 0 <= k < insert_source(s, x).len() ==> (#[trigger] insert_source(s, x)[k] == x
            || s.contains(insert_source(s, x)[k])),
    decreases s.len(),
{
    broadcast use vstd::multiset::group_multiset_axioms;
    broadcast use vstd::seq_lib::group_to_multiset_ensures;

    if s.len() == 0 {
        assert(seq![x] =~= Seq::<SourceView>::empty().push(x));
        assert(Seq::<SourceView>::empty().to_multiset() =~= Multiset::empty());
    } else if source_lt(x, s.last()) {
        let p = s.drop_last();
        assert(sources_in_order(p));
        lemma_insert_source(p, x);
        let q = insert_source(p, x);
        let r = q.push(s.last());
        assert(s =~= p.push(s.last()));
        assert forall|i: int, j: int| 0 <= i < j < r.len() implies !source_lt(#[trigger] r[j], #[trigger] r[i]) by {
            if j == r.len() - 1 {
                let y = q[i];
                lemma_source_lt_order(s.last(), y, x);
                if y != x {
                    let m = choose|m: int| 0 <= m < p.len() && p[m] == y;
                    assert(s[m] == y);
                    assert(!source_lt(s[s.len() - 1], s[m]));
                }
            }
        }
        assert(r.to_multiset() == q.to_multiset().insert(s.last()));
        assert(s.to_multiset() == p.to_multiset().insert(s.last()));
        assert(r.to_multiset() =~= s.to_multiset().insert(x));
        assert forall|k: int| 0 <= k < r.len() implies (#[trigger] r[k] == x || s.contains(r[k])) by {
            if k < q.len() {
                if q[k] != x {
                    let m = choose|m: int| 0 <= m < p.len() && p[m] == q[k];
                    assert(s[m] == q[k]);
                }
            } else {
                assert(s[s.len() - 1] == r[k]);
            }
        }
    } else {
        let r = s.push(x);
        assert forall|i: int, j: int| 0 <= i < j < r.len() implies !source_lt(#[trigger] r[j], #[trigger] r[i]) by {
            if j == r.len() - 1 && i < s.len() - 1 {
                lemma_source_lt_order(x, s.last(), s[i]);
                assert(!source_lt(s[s.len() - 1], s[i]));
            }
        }
        assert forall|k: int| 0 <= k < r.len() implies (#[trigger] r[k] == x || s.contains(r[k])) by {
            if k < s.len() {
                assert(s[k] == r[k]);
            }
        }
    }
}

/// A sorted source list is in order: no source stands before one that sorts
/// before it.
pub proof fn lemma_sort_sources_in_order(s: Seq<SourceView>)
    ensures
        sources_in_order(sort_sources(s)),
        sort_sources(s).len() == s.len(),
    decreases s.len(),
{
    if s.len() > 0 {
        lemma_sort_sources_in_order(s.drop_last());
        lemma_insert_source(sort_sources(s.drop_last()), s.last());
    }
}

/// Sorting keeps every source, as often as it occurs: it is a permutation.
pub proof fn lemma_sort_sources_permutes(s: Seq<SourceView>)
    ensures
        sort_sources(s).to_multiset() == s.to_multiset(),
    decreases s.len(),
{
    broadcast use vstd::seq_lib::group_to_multiset_ensures;

    if s.len() == 0 {
        assert(sort_sources(s).to_multiset() =~= s.to_multiset());
    } else {
        lemma_sort_sources_permutes(s.drop_last());
        lemma_sort_sources_in_order(s.drop_last());
        lemma_insert_source(sort_sources(s.drop_last()), s.last());
        assert(s =~= s.drop_last().push(s.last()));
    }
}

/// Whether path `a` sorts strictly before path `b`.
fn path_less(a: &Vec<String>, b: &Vec<String>) -> (r: bool)
    ensures
        r == path_lt(views(a@), views(b@)),
{
    let ghost va = views(a@);
    let ghost vb = views(b@);
    let mut i: usize = 0;
    assert(va.skip(0) =~= va);
    assert(vb.skip(0) =~= vb);
    while i < a.len() && i < b.len()
        invariant
            i <= a.len(),
            i <= b.len(),
            va == views(a@),
            vb == views(b@),
            path_lt(va, vb) == path_lt(va.skip(i as int), vb.skip(i as int)),
        decreases a.len() - i,
    {
        let ghost sa = va.skip(i as int);
        let ghost sb = vb.skip(i as int);
        proof {
            assert(sa[0] == a@[i as int]@);
            assert(sb[0] == b@[i as int]@);
        }
        match compare_str(a[i].as_str(), b[i].as_str()) {
            Order3::Less => {
                proof {
                    lemma_lt_irreflexive(sa[0]);
                }
                return true;
            },
            Order3::Greater => {
                proof {
                    lemma_lt_irreflexive(sa[0]);
                    lemma_lt_asym(sa[0], sb[0]);
                }
                return false;
            },
            Order3::Equal => {
                proof {
                    assert(sa.drop_first() =~= va.skip(i + 1));
                    assert(sb.drop_first() =~= vb.skip(i + 1));
                }
                i = i + 1;
            },
        }
    }
    i < b.len()
}

/// Whether source `a` sorts strictly before source `b`.
pub fn source_less(a: &FeatureSource, b: &FeatureSource) -> (r: bool)
    ensures
        r == source_lt(a@, b@),
{
    match compare_str(a.requested_by.as_str(), b.requested_by.as_str()) {
        Order3::Less => true,
        Order3::Greater => {
            proof {
                lemma_lt_asym(b@.requested_by, a@.requested_by);
            }
            false
        },
        Order3::Equal => {
            proof {
                lemma_lt_irreflexive(a@.requested_by);
            }
            path_less(&a.path, &b.path)
        },
    }
}

/// Sorts a source list; sources that say the same keep their order.
pub fn sort_source_list(sources: Vec<FeatureSource>) -> (r: Vec<FeatureSource>)
    ensures
        source_views(r@) == sort_sources(source_views(sources@)),
{
    let ghost all = source_views(sources@);
    let n = sources.len();
    let mut out: Vec<FeatureSource> = Vec::new();
    let mut i: usize = 0;
    proof {
        assert(all.take(0) =~= Seq::<SourceView>::empty());
        assert(source_views(out@) =~= Seq::<SourceView>::empty());
    }
    while i < n
        invariant
            i <= n,
            n == sources.len(),
            all == source_views(sources@),
            source_views(out@) == sort_sources(all.take(i as int)),
        decreases n - i,
    {
        let x = sources[i].clone();
        let ghost s = source_views(out@);
        let ghost xv = x@;
        proof {
            assert(xv == all[i as int]);
            assert(all.take(i + 1).drop_last() =~= all.take(i as int));
            assert(all.take(i + 1).last() == xv);
        }
        let mut j = out.len();
        proof {
            assert(s.take(j as int) =~= s);
            assert(s.skip(j as int) =~= Seq::<SourceView>::empty());
            assert(insert_source(s, xv) =~= insert_source(s.take(j as int), xv) + s.skip(j as int));
        }
        while j > 0 && source_less(&x, &out[j - 1])
            invariant
                j <= out.len(),
                s == source_views(out@),
                xv == x@,
                insert_source(s, xv) == insert_source(s.take(j as int), xv) + s.skip(j as int),
            decreases j,
        {
            proof {
                let t = s.take(j as int);
                assert(t.drop_last() =~= s.take(j - 1));
                assert(t.last() == s[j - 1]);
                assert(s.skip(j - 1) =~= seq![s[j - 1]] + s.skip(j as int));
                assert(insert_source(t, xv) == insert_source(s.take(j - 1), xv).push(s[j - 1]));
                assert(insert_source(s.take(j - 1), xv).push(s[j - 1]) + s.skip(j as int)
                    =~= insert_source(s.take(j - 1), xv) + s.skip(j - 1));
            }
            j = j - 1;
        }
        proof {
            let t = s.take(j as int);
            if j == 0 {
                assert(insert_source(t, xv) =~= t.push(xv));
            } else {
                assert(t.last() == s[j - 1]);
                assert(insert_source(t, xv) == t.push(xv));
            }
        }
        out.insert(j, x);
        proof {
            assert(source_views(out@) =~= s.take(j as int).push(xv) + s.skip(j as int));
        }
        i = i + 1;
    }
    proof {
        assert(all.take(n as int) =~= all);
    }
    out
}

/// Every source list of a node, sorted.
pub open spec fn sorted_node_sources(n: NodeView) -> NodeView {
    NodeView { feature_sources: n.feature_sources.map_values(|s: Seq<SourceView>| sort_sources(s)), ..n }
}

/// Every source list of every node, sorted.
pub open spec fn with_sorted_sources(g: GraphView) -> GraphView {
    GraphView { nodes: g.nodes.map_values(|n: NodeView| sorted_node_sources(n)), ..g }
}

/// After sorting, each source list of each node is in order and holds the
/// same sources, as often, as before.
pub proof fn lemma_sorted_sources(g: GraphView, id: Seq<char>, f: Seq<char>)
    requires
        g.nodes.contains_key(id),
        g.nodes[id].feature_sources.contains_key(f),
    ensures
        with_sorted_sources(g).nodes[id].feature_sources.contains_key(f),
        sources_in_order(with_sorted_sources(g).nodes[id].feature_sources[f]),
        with_sorted_sources(g).nodes[id].feature_sources[f].to_multiset()
            == g.nodes[id].feature_sources[f].to_multiset(),
{
    lemma_sort_sources_in_order(g.nodes[id].feature_sources[f]);
    lemma_sort_sources_permutes(g.nodes[id].feature_sources[f]);
}

/// Sorts every source list of a feature-source map.
fn sort_source_map(m: &mut StrMap<Vec<FeatureSource>>)
    ensures
        sources_view(*final(m)) == sources_view(*old(m)).map_values(|s: Seq<SourceView>| sort_sources(s)),
{
    let ghost m0 = sources_view(*m);
    m.wf_ensures();
    let ghost keys = m.keys();
    let n = m.len();
    let mut i: usize = 0;
    while i < n
        invariant
            i <= n,
            n == keys.len(),
            keys == m.keys(),
            keys.no_duplicates(),
            sources_view(*m).dom() == m0.dom(),
            forall|k: Seq<char>|
                #[trigger] m0.contains_key(k) ==> sources_view(*m)[k] == (if keys.index_of(k) < i {
                    sort_sources(m0[k])
                } else {
                    m0[k]
                }),
        decreases n - i,
    {
        let ghost key = keys[i as int];
        proof {
            keys.index_of_first_ensures(key);
            assert(keys.contains(key));
            assert(keys.index_of(key) == i) by {
                if keys.index_of(key) != i {
                    assert(keys[keys.index_of(key)] == key);
                }
            }
        }
        let v = m.replace_at(i, Vec::new());
        let sorted = sort_source_list(v);
        m.replace_at(i, sorted);
        proof {
            assert forall|k: Seq<char>|
                #[trigger] m0.contains_key(k) implies sources_view(*m)[k] == (if keys.index_of(k) < i + 1 {
                    sort_sources(m0[k])
                } else {
                    m0[k]
                }) by {
                keys.index_of_first_ensures(k);
                if k != key {
                    assert(keys.index_of(k) != i);
                }
            }
        }
        i = i + 1;
    }
    proof {
        assert forall|k: Seq<char>| #[trigger] m0.contains_key(k) implies keys.index_of(k) < n by {
            keys.index_of_first_ensures(k);
        }
        assert(sources_view(*m) =~= m0.map_values(|s: Seq<SourceView>| sort_sources(s)));
    }
}

/// Sorts every source list of every node of the graph.
pub fn sort_graph_sources(graph: &mut FeatureGraph)
    ensures
        final(graph)@ == with_sorted_sources(old(graph)@),
{
    let ghost g0 = graph@;
    graph.nodes.wf_ensures();
    let ghost keys = graph.nodes.keys();
    let n = graph.nodes.len();
    let mut i: usize = 0;
    while i < n
        invariant
            i <= n,
            n == keys.len(),
            keys == graph.nodes.keys(),
            keys.no_duplicates(),
            graph.workspace_members@ == g0.workspace_members,
            nodes_view(graph.nodes).dom() == g0.nodes.dom(),
            forall|id: Seq<char>|
                #[trigger] g0.nodes.contains_key(id) ==> nodes_view(graph.nodes)[id] == (if keys.index_of(id) < i {
                    sorted_node_sources(g0.nodes[id])
                } else {
                    g0.nodes[id]
                }),
        decreases n - i,
    {
        let ghost k = keys[i as int];
        proof {
            keys.index_of_first_ensures(k);
            assert(keys.contains(k));
            assert(keys.index_of(k) == i) by {
                if keys.index_of(k) != i {
                    assert(keys[keys.index_of(k)] == k);
                }
            }
        }
        let mut node = graph.nodes.replace_at(i, FeatureNode::default());
        let ghost nv = node@;
        sort_source_map(&mut node.feature_sources);
        proof {
            assert(node@ =~= sorted_node_sources(nv));
        }
        graph.nodes.replace_at(i, node);
        proof {
            assert forall|id: Seq<char>|
                #[trigger] g0.nodes.contains_key(id) implies nodes_view(graph.nodes)[id] == (if keys.index_of(id) < i + 1 {
                    sorted_node_sources(g0.nodes[id])
                } else {
                    g0.nodes[id]
                }) by {
                keys.index_of_first_ensures(id);
                if id != k {
                    assert(keys.index_of(id) != i);
                }
            }
        }
        i = i + 1;
    }
    proof {
        assert forall|id: Seq<char>| #[trigger] g0.nodes.contains_key(id) implies keys.index_of(id) < n by {
            keys.index_of_first_ensures(id);
        }
        assert(nodes_view(graph.nodes) =~= g0.nodes.map_values(|n: NodeView| sorted_node_sources(n)));
    }
}

} // verus!
