//! The enriched feature graph: one node per resolved package, keyed by
//! package ID, with active features and the recorded reasons they are active.
use vstd::prelude::*;

use crate::collections::{
    copy_list_map, list_map_view, lemma_sorted_of, merge_list_map, sort_strings, sort_texts, sorted_of,
    sorted_strict, StrMap, StrSet,
};
use crate::manifest::ParsedManifest;
use crate::metadata::{Metadata, Package, ResolveNode};
use crate::source_order::{sort_graph_sources, with_sorted_sources};
use crate::text::{chars_of, concat_all, find_char_from, split_char, split_exec, starts_with, string_of_all, sub_chars, views};

verus! {

/// A best-effort, enriched dependency graph keyed by Cargo package ID.
#[derive(Debug)]
pub struct FeatureGraph {
    pub workspace_members: StrSet,
    pub nodes: StrMap<FeatureNode>,
}

impl FeatureGraph {
    /// The nodes in package-ID order.
    pub fn sorted_nodes(&self) -> (r: Vec<&FeatureNode>)
        ensures
            r@.len() == self.nodes.vals().len(),
            forall|i: int| 0 <= i < r@.len() ==> *#[trigger] r@[i] == self.nodes.vals()[i],
    {
        self.nodes.wf_ensures();
        let mut r: Vec<&FeatureNode> = Vec::new();
        let n = self.nodes.len();
        let mut i: usize = 0;
        while i < n
            invariant
                i <= n,
                n == self.nodes.vals().len(),
                n == self.nodes.keys().len(),
                r@.len() == i,
                forall|k: int| 0 <= k < i ==> *#[trigger] r@[k] == self.nodes.vals()[k],
            decreases n - i,
        {
            r.push(self.nodes.value_at(i));
            i = i + 1;
        }
        r
    }

    /// The node of a package ID.
    pub fn get(&self, package_id: &str) -> (r: Option<&FeatureNode>)
        ensures
            r matches Some(n) ==> self.nodes.spec_get(package_id@) == Some(*n),
            r is None ==> self.nodes.spec_get(package_id@) is None,
    {
        self.nodes.get(package_id)
    }
}

impl Default for FeatureGraph {
    fn default() -> (r: Self)
        ensures
            r.workspace_members@ == Seq::<Seq<char>>::empty(),
            r.nodes.keys() == Seq::<Seq<char>>::empty(),
            r.nodes.vals() == Seq::<FeatureNode>::empty(),
    {
        FeatureGraph { workspace_members: StrSet::new(), nodes: StrMap::new() }
    }
}

/// Feature information for a single resolved package.
#[derive(Debug)]
pub struct FeatureNode {
    pub package_id: String,
    pub name: String,
    pub version: String,
    pub manifest_path: String,
    pub active_features: StrSet,
    pub available_features: StrMap<Vec<String>>,
    pub optional_dependencies: StrSet,
    pub dependency_features: StrMap<Vec<String>>,
    pub feature_sources: StrMap<Vec<FeatureSource>>,
    pub dependencies: Vec<String>,
}

impl Default for FeatureNode {
    fn default() -> (r: Self)
        ensures
            r.package_id@ == Seq::<char>::empty(),
            r.name@ == Seq::<char>::empty(),
            r.version@ == Seq::<char>::empty(),
            r.manifest_path@ == Seq::<char>::empty(),
            r.active_features@ == Seq::<Seq<char>>::empty(),
            r.available_features.keys() == Seq::<Seq<char>>::empty(),
            r.available_features.vals() == Seq::<Vec<String>>::empty(),
            r.optional_dependencies@ == Seq::<Seq<char>>::empty(),
            r.dependency_features.keys() == Seq::<Seq<char>>::empty(),
            r.dependency_features.vals() == Seq::<Vec<String>>::empty(),
            r.feature_sources.keys() == Seq::<Seq<char>>::empty(),
            r.feature_sources.vals() == Seq::<Vec<FeatureSource>>::empty(),
            r.dependencies@ == Seq::<String>::empty(),
    {
        FeatureNode {
            package_id: String::new(),
            name: String::new(),
            version: String::new(),
            manifest_path: String::new(),
            active_features: StrSet::new(),
            available_features: StrMap::new(),
            optional_dependencies: StrSet::new(),
            dependency_features: StrMap::new(),
            feature_sources: StrMap::new(),
            dependencies: Vec::new(),
        }
    }
}

/// A recorded reason that a feature is active.
#[derive(Debug, PartialEq, Eq)]
pub struct FeatureSource {
    pub requested_by: String,
    pub path: Vec<String>,
}

impl Clone for FeatureSource {
    fn clone(&self) -> (r: Self)
        ensures
            r.requested_by == self.requested_by,
            r.path@ == self.path@,
    {
        let path = self.path.clone();
        assert(path@ =~= self.path@);
        FeatureSource { requested_by: self.requested_by.clone(), path }
    }
}

/// What a feature source says.
pub struct SourceView {
    pub requested_by: Seq<char>,
    pub path: Seq<Seq<char>>,
}

impl View for FeatureSource {
    type V = SourceView;

    open spec fn view(&self) -> SourceView {
        SourceView { requested_by: self.requested_by@, path: views(self.path@) }
    }
}

pub open spec fn source_views(v: Seq<FeatureSource>) -> Seq<SourceView> {
    v.map_values(|s: FeatureSource| s@)
}

pub open spec fn sources_view(m: StrMap<Vec<FeatureSource>>) -> Map<Seq<char>, Seq<SourceView>> {
    m.as_map().map_values(|v: Vec<FeatureSource>| source_views(v@))
}

/// What a feature node says.
pub struct NodeView {
    pub package_id: Seq<char>,
    pub name: Seq<char>,
    pub version: Seq<char>,
    pub manifest_path: Seq<char>,
    pub active_features: Seq<Seq<char>>,
    pub available_features: Map<Seq<char>, Seq<Seq<char>>>,
    pub optional_dependencies: Seq<Seq<char>>,
    pub dependency_features: Map<Seq<char>, Seq<Seq<char>>>,
    pub feature_sources: Map<Seq<char>, Seq<SourceView>>,
    pub dependencies: Seq<Seq<char>>,
}

impl View for FeatureNode {
    type V = NodeView;

    open spec fn view(&self) -> NodeView {
        NodeView {
            package_id: self.package_id@,
            name: self.name@,
            version: self.version@,
            manifest_path: self.manifest_path@,
            active_features: self.active_features@,
            available_features: list_map_view(self.available_features),
            optional_dependencies: self.optional_dependencies@,
            dependency_features: list_map_view(self.dependency_features),
            feature_sources: sources_view(self.feature_sources),
            dependencies: views(self.dependencies@),
        }
    }
}

/// What a feature graph says.
pub struct GraphView {
    pub workspace_members: Seq<Seq<char>>,
    pub nodes: Map<Seq<char>, NodeView>,
}

pub open spec fn nodes_view(m: StrMap<FeatureNode>) -> Map<Seq<char>, NodeView> {
    m.as_map().map_values(|n: FeatureNode| n@)
}

impl View for FeatureGraph {
    type V = GraphView;

    open spec fn view(&self) -> GraphView {
        GraphView { workspace_members: self.workspace_members@, nodes: nodes_view(self.nodes) }
    }
}

/// The node of a package: its identity, and the manifest's feature data
/// with the package metadata's entries taking precedence.
pub open spec fn package_node(p: Package, m: ParsedManifest) -> NodeView {
    NodeView {
        package_id: p.id@,
        name: p.name@,
        version: p.version@,
        manifest_path: p.manifest_path@,
        active_features: Seq::empty(),
        available_features: m@.features.union_prefer_right(list_map_view(p.features)),
        optional_dependencies: sorted_of(
            m@.optional_dependencies + p.optional_dependencies@.to_set(),
        ),
        dependency_features: m@.dependency_features.union_prefer_right(
            list_map_view(p.dependency_features),
        ),
        feature_sources: Map::empty(),
        dependencies: Seq::empty(),
    }
}

/// The nodes of the first `n` packages; a later package with the same ID
/// replaces an earlier one.
pub open spec fn package_nodes(pkgs: Seq<Package>, ms: Seq<ParsedManifest>, n: int) -> Map<
    Seq<char>,
    NodeView,
>
    decreases n,
{
    if n <= 0 {
        Map::empty()
    } else {
        package_nodes(pkgs, ms, n - 1).insert(pkgs[n - 1].id@, package_node(pkgs[n - 1], ms[n - 1]))
    }
}

/// `srcs` with `s` appended to the sources of `f`.
pub open spec fn add_source(srcs: Map<Seq<char>, Seq<SourceView>>, f: Seq<char>, s: SourceView) -> Map<
    Seq<char>,
    Seq<SourceView>,
> {
    srcs.insert(
        f,
        (if srcs.contains_key(f) {
            srcs[f]
        } else {
            Seq::empty()
        }).push(s),
    )
}

/// The source that a package's own resolved feature has.
pub open spec fn self_source(name: Seq<char>) -> SourceView {
    SourceView { requested_by: name, path: seq![name] }
}

/// `srcs` with a self source appended for each of `feats`, in order.
pub open spec fn add_self_sources(
    srcs: Map<Seq<char>, Seq<SourceView>>,
    feats: Seq<Seq<char>>,
    name: Seq<char>,
) -> Map<Seq<char>, Seq<SourceView>>
    decreases feats.len(),
{
    if feats.len() == 0 {
        srcs
    } else {
        add_source(add_self_sources(srcs, feats.drop_last(), name), feats.last(), self_source(name))
    }
}

/// A resolve node applied to the node of its package, if there is one:
/// its features become active, and its dependencies, sorted (repeats kept),
/// replace the node's.
pub open spec fn apply_resolve_node(nodes: Map<Seq<char>, NodeView>, rn: ResolveNode) -> Map<
    Seq<char>,
    NodeView,
> {
    let id = rn.id@;
    if nodes.contains_key(id) {
        let n = nodes[id];
        nodes.insert(
            id,
            NodeView {
                active_features: sorted_of(
                    n.active_features.to_set() + views(rn.features@).to_set(),
                ),
                dependencies: sort_texts(views(rn.dependencies@)),
                feature_sources: add_self_sources(n.feature_sources, views(rn.features@), n.name),
                ..n
            },
        )
    } else {
        nodes
    }
}

/// The first `n` resolve nodes applied in order.
pub open spec fn apply_resolve_nodes(nodes: Map<Seq<char>, NodeView>, rns: Seq<ResolveNode>, n: int) -> Map<
    Seq<char>,
    NodeView,
>
    decreases n,
{
    if n <= 0 {
        nodes
    } else {
        apply_resolve_node(apply_resolve_nodes(nodes, rns, n - 1), rns[n - 1])
    }
}

/// The graph that metadata and manifests give before provenance is
/// recorded beyond each package's own resolved features.
pub open spec fn base_graph(md: Metadata, ms: Seq<ParsedManifest>) -> GraphView {
    GraphView {
        workspace_members: sorted_of(views(md.workspace_members@).to_set()),
        nodes: apply_resolve_nodes(
            package_nodes(md.packages@, ms, md.packages@.len() as int),
            md.resolve_nodes@,
            md.resolve_nodes@.len() as int,
        ),
    }
}

/// Appends `s` to the sources of `f`.
fn push_source(srcs: &mut StrMap<Vec<FeatureSource>>, f: &String, s: FeatureSource)
    ensures
        sources_view(*final(srcs)) == add_source(sources_view(*old(srcs)), f@, s@),
{
    let ghost before = sources_view(*srcs);
    let ghost sv = s@;
    srcs.wf_ensures();
    match srcs.index_of(f.as_str()) {
        Some(i) => {
            let mut v = srcs.replace_at(i, Vec::new());
            let ghost old_v = v@;
            v.push(s);
            srcs.replace_at(i, v);
            proof {
                assert(source_views(v@) =~= source_views(old_v).push(sv));
                assert(before.contains_key(f@));
                assert(sources_view(*srcs) =~= add_source(before, f@, sv));
            }
        },
        None => {
            let mut v: Vec<FeatureSource> = Vec::new();
            v.push(s);
            srcs.insert(f.clone(), v);
            proof {
                assert(source_views(v@) =~= Seq::<SourceView>::empty().push(sv));
                assert(sources_view(*srcs) =~= add_source(before, f@, sv));
            }
        },
    }
}

/// The node of a package, before resolve data is applied.
fn node_of_package(package: &Package, manifest: &ParsedManifest) -> (r: FeatureNode)
    ensures
        r@ == package_node(*package, *manifest),
{
    let mut available_features = copy_list_map(&manifest.features);
    merge_list_map(&mut available_features, &package.features);
    let mut optional_dependencies = manifest.optional_dependencies.clone();
    optional_dependencies.extend(&package.optional_dependencies);
    let mut dependency_features = copy_list_map(&manifest.dependency_features);
    merge_list_map(&mut dependency_features, &package.dependency_features);
    let r = FeatureNode {
        package_id: package.id.clone(),
        name: package.name.clone(),
        version: package.version.clone(),
        manifest_path: package.manifest_path.clone(),
        active_features: StrSet::new(),
        available_features,
        optional_dependencies,
        dependency_features,
        feature_sources: StrMap::new(),
        dependencies: Vec::new(),
    };
    proof {
        lemma_sorted_of(r.optional_dependencies@);
        assert(sources_view(r.feature_sources) =~= Map::<Seq<char>, Seq<SourceView>>::empty());
        assert(views(r.dependencies@) =~= Seq::<Seq<char>>::empty());
    }
    r
}

/// Applies a resolve node to the node of its package.
fn apply_resolve(nodes: &mut StrMap<FeatureNode>, rn: &ResolveNode)
    ensures
        nodes_view(*final(nodes)) == apply_resolve_node(nodes_view(*old(nodes)), *rn),
{
    let ghost before = nodes_view(*nodes);
    nodes.wf_ensures();
    let idx = match nodes.index_of(rn.id.as_str()) {
        None => {
            return;
        },
        Some(i) => i,
    };
    let mut node = nodes.replace_at(idx, FeatureNode::default());
    let ghost n0 = node@;
    let ghost feats = views(rn.features@);
    node.active_features.sorted_ensures();
    assert(feats.take(0) =~= Seq::<Seq<char>>::empty());
    assert(n0.active_features.to_set() + feats.take(0).to_set() =~= n0.active_features.to_set());
    let mut i: usize = 0;
    while i < rn.features.len()
        invariant
            i <= rn.features.len(),
            feats == views(rn.features@),
            node@ == (NodeView {
                active_features: node@.active_features,
                feature_sources: add_self_sources(n0.feature_sources, feats.take(i as int), n0.name),
                ..n0
            }),
            sorted_strict(node@.active_features),
            node@.active_features.to_set() == n0.active_features.to_set() + feats.take(i as int).to_set(),
        decreases rn.features.len() - i,
    {
        let f = &rn.features[i];
        node.active_features.insert(f.clone());
        let src = FeatureSource { requested_by: node.name.clone(), path: vec![node.name.clone()] };
        proof {
            assert(src@.path =~= seq![n0.name]);
        }
        push_source(&mut node.feature_sources, f, src);
        proof {
            assert(feats.take(i + 1).drop_last() =~= feats.take(i as int));
            assert(feats.take(i + 1) =~= feats.take(i as int).push(f@));
            feats.take(i as int).lemma_push_to_set_commute(f@);
            assert(node@.active_features.to_set() =~= n0.active_features.to_set() + feats.take(i + 1).to_set());
        }
        i = i + 1;
    }
    let listed = rn.dependencies.clone();
    assert(views(listed@) =~= views(rn.dependencies@));
    node.dependencies = sort_strings(listed);
    proof {
        assert(feats.take(rn.features.len() as int) =~= feats);
        lemma_sorted_of(node@.active_features);
        if n0.active_features.len() == 0 {
            assert(n0.active_features.to_set() =~= Set::<Seq<char>>::empty());
        }
    }
    nodes.replace_at(idx, node);
    proof {
        assert(before.contains_key(rn.id@));
        assert(before[rn.id@] == n0);
        assert(nodes_view(*nodes) =~= apply_resolve_node(before, *rn));
    }
}

/// A package reached by the dependency walk, with the path that reached it
/// (by package names) and the package IDs along that path, its own last.
pub struct WalkEntry {
    pub id: Seq<char>,
    pub path: Seq<Seq<char>>,
    pub trail: Seq<Seq<char>>,
}

/// A dependency edge taken by the walk: the requesting package's name, the
/// dependency's ID, and the path to the dependency.
pub struct WalkEdge {
    pub parent: Seq<char>,
    pub child: Seq<char>,
    pub path: Seq<Seq<char>>,
}

/// The position of the first resolve node with ID `id`, from `i` on.
pub open spec fn first_resolve_from(rns: Seq<ResolveNode>, id: Seq<char>, i: int) -> Option<int>
    decreases rns.len() - i,
{
    if i < 0 || i >= rns.len() {
        None
    } else if rns[i].id@ == id {
        Some(i)
    } else {
        first_resolve_from(rns, id, i + 1)
    }
}

/// The name of a package ID: its node's name, or the ID itself.
pub open spec fn display_name(nodes: Map<Seq<char>, NodeView>, id: Seq<char>) -> Seq<char> {
    if nodes.contains_key(id) {
        nodes[id].name
    } else {
        id
    }
}

/// The dependency IDs that the first resolve node of a package lists.
pub open spec fn walk_deps(rns: Seq<ResolveNode>, id: Seq<char>) -> Seq<Seq<char>> {
    match first_resolve_from(rns, id, 0) {
        None => Seq::empty(),
        Some(i) => views(rns[i].dependencies@),
    }
}

/// The entries that `e` leads to through the dependency IDs `deps`, in
/// order; a dependency already on `e`'s trail is not walked again, so a
/// dependency cycle is followed round once and no further.
pub open spec fn child_entries(nodes: Map<Seq<char>, NodeView>, e: WalkEntry, deps: Seq<Seq<char>>) -> Seq<
    WalkEntry,
>
    decreases deps.len(),
{
    if deps.len() == 0 {
        Seq::empty()
    } else {
        let c = deps.last();
        child_entries(nodes, e, deps.drop_last()) + if e.trail.contains(c) {
            Seq::empty()
        } else {
            seq![WalkEntry { id: c, path: e.path.push(display_name(nodes, c)), trail: e.trail.push(c) }]
        }
    }
}

/// The entries that the walk reaches from `e` in one step.
pub open spec fn walk_children(nodes: Map<Seq<char>, NodeView>, rns: Seq<ResolveNode>, e: WalkEntry) -> Seq<
    WalkEntry,
> {
    child_entries(nodes, e, walk_deps(rns, e.id))
}

/// The edges that the walk takes from `e`.
pub open spec fn walk_edges_from(nodes: Map<Seq<char>, NodeView>, rns: Seq<ResolveNode>, e: WalkEntry) -> Seq<
    WalkEdge,
> {
    walk_deps(rns, e.id).map_values(
        |c: Seq<char>|
            WalkEdge {
                parent: display_name(nodes, e.id),
                child: c,
                path: e.path.push(display_name(nodes, c)),
            },
    )
}

/// The workspace members that have nodes, each with a path of its name.
pub open spec fn walk_roots(g: GraphView) -> Seq<WalkEntry> {
    g.workspace_members.filter_map(
        |id: Seq<char>|
            if g.nodes.contains_key(id) {
                Some(WalkEntry { id, path: seq![g.nodes[id].name], trail: seq![id] })
            } else {
                None
            },
    )
}

/// The entries at depth `k` of the breadth-first walk from the workspace
/// members, in the order the walk visits them.
pub open spec fn walk_level(g: GraphView, rns: Seq<ResolveNode>, k: nat) -> Seq<WalkEntry>
    decreases k,
{
    if k == 0 {
        walk_roots(g)
    } else {
        concat_all(walk_level(g, rns, (k - 1) as nat).map_values(|e: WalkEntry| walk_children(g.nodes, rns, e)))
    }
}

/// The edges taken from the entries of one level, in order.
pub open spec fn level_edges(g: GraphView, rns: Seq<ResolveNode>, level: Seq<WalkEntry>) -> Seq<WalkEdge> {
    concat_all(level.map_values(|e: WalkEntry| walk_edges_from(g.nodes, rns, e)))
}

/// The edges taken from the first `k` levels, in order.
pub open spec fn walk_edges(g: GraphView, rns: Seq<ResolveNode>, k: nat) -> Seq<WalkEdge>
    decreases k,
{
    if k == 0 {
        Seq::empty()
    } else {
        walk_edges(g, rns, (k - 1) as nat) + level_edges(g, rns, walk_level(g, rns, (k - 1) as nat))
    }
}

/// Whether the walk ends: some level is empty (which `lemma_walk_ends`
/// shows of every graph).
pub open spec fn walk_ends(g: GraphView, rns: Seq<ResolveNode>) -> bool {
    exists|k: nat| #[trigger] walk_level(g, rns, k).len() == 0
}

/// A depth at which the walk has ended.
pub open spec fn walk_depth(g: GraphView, rns: Seq<ResolveNode>) -> nat {
    choose|k: nat| #[trigger] walk_level(g, rns, k).len() == 0
}

/// `srcs` with `s` appended to the sources of each of `feats`.
pub open spec fn add_to_features(
    srcs: Map<Seq<char>, Seq<SourceView>>,
    feats: Seq<Seq<char>>,
    s: SourceView,
) -> Map<Seq<char>, Seq<SourceView>>
    decreases feats.len(),
{
    if feats.len() == 0 {
        srcs
    } else {
        add_source(add_to_features(srcs, feats.drop_last(), s), feats.last(), s)
    }
}

/// An edge recorded on its dependency's node: every active feature of the
/// dependency gets a source naming the requester and the path.
pub open spec fn apply_edge(nodes: Map<Seq<char>, NodeView>, e: WalkEdge) -> Map<Seq<char>, NodeView> {
    if nodes.contains_key(e.child) {
        let n = nodes[e.child];
        nodes.insert(
            e.child,
            NodeView {
                feature_sources: add_to_features(
                    n.feature_sources,
                    n.active_features,
                    SourceView { requested_by: e.parent, path: e.path },
                ),
                ..n
            },
        )
    } else {
        nodes
    }
}

/// The edges applied in order.
pub open spec fn apply_edges(nodes: Map<Seq<char>, NodeView>, es: Seq<WalkEdge>) -> Map<
    Seq<char>,
    NodeView,
>
    decreases es.len(),
{
    if es.len() == 0 {
        nodes
    } else {
        apply_edge(apply_edges(nodes, es.drop_last()), es.last())
    }
}

/// The graph with the sources that the dependency walk records.
pub open spec fn with_dependency_sources(g: GraphView, rns: Seq<ResolveNode>) -> GraphView {
    GraphView {
        workspace_members: g.workspace_members,
        nodes: apply_edges(g.nodes, walk_edges(g, rns, walk_depth(g, rns))),
    }
}

/// Nodes that agree on everything the walk reads.
pub open spec fn same_walk_data(a: Map<Seq<char>, NodeView>, b: Map<Seq<char>, NodeView>) -> bool {
    &&& a.dom() == b.dom()
    &&& forall|id: Seq<char>|
        #[trigger] a.contains_key(id) ==> a[id].name == b[id].name && a[id].active_features
            == b[id].active_features
}

pub proof fn lemma_apply_edges_keeps(nodes: Map<Seq<char>, NodeView>, es: Seq<WalkEdge>)
    ensures
        same_walk_data(apply_edges(nodes, es), nodes),
    decreases es.len(),
{
    if es.len() > 0 {
        lemma_apply_edges_keeps(nodes, es.drop_last());
        let m = apply_edges(nodes, es.drop_last());
        assert(apply_edge(m, es.last()).dom() =~= m.dom());
    }
}

pub proof fn lemma_apply_edges_append(nodes: Map<Seq<char>, NodeView>, a: Seq<WalkEdge>, b: Seq<WalkEdge>)
    ensures
        apply_edges(nodes, a + b) == apply_edges(apply_edges(nodes, a), b),
    decreases b.len(),
{
    if b.len() == 0 {
        assert(a + b =~= a);
    } else {
        assert((a + b).drop_last() =~= a + b.drop_last());
        assert((a + b).last() == b.last());
        lemma_apply_edges_append(nodes, a, b.drop_last());
    }
}

pub proof fn lemma_walk_stays_empty(g: GraphView, rns: Seq<ResolveNode>, j: nat, m: nat)
    requires
        walk_level(g, rns, j).len() == 0,
        j <= m,
    ensures
        walk_level(g, rns, m).len() == 0,
    decreases m - j,
{
    if j < m {
        let next = walk_level(g, rns, j + 1);
        assert(walk_level(g, rns, j).map_values(|e: WalkEntry| walk_children(g.nodes, rns, e)) =~= Seq::<Seq<WalkEntry>>::empty());
        assert(next =~= Seq::<WalkEntry>::empty());
        lemma_walk_stays_empty(g, rns, j + 1, m);
    }
}

/// Every dependency ID that some resolve node lists, node by node.
pub open spec fn all_deps(rns: Seq<ResolveNode>) -> Seq<Seq<char>> {
    concat_all(rns.map_values(|r: ResolveNode| views(r.dependencies@)))
}

proof fn lemma_concat_all_has<A>(ss: Seq<Seq<A>>, i: int, m: int)
    requires
        0 <= i < ss.len(),
        0 <= m < ss[i].len(),
    ensures
        concat_all(ss).contains(ss[i][m]),
    decreases ss.len(),
{
    let a = concat_all(ss.drop_last());
    if i == ss.len() - 1 {
        assert((a + ss.last())[a.len() + m] == ss[i][m]);
    } else {
        lemma_concat_all_has(ss.drop_last(), i, m);
        let j = choose|j: int| 0 <= j < a.len() && a[j] == ss[i][m];
        assert((a + ss.last())[j] == ss[i][m]);
    }
}

proof fn lemma_concat_all_from<A>(ss: Seq<Seq<A>>, j: int)
    requires
        0 <= j < concat_all(ss).len(),
    ensures
        exists|i: int, m: int| 0 <= i < ss.len() && 0 <= m < ss[i].len() && #[trigger] ss[i][m] == concat_all(ss)[j],
    decreases ss.len(),
{
    let a = concat_all(ss.drop_last());
    if j < a.len() {
        lemma_concat_all_from(ss.drop_last(), j);
        let (i, m) = choose|i: int, m: int|
            0 <= i < ss.drop_last().len() && 0 <= m < ss.drop_last()[i].len() && #[trigger] ss.drop_last()[i][m] == a[j];
        assert(ss[i][m] == concat_all(ss)[j]);
    } else {
        assert(concat_all(ss)[j] == ss.last()[j - a.len()]);
        assert(ss[ss.len() - 1][j - a.len()] == concat_all(ss)[j]);
    }
}

proof fn lemma_first_resolve_in(rns: Seq<ResolveNode>, id: Seq<char>, i: int)
    requires
        0 <= i,
    ensures
        first_resolve_from(rns, id, i) matches Some(j) ==> i <= j < rns.len(),
    decreases rns.len() - i,
{
    if i < rns.len() {
        lemma_first_resolve_in(rns, id, i + 1);
    }
}

/// Every dependency the walk follows is listed by some resolve node.
proof fn lemma_walk_deps_listed(rns: Seq<ResolveNode>, id: Seq<char>, m: int)
    requires
        0 <= m < walk_deps(rns, id).len(),
    ensures
        all_deps(rns).contains(walk_deps(rns, id)[m]),
{
    lemma_first_resolve_in(rns, id, 0);
    let i = first_resolve_from(rns, id, 0).unwrap();
    let ss = rns.map_values(|r: ResolveNode| views(r.dependencies@));
    assert(ss[i] == views(rns[i].dependencies@));
    lemma_concat_all_has(ss, i, m);
}

proof fn lemma_child_entries(nodes: Map<Seq<char>, NodeView>, e: WalkEntry, deps: Seq<Seq<char>>, k: int)
    requires
        0 <= k < child_entries(nodes, e, deps).len(),
    ensures
        child_entries(nodes, e, deps)[k].trail == e.trail.push(child_entries(nodes, e, deps)[k].id),
        !e.trail.contains(child_entries(nodes, e, deps)[k].id),
        deps.contains(child_entries(nodes, e, deps)[k].id),
    decreases deps.len(),
{
    let a = child_entries(nodes, e, deps.drop_last());
    let x = child_entries(nodes, e, deps)[k];
    if k < a.len() {
        lemma_child_entries(nodes, e, deps.drop_last(), k);
        assert(x == a[k]);
        let m = choose|m: int| 0 <= m < deps.drop_last().len() && deps.drop_last()[m] == x.id;
        assert(deps[m] == x.id);
    } else {
        assert(deps[deps.len() - 1] == x.id);
    }
}

/// What the walk keeps of an entry at depth `k`: a trail of `k + 1`
/// distinct IDs, all but the first listed as dependencies.
pub open spec fn trail_ok(rns: Seq<ResolveNode>, e: WalkEntry, k: nat) -> bool {
    &&& e.trail.len() == k + 1
    &&& e.trail.no_duplicates()
    &&& forall|m: int| 1 <= m < e.trail.len() ==> all_deps(rns).contains(#[trigger] e.trail[m])
}

proof fn lemma_level_trails(g: GraphView, rns: Seq<ResolveNode>, k: nat)
    ensures
        forall|j: int| 0 <= j < walk_level(g, rns, k).len() ==> trail_ok(rns, #[trigger] walk_level(g, rns, k)[j], k),
    decreases k,
{
    if k == 0 {
        let f = |id: Seq<char>|
            if g.nodes.contains_key(id) {
                Some(WalkEntry { id, path: seq![g.nodes[id].name], trail: seq![id] })
            } else {
                None
            };
        assert forall|j: int| 0 <= j < walk_level(g, rns, k).len() implies trail_ok(rns, #[trigger] walk_level(g, rns, k)[j], k) by {
            let x = walk_level(g, rns, k)[j];
            assert(walk_roots(g).contains(x));
            g.workspace_members.lemma_filter_map_contains(f, x);
            let t = choose|t: Seq<char>| #[trigger] g.workspace_members.contains(t) && f(t) == Some(x);
            assert(x.trail == seq![t]);
        }
    } else {
        let km: nat = (k - 1) as nat;
        lemma_level_trails(g, rns, km);
        let prev = walk_level(g, rns, km);
        let ss = prev.map_values(|e: WalkEntry| walk_children(g.nodes, rns, e));
        assert forall|j: int| 0 <= j < walk_level(g, rns, k).len() implies trail_ok(rns, #[trigger] walk_level(g, rns, k)[j], k) by {
            lemma_concat_all_from(ss, j);
            let (i, m) = choose|i: int, m: int| 0 <= i < ss.len() && 0 <= m < ss[i].len() && #[trigger] ss[i][m] == concat_all(ss)[j];
            let e = prev[i];
            assert(trail_ok(rns, e, km));
            assert(ss[i] == child_entries(g.nodes, e, walk_deps(rns, e.id)));
            lemma_child_entries(g.nodes, e, walk_deps(rns, e.id), m);
            let x = ss[i][m];
            let d = choose|d: int| 0 <= d < walk_deps(rns, e.id).len() && walk_deps(rns, e.id)[d] == x.id;
            lemma_walk_deps_listed(rns, e.id, d);
            assert(x.trail.no_duplicates()) by {
                assert forall|a: int, b: int| 0 <= a < x.trail.len() && 0 <= b < x.trail.len() && a != b implies x.trail[a] != x.trail[b] by {
                    if a < e.trail.len() && b < e.trail.len() {
                        assert(x.trail[a] == e.trail[a]);
                        assert(x.trail[b] == e.trail[b]);
                    } else if a < e.trail.len() {
                        assert(x.trail[a] == e.trail[a]);
                    } else {
                        assert(x.trail[b] == e.trail[b]);
                    }
                }
            }
            assert forall|m2: int| 1 <= m2 < x.trail.len() implies all_deps(rns).contains(#[trigger] x.trail[m2]) by {
                if m2 < e.trail.len() {
                    assert(x.trail[m2] == e.trail[m2]);
                }
            }
        }
    }
}

/// The walk ends on every graph: no entry goes deeper than the number of
/// dependency IDs that the resolve nodes list, since a trail repeats no ID.
pub proof fn lemma_walk_ends(g: GraphView, rns: Seq<ResolveNode>)
    ensures
        walk_ends(g, rns),
        walk_level(g, rns, all_deps(rns).len() + 1).len() == 0,
{
    let n: nat = all_deps(rns).len() + 1;
    lemma_level_trails(g, rns, n);
    if walk_level(g, rns, n).len() > 0 {
        let x = walk_level(g, rns, n)[0];
        assert(trail_ok(rns, x, n));
        let t = x.trail.skip(1);
        assert(t.no_duplicates()) by {
            assert forall|a: int, b: int| 0 <= a < t.len() && 0 <= b < t.len() && a != b implies t[a] != t[b] by {
                assert(t[a] == x.trail[a + 1]);
                assert(t[b] == x.trail[b + 1]);
            }
        }
        t.unique_seq_to_set();
        all_deps(rns).lemma_cardinality_of_set();
        assert(t.to_set().subset_of(all_deps(rns).to_set())) by {
            assert forall|y: Seq<char>| t.to_set().contains(y) implies all_deps(rns).to_set().contains(y) by {
                let a = choose|a: int| 0 <= a < t.len() && t[a] == y;
                assert(x.trail[a + 1] == y);
            }
        }
        vstd::set_lib::lemma_len_subset(t.to_set(), all_deps(rns).to_set());
        assert(false);
    }
    assert(walk_level(g, rns, n).len() == 0);
}

/// A walk entry held by the walk: a package ID and its path.
pub open spec fn entry_view(e: (String, Vec<String>, Vec<String>)) -> WalkEntry {
    WalkEntry { id: e.0@, path: views(e.1@), trail: views(e.2@) }
}

pub open spec fn entries_view(v: Seq<(String, Vec<String>, Vec<String>)>) -> Seq<WalkEntry> {
    v.map_values(|e: (String, Vec<String>, Vec<String>)| entry_view(e))
}

/// Whether the ID `id` stands on a trail.
fn trail_has(trail: &Vec<String>, id: &String) -> (r: bool)
    ensures
        r == views(trail@).contains(id@),
{
    let mut i: usize = 0;
    while i < trail.len()
        invariant
            i <= trail.len(),
            forall|k: int| 0 <= k < i ==> (#[trigger] trail@[k])@ != id@,
        decreases trail.len() - i,
    {
        if crate::collections::str_eq(trail[i].as_str(), id.as_str()) {
            assert(views(trail@)[i as int] == id@);
            return true;
        }
        i = i + 1;
    }
    proof {
        if views(trail@).contains(id@) {
            let k = choose|k: int| 0 <= k < views(trail@).len() && views(trail@)[k] == id@;
            assert(trail@[k]@ == id@);
        }
    }
    false
}

/// The first resolve node with ID `id`.
pub fn find_resolve(rns: &Vec<ResolveNode>, id: &str) -> (r: Option<usize>)
    ensures
        r matches Some(i) ==> first_resolve_from(rns@, id@, 0) == Some(i as int) && i < rns.len(),
        r is None ==> first_resolve_from(rns@, id@, 0) is None,
{
    let mut i: usize = 0;
    while i < rns.len()
        invariant
            i <= rns.len(),
            first_resolve_from(rns@, id@, i as int) == first_resolve_from(rns@, id@, 0),
        decreases rns.len() - i,
    {
        if crate::collections::str_eq(rns[i].id.as_str(), id) {
            return Some(i);
        }
        i = i + 1;
    }
    None
}

/// The name of a package ID in the graph, or the ID itself.
fn display_name_exec(nodes: &StrMap<FeatureNode>, id: &String) -> (r: String)
    ensures
        r@ == display_name(nodes_view(*nodes), id@),
{
    match nodes.get(id.as_str()) {
        Some(n) => n.name.clone(),
        None => id.clone(),
    }
}

/// Records one walk edge on the dependency's node.
fn record_edge(nodes: &mut StrMap<FeatureNode>, parent: &String, child: &String, path: &Vec<String>)
    ensures
        nodes_view(*final(nodes)) == apply_edge(
            nodes_view(*old(nodes)),
            WalkEdge { parent: parent@, child: child@, path: views(path@) },
        ),
{
    let ghost before = nodes_view(*nodes);
    let ghost e = WalkEdge { parent: parent@, child: child@, path: views(path@) };
    nodes.wf_ensures();
    let idx = match nodes.index_of(child.as_str()) {
        None => {
            return;
        },
        Some(i) => i,
    };
    let mut node = nodes.replace_at(idx, FeatureNode::default());
    let ghost n0 = node@;
    let ghost sv = SourceView { requested_by: parent@, path: views(path@) };
    let feats = node.active_features.to_vec();
    let mut i: usize = 0;
    while i < feats.len()
        invariant
            i <= feats.len(),
            views(feats@) == n0.active_features,
            node@ == (NodeView {
                feature_sources: add_to_features(
                    n0.feature_sources,
                    n0.active_features.take(i as int),
                    sv,
                ),
                ..n0
            }),
            sv == (SourceView { requested_by: parent@, path: views(path@) }),
        decreases feats.len() - i,
    {
        let src = FeatureSource { requested_by: parent.clone(), path: path.clone() };
        proof {
            assert(views(src.path@) =~= views(path@));
            assert(n0.active_features.take(i + 1).drop_last() =~= n0.active_features.take(i as int));
        }
        push_source(&mut node.feature_sources, &feats[i], src);
        i = i + 1;
    }
    proof {
        assert(n0.active_features.take(feats.len() as int) =~= n0.active_features);
    }
    nodes.replace_at(idx, node);
    proof {
        assert(nodes_view(*nodes) =~= apply_edge(before, e));
    }
}

/// The walk's first level: workspace members with nodes.
fn walk_roots_exec(graph: &FeatureGraph) -> (r: Vec<(String, Vec<String>, Vec<String>)>)
    ensures
        entries_view(r@) == walk_roots(graph@),
{
    let ghost g = graph@;
    let ghost f = |id: Seq<char>|
        if g.nodes.contains_key(id) {
            Some(WalkEntry { id, path: seq![g.nodes[id].name], trail: seq![id] })
        } else {
            None
        };
    let mut out: Vec<(String, Vec<String>, Vec<String>)> = Vec::new();
    let n = graph.workspace_members.len();
    let mut i: usize = 0;
    proof {
        assert(entries_view(out@) =~= g.workspace_members.take(0).filter_map(f));
    }
    while i < n
        invariant
            i <= n,
            n == g.workspace_members.len(),
            g == graph@,
            f == (|id: Seq<char>|
                if g.nodes.contains_key(id) {
                    Some(WalkEntry { id, path: seq![g.nodes[id].name], trail: seq![id] })
                } else {
                    None
                }),
            entries_view(out@) == g.workspace_members.take(i as int).filter_map(f),
        decreases n - i,
    {
        let id = graph.workspace_members.get(i);
        let ghost before = entries_view(out@);
        proof {
            assert(g.workspace_members.take(i + 1).drop_last() =~= g.workspace_members.take(i as int));
            assert(g.workspace_members.take(i + 1).last() == id@);
        }
        match graph.get(id.as_str()) {
            Some(node) => {
                let entry = (id.clone(), vec![node.name.clone()], vec![id.clone()]);
                out.push(entry);
                proof {
                    assert(views(out@.last().1@) =~= seq![g.nodes[id@].name]);
                    assert(views(out@.last().2@) =~= seq![id@]);
                    assert(entries_view(out@) =~= before.push(
                        WalkEntry { id: id@, path: seq![g.nodes[id@].name], trail: seq![id@] },
                    ));
                }
            },
            None => {},
        }
        i = i + 1;
    }
    assert(g.workspace_members.take(n as int) =~= g.workspace_members);
    out
}

/// Walks the dependency graph breadth-first from the workspace members and
/// records, on each dependency reached, a source for every active feature
/// naming the requester and the path. A path is not extended through a
/// package already on it, so the walk ends on cyclic graphs too.
pub fn record_dependency_sources(graph: &mut FeatureGraph, nodes: &Vec<ResolveNode>)
    ensures
        final(graph)@ == with_dependency_sources(old(graph)@, nodes@),
{
    let ghost g0 = graph@;
    let ghost rns = nodes@;
    proof {
        lemma_walk_ends(g0, rns);
    }
    let ghost depth = walk_depth(g0, rns);
    let mut level = walk_roots_exec(graph);
    let ghost mut k: nat = 0;
    proof {
        assert(walk_level(g0, rns, depth).len() == 0);
        assert(apply_edges(g0.nodes, walk_edges(g0, rns, 0)) == g0.nodes);
    }
    while level.len() > 0
        invariant
            graph.workspace_members@ == g0.workspace_members,
            walk_level(g0, rns, depth).len() == 0,
            rns == nodes@,
            entries_view(level@) == walk_level(g0, rns, k),
            nodes_view(graph.nodes) == apply_edges(g0.nodes, walk_edges(g0, rns, k)),
        decreases depth - k,
    {
        proof {
            if k >= depth {
                lemma_walk_stays_empty(g0, rns, depth, k);
            }
        }
        let ghost lv = entries_view(level@);
        let ghost base_edges = walk_edges(g0, rns, k);
        let mut next: Vec<(String, Vec<String>, Vec<String>)> = Vec::new();
        let mut j: usize = 0;
        proof {
            assert(lv.take(0).map_values(|e: WalkEntry| walk_children(g0.nodes, rns, e)) =~= Seq::<Seq<WalkEntry>>::empty());
            assert(lv.take(0).map_values(|e: WalkEntry| walk_edges_from(g0.nodes, rns, e)) =~= Seq::<Seq<WalkEdge>>::empty());
            assert(entries_view(next@) =~= Seq::<WalkEntry>::empty());
            assert(base_edges + Seq::<WalkEdge>::empty() =~= base_edges);
        }
        while j < level.len()
            invariant
                j <= level.len(),
                lv == entries_view(level@),
                lv == walk_level(g0, rns, k),
                rns == nodes@,
                graph.workspace_members@ == g0.workspace_members,
                base_edges == walk_edges(g0, rns, k),
                entries_view(next@) == concat_all(
                    lv.take(j as int).map_values(|e: WalkEntry| walk_children(g0.nodes, rns, e)),
                ),
                nodes_view(graph.nodes) == apply_edges(
                    g0.nodes,
                    base_edges + concat_all(
                        lv.take(j as int).map_values(|e: WalkEntry| walk_edges_from(g0.nodes, rns, e)),
                    ),
                ),
            decreases level.len() - j,
        {
            let ghost e = lv[j as int];
            let ghost done_edges = base_edges + concat_all(
                lv.take(j as int).map_values(|e: WalkEntry| walk_edges_from(g0.nodes, rns, e)),
            );
            let ghost next0 = entries_view(next@);
            proof {
                lemma_apply_edges_keeps(g0.nodes, done_edges);
                assert(lv.take(j + 1).map_values(|e: WalkEntry| walk_children(g0.nodes, rns, e)).drop_last()
                    =~= lv.take(j as int).map_values(|e: WalkEntry| walk_children(g0.nodes, rns, e)));
                assert(lv.take(j + 1).map_values(|e: WalkEntry| walk_edges_from(g0.nodes, rns, e)).drop_last()
                    =~= lv.take(j as int).map_values(|e: WalkEntry| walk_edges_from(g0.nodes, rns, e)));
                assert(e == entry_view(level@[j as int]));
            }
            let id = &level[j].0;
            let path = &level[j].1;
            let trail = &level[j].2;
            match find_resolve(nodes, id.as_str()) {
                None => {
                    proof {
                        assert(walk_deps(rns, e.id) =~= Seq::<Seq<char>>::empty());
                        assert(walk_children(g0.nodes, rns, e) =~= Seq::<WalkEntry>::empty());
                        assert(walk_edges_from(g0.nodes, rns, e) =~= Seq::<WalkEdge>::empty());
                        assert(next0 + Seq::<WalkEntry>::empty() =~= next0);
                        assert(done_edges + Seq::<WalkEdge>::empty() =~= done_edges);
                        assert(base_edges + concat_all(
                            lv.take(j + 1).map_values(|e: WalkEntry| walk_edges_from(g0.nodes, rns, e)),
                        ) =~= done_edges + Seq::<WalkEdge>::empty());
                    }
                },
                Some(ri) => {
                    let parent_name = display_name_exec(&graph.nodes, id);
                    let deps = &nodes[ri].dependencies;
                    let ghost ds = views(deps@);
                    proof {
                        assert(ds == walk_deps(rns, e.id));
                        assert(parent_name@ == display_name(g0.nodes, e.id));
                    }
                    proof {
                        assert(ds.take(0) =~= Seq::<Seq<char>>::empty());
                        assert(next0 + Seq::<WalkEntry>::empty() =~= next0);
                    }
                    let mut t: usize = 0;
                    while t < deps.len()
                        invariant
                            t <= deps.len(),
                            j < level.len(),
                            views(path@) == e.path,
                            views(trail@) == e.trail,
                            ds == views(deps@),
                            ds == walk_deps(rns, e.id),
                            e == entry_view(level@[j as int]),
                            parent_name@ == display_name(g0.nodes, e.id),
                            graph.workspace_members@ == g0.workspace_members,
                            entries_view(next@) == next0 + child_entries(g0.nodes, e, ds.take(t as int)),
                            nodes_view(graph.nodes) == apply_edges(
                                g0.nodes,
                                done_edges + walk_edges_from(g0.nodes, rns, e).take(t as int),
                            ),
                        decreases deps.len() - t,
                    {
                        let child_id = &deps[t];
                        let ghost cur = apply_edges(
                            g0.nodes,
                            done_edges + walk_edges_from(g0.nodes, rns, e).take(t as int),
                        );
                        proof {
                            lemma_apply_edges_keeps(
                                g0.nodes,
                                done_edges + walk_edges_from(g0.nodes, rns, e).take(t as int),
                            );
                        }
                        let child_name = display_name_exec(&graph.nodes, child_id);
                        proof {
                            assert(cur.dom() =~= g0.nodes.dom());
                            assert(display_name(cur, child_id@) == display_name(g0.nodes, child_id@));
                        }
                        let mut child_path = path.clone();
                        assert(views(child_path@) =~= views(path@));
                        child_path.push(child_name);
                        proof {
                            assert(views(child_path@) =~= e.path.push(display_name(g0.nodes, child_id@)));
                        }
                        record_edge(&mut graph.nodes, &parent_name, child_id, &child_path);
                        let ghost edge = WalkEdge {
                            parent: parent_name@,
                            child: child_id@,
                            path: views(child_path@),
                        };
                        let ghost nv = entries_view(next@);
                        let ghost piece: Seq<WalkEntry> = if e.trail.contains(child_id@) {
                            Seq::empty()
                        } else {
                            seq![WalkEntry { id: child_id@, path: views(child_path@), trail: e.trail.push(child_id@) }]
                        };
                        proof {
                            assert(ds.take(t + 1).drop_last() =~= ds.take(t as int));
                            assert(ds.take(t + 1).last() == child_id@);
                            assert(child_entries(g0.nodes, e, ds.take(t + 1)) == child_entries(g0.nodes, e, ds.take(t as int))
                                + piece);
                        }
                        if !trail_has(trail, child_id) {
                            let cid = child_id.clone();
                            let mut child_trail = trail.clone();
                            assert(views(child_trail@) =~= views(trail@));
                            child_trail.push(child_id.clone());
                            next.push((cid, child_path, child_trail));
                            proof {
                                assert(views(child_trail@) =~= e.trail.push(child_id@));
                                assert(entries_view(next@) =~= nv + piece);
                            }
                        } else {
                            assert(nv + piece =~= nv);
                        }
                        proof {
                            assert(walk_edges_from(g0.nodes, rns, e)[t as int] == edge);
                            assert(walk_edges_from(g0.nodes, rns, e).take(t + 1) =~= walk_edges_from(g0.nodes, rns, e).take(t as int).push(edge));
                            assert(entries_view(next@) =~= next0 + child_entries(g0.nodes, e, ds.take(t + 1)));
                            lemma_apply_edges_append(
                                g0.nodes,
                                done_edges + walk_edges_from(g0.nodes, rns, e).take(t as int),
                                seq![edge],
                            );
                            assert(done_edges + walk_edges_from(g0.nodes, rns, e).take(t + 1) =~= (done_edges
                                + walk_edges_from(g0.nodes, rns, e).take(t as int)) + seq![edge]);
                            assert(apply_edges(cur, seq![edge]) == apply_edge(cur, edge)) by {
                                let one = seq![edge];
                                assert(one.drop_last() =~= Seq::<WalkEdge>::empty());
                                assert(apply_edges(cur, one.drop_last()) == cur);
                                assert(one.last() == edge);
                            }
                        }
                        t = t + 1;
                    }
                    proof {
                        assert(ds.take(deps.len() as int) =~= ds);
                        assert(walk_edges_from(g0.nodes, rns, e).take(deps.len() as int) =~= walk_edges_from(g0.nodes, rns, e));
                        assert(base_edges + concat_all(
                            lv.take(j + 1).map_values(|e: WalkEntry| walk_edges_from(g0.nodes, rns, e)),
                        ) =~= done_edges + walk_edges_from(g0.nodes, rns, e));
                    }
                },
            }
            j = j + 1;
        }
        proof {
            assert(lv.take(level.len() as int) =~= lv);
            assert(walk_edges(g0, rns, k + 1) == base_edges + level_edges(g0, rns, lv));
            k = k + 1;
        }
        level = next;
    }
    proof {
        lemma_walk_edges_after_end(g0, rns, k, depth);
    }
}

/// Levels past the end add no edges.
pub proof fn lemma_walk_edges_after_end(g: GraphView, rns: Seq<ResolveNode>, k: nat, m: nat)
    requires
        walk_level(g, rns, k).len() == 0,
        walk_level(g, rns, m).len() == 0,
    ensures
        walk_edges(g, rns, k) == walk_edges(g, rns, m),
{
    if k <= m {
        lemma_walk_edges_stable(g, rns, k, m);
    } else {
        lemma_walk_edges_stable(g, rns, m, k);
    }
}

proof fn lemma_walk_edges_stable(g: GraphView, rns: Seq<ResolveNode>, j: nat, m: nat)
    requires
        walk_level(g, rns, j).len() == 0,
        j <= m,
    ensures
        walk_edges(g, rns, j) == walk_edges(g, rns, m),
    decreases m - j,
{
    if j < m {
        lemma_walk_stays_empty(g, rns, j, (m - 1) as nat);
        lemma_walk_edges_stable(g, rns, j, (m - 1) as nat);
        let lv = walk_level(g, rns, (m - 1) as nat);
        assert(lv =~= Seq::<WalkEntry>::empty());
        assert(lv.map_values(|e: WalkEntry| walk_edges_from(g.nodes, rns, e)) =~= Seq::<Seq<WalkEdge>>::empty());
        assert(walk_edges(g, rns, m) =~= walk_edges(g, rns, (m - 1) as nat));
    }
}

/// A feature reference without a `dep:` prefix and without any
/// `crate/` part: `dep:serde_json` gives `serde_json`, `serde/derive` gives
/// `derive`.
pub open spec fn normalize_spec(f: Seq<char>) -> Seq<char> {
    let s = if starts_with(f, "dep:"@) {
        f.skip(4)
    } else {
        f
    };
    split_char(s, '/').last()
}

pub proof fn lemma_split_nonempty(s: Seq<char>, c: char)
    ensures
        split_char(s, c).len() > 0,
    decreases s.len(),
{
    if let Some(i) = crate::text::find_char_from(s, c, 0) {
        if 0 <= i < s.len() {
            lemma_split_nonempty(s.skip(i + 1), c);
        }
    }
}

/// Normalizes a feature reference (see `normalize_spec`).
pub fn normalize_feature_reference(feature: &str) -> (r: String)
    ensures
        r@ == normalize_spec(feature@),
{
    let chars = chars_of(feature);
    let prefix = chars_of("dep:");
    let has_prefix = crate::text::occurs_at_exec(&chars, &prefix, 0);
    proof {
        crate::text::lemma_occurs_at_zero(chars@, prefix@);
        reveal_strlit("dep:");
    }
    let rest = if has_prefix {
        let r = sub_chars(&chars, 4, chars.len());
        assert(r@ =~= feature@.skip(4));
        r
    } else {
        chars
    };
    let pieces = split_exec(&rest, '/');
    proof {
        lemma_split_nonempty(rest@, '/');
        assert(pieces@.len() > 0);
    }
    string_of_all(&pieces[pieces.len() - 1])
}

/// `srcs` with the sources that expanding `items` of feature `f` records.
pub open spec fn add_expansion_items(
    srcs: Map<Seq<char>, Seq<SourceView>>,
    n: NodeView,
    f: Seq<char>,
    items: Seq<Seq<char>>,
) -> Map<Seq<char>, Seq<SourceView>>
    decreases items.len(),
{
    if items.len() == 0 {
        srcs
    } else {
        let s2 = add_expansion_items(srcs, n, f, items.drop_last());
        let norm = normalize_spec(items.last());
        if n.active_features.contains(norm) {
            add_source(
                s2,
                norm,
                SourceView { requested_by: n.name + "/"@ + f, path: seq![n.name, f, norm] },
            )
        } else {
            s2
        }
    }
}

/// `srcs` with the sources that the expansions of `feats` record.
pub open spec fn add_manifest_sources(
    srcs: Map<Seq<char>, Seq<SourceView>>,
    n: NodeView,
    feats: Seq<Seq<char>>,
) -> Map<Seq<char>, Seq<SourceView>>
    decreases feats.len(),
{
    if feats.len() == 0 {
        srcs
    } else {
        let s2 = add_manifest_sources(srcs, n, feats.drop_last());
        let f = feats.last();
        if n.available_features.contains_key(f) {
            add_expansion_items(s2, n, f, n.available_features[f])
        } else {
            s2
        }
    }
}

/// A node with the sources that its active features' manifest expansions
/// record: each expanded item that names an active feature gets a source
/// `name/feature` with path `[name, feature, item]`.
pub open spec fn with_manifest_node_sources(n: NodeView) -> NodeView {
    NodeView {
        feature_sources: add_manifest_sources(n.feature_sources, n, n.active_features),
        ..n
    }
}

/// The dependency name and the feature of a `dep/feature` item, where the
/// item has a `/`; the `?` that marks a weak dependency feature
/// (`dep?/feature`) is not part of the name.
pub open spec fn forwarded_feature(item: Seq<char>) -> Option<(Seq<char>, Seq<char>)> {
    match find_char_from(item, '/', 0) {
        Some(i) => {
            let d = item.take(i);
            let dep = if d.len() > 0 && d.last() == '?' {
                d.drop_last()
            } else {
                d
            };
            Some((dep, item.skip(i + 1)))
        },
        None => None,
    }
}

/// A source recorded on another package's node: the node's ID, the feature
/// and the source.
pub struct ForwardView {
    pub target: Seq<char>,
    pub feature: Seq<char>,
    pub source: SourceView,
}

/// The sources that item `item` of the expansion of feature `f` of node `n`
/// records on other nodes: where the item is `dep/feature`, a source
/// `name/f` with path `[name, f, dep, feature]` on each dependency of `n`
/// named `dep` whose node has `feature` active.
pub open spec fn item_forwards(nodes: Map<Seq<char>, NodeView>, n: NodeView, f: Seq<char>, item: Seq<char>) -> Seq<
    ForwardView,
> {
    match forwarded_feature(item) {
        None => Seq::empty(),
        Some((dep, feat)) => n.dependencies.filter_map(
            |d: Seq<char>|
                if nodes.contains_key(d) && nodes[d].name == dep && nodes[d].active_features.contains(
                    feat,
                ) {
                    Some(
                        ForwardView {
                            target: d,
                            feature: feat,
                            source: SourceView {
                                requested_by: n.name + "/"@ + f,
                                path: seq![n.name, f, dep, feat],
                            },
                        },
                    )
                } else {
                    None
                },
        ),
    }
}

/// The forwarded sources of the expansion of feature `f` of node `n`.
pub open spec fn feature_forwards(nodes: Map<Seq<char>, NodeView>, n: NodeView, f: Seq<char>) -> Seq<
    ForwardView,
> {
    if n.available_features.contains_key(f) {
        concat_all(
            n.available_features[f].map_values(|item: Seq<char>| item_forwards(nodes, n, f, item)),
        )
    } else {
        Seq::empty()
    }
}

/// The forwarded sources of the active features of node `n`, in order.
pub open spec fn node_forwards(nodes: Map<Seq<char>, NodeView>, n: NodeView) -> Seq<ForwardView> {
    concat_all(n.active_features.map_values(|f: Seq<char>| feature_forwards(nodes, n, f)))
}

/// The forwarded sources of the nodes `ids`, in order.
pub open spec fn graph_forwards(nodes: Map<Seq<char>, NodeView>, ids: Seq<Seq<char>>) -> Seq<ForwardView> {
    concat_all(ids.map_values(|id: Seq<char>| node_forwards(nodes, nodes[id])))
}

/// A forwarded source recorded on its node.
pub open spec fn apply_forward(nodes: Map<Seq<char>, NodeView>, fw: ForwardView) -> Map<Seq<char>, NodeView> {
    if nodes.contains_key(fw.target) {
        let n = nodes[fw.target];
        nodes.insert(
            fw.target,
            NodeView { feature_sources: add_source(n.feature_sources, fw.feature, fw.source), ..n },
        )
    } else {
        nodes
    }
}

/// The forwarded sources recorded in order.
pub open spec fn apply_forwards(nodes: Map<Seq<char>, NodeView>, fws: Seq<ForwardView>) -> Map<
    Seq<char>,
    NodeView,
>
    decreases fws.len(),
{
    if fws.len() == 0 {
        nodes
    } else {
        apply_forward(apply_forwards(nodes, fws.drop_last()), fws.last())
    }
}

/// The graph with the sources of manifest feature expansions: first those
/// that each node's expansions record on the node itself, then, node by node
/// in package-ID order, those that expansions forwarding to a dependency's
/// feature (`app/default -> serde/derive`) record on the dependency.
pub open spec fn with_manifest_sources(g: GraphView) -> GraphView {
    let own = g.nodes.map_values(|n: NodeView| with_manifest_node_sources(n));
    GraphView {
        workspace_members: g.workspace_members,
        nodes: apply_forwards(own, graph_forwards(own, sorted_of(own.dom()))),
    }
}

/// A forwarded source.
pub struct Forward {
    pub target: String,
    pub feature: String,
    pub source: FeatureSource,
}

impl View for Forward {
    type V = ForwardView;

    open spec fn view(&self) -> ForwardView {
        ForwardView { target: self.target@, feature: self.feature@, source: self.source@ }
    }
}

pub open spec fn forward_views(s: Seq<Forward>) -> Seq<ForwardView> {
    s.map_values(|f: Forward| f@)
}

/// The dependency name and feature of a `dep/feature` item.
fn forwarded_feature_exec(item: &String) -> (r: Option<(String, String)>)
    ensures
        match r {
            Some((d, f)) => forwarded_feature(item@) == Some((d@, f@)),
            None => forwarded_feature(item@) is None,
        },
{
    let v = chars_of(item.as_str());
    match crate::text::find_char_exec(&v, '/', 0) {
        None => None,
        Some(i) => {
            proof {
                crate::text::lemma_find_char_from(v@, '/', 0);
            }
            let end = if i > 0 && v[i - 1] == '?' {
                i - 1
            } else {
                i
            };
            let dep = crate::text::string_of(&v, 0, end);
            let feat = crate::text::string_of(&v, i + 1, v.len());
            proof {
                let d = item@.take(i as int);
                if i > 0 && v@[i - 1] == '?' {
                    assert(dep@ =~= d.drop_last());
                } else {
                    assert(dep@ =~= d);
                }
                assert(feat@ =~= item@.skip(i + 1));
            }
            Some((dep, feat))
        },
    }
}

/// The node of `id` in `nodes`, as the map view gives it.
proof fn lemma_node_of_get(nodes: StrMap<FeatureNode>, id: Seq<char>, n: FeatureNode)
    requires
        nodes.spec_get(id) == Some(n),
    ensures
        nodes_view(nodes).contains_key(id),
        nodes_view(nodes)[id] == n@,
{
}

/// The forwarded sources of one expansion item.
fn forwards_of_item(nodes: &StrMap<FeatureNode>, node: &FeatureNode, f: &String, item: &String) -> (r: Vec<Forward>)
    ensures
        forward_views(r@) == item_forwards(nodes_view(*nodes), node@, f@, item@),
{
    let ghost m = nodes_view(*nodes);
    let mut out: Vec<Forward> = Vec::new();
    match forwarded_feature_exec(item) {
        None => {
            assert(forward_views(out@) =~= Seq::<ForwardView>::empty());
            out
        },
        Some((dep, feat)) => {
            let ghost deps = node@.dependencies;
            let ghost pick = |d: Seq<char>|
                if m.contains_key(d) && m[d].name == dep@ && m[d].active_features.contains(feat@) {
                    Some(
                        ForwardView {
                            target: d,
                            feature: feat@,
                            source: SourceView {
                                requested_by: node@.name + "/"@ + f@,
                                path: seq![node@.name, f@, dep@, feat@],
                            },
                        },
                    )
                } else {
                    None
                };
            let mut i: usize = 0;
            assert(forward_views(out@) =~= deps.take(0).filter_map(pick));
            while i < node.dependencies.len()
                invariant
                    i <= node.dependencies.len(),
                    deps == node@.dependencies,
                    m == nodes_view(*nodes),
                    pick == (|d: Seq<char>|
                        if m.contains_key(d) && m[d].name == dep@ && m[d].active_features.contains(
                            feat@,
                        ) {
                            Some(
                                ForwardView {
                                    target: d,
                                    feature: feat@,
                                    source: SourceView {
                                        requested_by: node@.name + "/"@ + f@,
                                        path: seq![node@.name, f@, dep@, feat@],
                                    },
                                },
                            )
                        } else {
                            None
                        }),
                    forward_views(out@) == deps.take(i as int).filter_map(pick),
                decreases node.dependencies.len() - i,
            {
                let d = &node.dependencies[i];
                let ghost before = forward_views(out@);
                proof {
                    assert(deps.take(i + 1).drop_last() =~= deps.take(i as int));
                    assert(deps.take(i + 1).last() == d@);
                }
                match nodes.get(d.as_str()) {
                    Some(target) => {
                        proof {
                            lemma_node_of_get(*nodes, d@, *target);
                        }
                        if crate::collections::str_eq(target.name.as_str(), dep.as_str())
                            && target.active_features.contains(feat.as_str()) {
                            let requested_by = slash_join(&node.name, f);
                            let path = vec![node.name.clone(), f.clone(), dep.clone(), feat.clone()];
                            let source = FeatureSource { requested_by, path };
                            proof {
                                assert(views(source.path@) =~= seq![node@.name, f@, dep@, feat@]);
                            }
                            out.push(Forward { target: d.clone(), feature: feat.clone(), source });
                            assert(forward_views(out@) =~= before.push(pick(d@).unwrap()));
                        }
                    },
                    None => {
                        proof {
                            assert(!m.contains_key(d@));
                        }
                    },
                }
                i = i + 1;
            }
            assert(deps.take(node.dependencies.len() as int) =~= deps);
            out
        },
    }
}

/// The forwarded sources of the expansion of feature `f` of `node`.
fn forwards_of_feature(nodes: &StrMap<FeatureNode>, node: &FeatureNode, f: &String) -> (r: Vec<Forward>)
    ensures
        forward_views(r@) == feature_forwards(nodes_view(*nodes), node@, f@),
{
    let ghost m = nodes_view(*nodes);
    let mut out: Vec<Forward> = Vec::new();
    match node.available_features.get(f.as_str()) {
        None => {
            assert(forward_views(out@) =~= Seq::<ForwardView>::empty());
            out
        },
        Some(items) => {
            let ghost iv = views(items@);
            let ghost each = |item: Seq<char>| item_forwards(m, node@, f@, item);
            proof {
                assert(node@.available_features.contains_key(f@));
                assert(iv =~= node@.available_features[f@]);
            }
            let mut i: usize = 0;
            assert(forward_views(out@) =~= concat_all(iv.take(0).map_values(each)));
            while i < items.len()
                invariant
                    i <= items.len(),
                    iv == views(items@),
                    m == nodes_view(*nodes),
                    each == (|item: Seq<char>| item_forwards(m, node@, f@, item)),
                    forward_views(out@) == concat_all(iv.take(i as int).map_values(each)),
                decreases items.len() - i,
            {
                let mut part = forwards_of_item(nodes, node, f, &items[i]);
                let ghost before = forward_views(out@);
                let ghost pv = forward_views(part@);
                out.append(&mut part);
                proof {
                    crate::text::lemma_concat_step(iv, each, i as int);
                    assert(forward_views(out@) =~= before + pv);
                }
                i = i + 1;
            }
            assert(iv.take(items.len() as int) =~= iv);
            out
        },
    }
}

/// The forwarded sources of the active features of `node`, in order.
fn forwards_of_node(nodes: &StrMap<FeatureNode>, node: &FeatureNode) -> (r: Vec<Forward>)
    ensures
        forward_views(r@) == node_forwards(nodes_view(*nodes), node@),
{
    let ghost m = nodes_view(*nodes);
    let active = node.active_features.to_vec();
    let ghost av = views(active@);
    let ghost each = |f: Seq<char>| feature_forwards(m, node@, f);
    let mut out: Vec<Forward> = Vec::new();
    let mut i: usize = 0;
    assert(forward_views(out@) =~= concat_all(av.take(0).map_values(each)));
    while i < active.len()
        invariant
            i <= active.len(),
            av == views(active@),
            av == node@.active_features,
            m == nodes_view(*nodes),
            each == (|f: Seq<char>| feature_forwards(m, node@, f)),
            forward_views(out@) == concat_all(av.take(i as int).map_values(each)),
        decreases active.len() - i,
    {
        let mut part = forwards_of_feature(nodes, node, &active[i]);
        let ghost before = forward_views(out@);
        let ghost pv = forward_views(part@);
        out.append(&mut part);
        proof {
            crate::text::lemma_concat_step(av, each, i as int);
            assert(forward_views(out@) =~= before + pv);
        }
        i = i + 1;
    }
    assert(av.take(active.len() as int) =~= av);
    out
}

/// The forwarded sources of all nodes, in package-ID order.
fn forwards_of_graph(nodes: &StrMap<FeatureNode>) -> (r: Vec<Forward>)
    ensures
        forward_views(r@) == graph_forwards(nodes_view(*nodes), nodes.keys()),
{
    let ghost m = nodes_view(*nodes);
    let ghost ks = nodes.keys();
    let ghost each = |id: Seq<char>| node_forwards(m, m[id]);
    nodes.wf_ensures();
    let n = nodes.len();
    let mut out: Vec<Forward> = Vec::new();
    let mut i: usize = 0;
    assert(forward_views(out@) =~= concat_all(ks.take(0).map_values(each)));
    while i < n
        invariant
            i <= n,
            n == ks.len(),
            n == nodes.vals().len(),
            ks == nodes.keys(),
            ks.no_duplicates(),
            m == nodes_view(*nodes),
            each == (|id: Seq<char>| node_forwards(m, m[id])),
            forward_views(out@) == concat_all(ks.take(i as int).map_values(each)),
        decreases n - i,
    {
        let node = nodes.value_at(i);
        proof {
            ks.index_of_first_ensures(ks[i as int]);
            assert(ks.contains(ks[i as int]));
            assert(ks.index_of(ks[i as int]) == i) by {
                if ks.index_of(ks[i as int]) != i {
                    assert(ks[ks.index_of(ks[i as int])] == ks[i as int]);
                }
            }
            assert(m[ks[i as int]] == node@);
        }
        let mut part = forwards_of_node(nodes, node);
        let ghost before = forward_views(out@);
        let ghost pv = forward_views(part@);
        out.append(&mut part);
        proof {
            crate::text::lemma_concat_step(ks, each, i as int);
            assert(forward_views(out@) =~= before + pv);
        }
        i = i + 1;
    }
    assert(ks.take(n as int) =~= ks);
    out
}

/// Records one forwarded source on its node.
fn record_forward(nodes: &mut StrMap<FeatureNode>, fw: &Forward)
    ensures
        nodes_view(*final(nodes)) == apply_forward(nodes_view(*old(nodes)), fw@),
{
    let ghost before = nodes_view(*nodes);
    nodes.wf_ensures();
    let idx = match nodes.index_of(fw.target.as_str()) {
        None => {
            return;
        },
        Some(i) => i,
    };
    let mut node = nodes.replace_at(idx, FeatureNode::default());
    let source = fw.source.clone();
    proof {
        assert(source@ == fw.source@);
    }
    push_source(&mut node.feature_sources, &fw.feature, source);
    nodes.replace_at(idx, node);
    proof {
        assert(nodes_view(*nodes) =~= apply_forward(before, fw@));
    }
}

/// Records the forwarded sources of all nodes, in package-ID order.
fn record_forwarded_sources(nodes: &mut StrMap<FeatureNode>)
    ensures
        nodes_view(*final(nodes)) == apply_forwards(
            nodes_view(*old(nodes)),
            graph_forwards(nodes_view(*old(nodes)), old(nodes).keys()),
        ),
{
    let fws = forwards_of_graph(nodes);
    let ghost start = nodes_view(*nodes);
    let ghost fv = forward_views(fws@);
    let mut i: usize = 0;
    while i < fws.len()
        invariant
            i <= fws.len(),
            fv == forward_views(fws@),
            nodes_view(*nodes) == apply_forwards(start, fv.take(i as int)),
        decreases fws.len() - i,
    {
        record_forward(nodes, &fws[i]);
        proof {
            assert(fv.take(i + 1).drop_last() =~= fv.take(i as int));
            assert(fv.take(i + 1).last() == fws@[i as int]@);
        }
        i = i + 1;
    }
    assert(fv.take(fws.len() as int) =~= fv);
}

/// `name/feature`.
fn slash_join(a: &String, b: &String) -> (r: String)
    ensures
        r@ == a@ + "/"@ + b@,
{
    let mut r = a.clone();
    crate::text::push_str(&mut r, "/");
    crate::text::push_str(&mut r, b.as_str());
    r
}

/// Records the manifest-expansion sources of one node.
fn record_node_manifest_sources(node: &mut FeatureNode)
    ensures
        final(node)@ == with_manifest_node_sources(old(node)@),
{
    let ghost n0 = node@;
    let active = node.active_features.to_vec();
    let mut i: usize = 0;
    while i < active.len()
        invariant
            i <= active.len(),
            views(active@) == n0.active_features,
            node@ == (NodeView {
                feature_sources: add_manifest_sources(
                    n0.feature_sources,
                    n0,
                    n0.active_features.take(i as int),
                ),
                ..n0
            }),
        decreases active.len() - i,
    {
        let feature = &active[i];
        proof {
            assert(n0.active_features.take(i + 1).drop_last() =~= n0.active_features.take(i as int));
            assert(n0.active_features.take(i + 1).last() == feature@);
        }
        let expanded = match node.available_features.get(feature.as_str()) {
            None => {
                i = i + 1;
                continue;
            },
            Some(items) => items.clone(),
        };
        let ghost items = views(expanded@);
        let ghost s0 = node@.feature_sources;
        proof {
            assert(n0.available_features.contains_key(feature@));
            assert(items =~= n0.available_features[feature@]);
        }
        let mut t: usize = 0;
        while t < expanded.len()
            invariant
                t <= expanded.len(),
                items == views(expanded@),
                items == n0.available_features[feature@],
                node@ == (NodeView {
                    feature_sources: add_expansion_items(s0, n0, feature@, items.take(t as int)),
                    ..n0
                }),
            decreases expanded.len() - t,
        {
            let normalized = normalize_feature_reference(expanded[t].as_str());
            proof {
                assert(items.take(t + 1).drop_last() =~= items.take(t as int));
                assert(items.take(t + 1).last() == expanded@[t as int]@);
            }
            if node.active_features.contains(normalized.as_str()) {
                let requested_by = slash_join(&node.name, feature);
                let path = vec![node.name.clone(), feature.clone(), normalized.clone()];
                let src = FeatureSource { requested_by, path };
                proof {
                    assert(views(src.path@) =~= seq![n0.name, feature@, normalized@]);
                }
                push_source(&mut node.feature_sources, &normalized, src);
            }
            t = t + 1;
        }
        proof {
            assert(items.take(expanded.len() as int) =~= items);
        }
        i = i + 1;
    }
    proof {
        assert(n0.active_features.take(active.len() as int) =~= n0.active_features);
    }
}

/// Records, on every node, the sources that manifest feature expansions give.
pub fn record_manifest_feature_sources(graph: &mut FeatureGraph)
    ensures
        final(graph)@ == with_manifest_sources(old(graph)@),
{
    let ghost g0 = graph@;
    graph.nodes.wf_ensures();
    let ghost keys = graph.nodes.keys();
    let n = graph.nodes.len();
    let mut i: usize = 0;
    while i < n
        invariant
            i <= n,
            n == keys.len(),
            keys == graph.nodes.keys(),
            keys.no_duplicates(),
            graph.workspace_members@ == g0.workspace_members,
            nodes_view(graph.nodes).dom() == g0.nodes.dom(),
            forall|id: Seq<char>|
                #[trigger] g0.nodes.contains_key(id) ==> nodes_view(graph.nodes)[id] == (if keys.index_of(id) < i {
                    with_manifest_node_sources(g0.nodes[id])
                } else {
                    g0.nodes[id]
                }),
        decreases n - i,
    {
        let ghost before = nodes_view(graph.nodes);
        let ghost k = keys[i as int];
        proof {
            keys.index_of_first_ensures(k);
            assert(keys.contains(k));
            assert(keys.index_of(k) == i) by {
                if keys.index_of(k) != i {
                    assert(keys[keys.index_of(k)] == k);
                }
            }
            assert(g0.nodes.contains_key(k));
        }
        let mut node = graph.nodes.replace_at(i, FeatureNode::default());
        record_node_manifest_sources(&mut node);
        graph.nodes.replace_at(i, node);
        proof {
            assert forall|id: Seq<char>|
                #[trigger] g0.nodes.contains_key(id) implies nodes_view(graph.nodes)[id] == (if keys.index_of(id) < i + 1 {
                    with_manifest_node_sources(g0.nodes[id])
                } else {
                    g0.nodes[id]
                }) by {
                keys.index_of_first_ensures(id);
                if id != k {
                    assert(keys.index_of(id) != i);
                }
            }
        }
        i = i + 1;
    }
    proof {
        assert forall|id: Seq<char>| #[trigger] g0.nodes.contains_key(id) implies keys.index_of(id) < n by {
            keys.index_of_first_ensures(id);
        }
        assert(nodes_view(graph.nodes) =~= g0.nodes.map_values(|n: NodeView| with_manifest_node_sources(n)));
    }
    let ghost own = nodes_view(graph.nodes);
    graph.nodes.wf_ensures();
    proof {
        assert(own.dom() =~= keys.to_set());
        lemma_sorted_of(keys);
    }
    record_forwarded_sources(&mut graph.nodes);
}

/// The graph of packages and resolve nodes, before provenance is recorded
/// beyond each package's own resolved features.
pub fn resolve_base(metadata: &Metadata, manifests: &Vec<ParsedManifest>) -> (r: FeatureGraph)
    requires
        manifests.len() == metadata.packages.len(),
    ensures
        r@ == base_graph(*metadata, manifests@),
{
    let members = metadata.workspace_members.clone();
    assert(views(members@) =~= views(metadata.workspace_members@));
    let workspace_members = StrSet::from_vec(members);
    let mut nodes: StrMap<FeatureNode> = StrMap::new();
    proof {
        assert(nodes_view(nodes) =~= Map::<Seq<char>, NodeView>::empty());
    }
    let mut i: usize = 0;
    while i < metadata.packages.len()
        invariant
            i <= metadata.packages.len(),
            manifests.len() == metadata.packages.len(),
            nodes_view(nodes) == package_nodes(metadata.packages@, manifests@, i as int),
        decreases metadata.packages.len() - i,
    {
        let package = &metadata.packages[i];
        let node = node_of_package(package, &manifests[i]);
        let ghost nv = node@;
        let ghost before = nodes_view(nodes);
        nodes.insert(package.id.clone(), node);
        proof {
            assert(nodes_view(nodes) =~= before.insert(package.id@, nv));
        }
        i = i + 1;
    }
    let ghost pn = nodes_view(nodes);
    let mut j: usize = 0;
    while j < metadata.resolve_nodes.len()
        invariant
            j <= metadata.resolve_nodes.len(),
            pn == package_nodes(metadata.packages@, manifests@, metadata.packages@.len() as int),
            nodes_view(nodes) == apply_resolve_nodes(pn, metadata.resolve_nodes@, j as int),
        decreases metadata.resolve_nodes.len() - j,
    {
        apply_resolve(&mut nodes, &metadata.resolve_nodes[j]);
        j = j + 1;
    }
    proof {
        lemma_sorted_of(workspace_members@);
    }
    FeatureGraph { workspace_members, nodes }
}

/// The resolved graph: `resolve_base`, then the sources of the dependency
/// walk, then those of manifest feature expansions, with every source list
/// sorted at the end.
pub open spec fn resolved_graph(md: Metadata, ms: Seq<ParsedManifest>) -> GraphView {
    with_sorted_sources(with_manifest_sources(with_dependency_sources(base_graph(md, ms), md.resolve_nodes@)))
}

/// Builds the feature graph from `cargo metadata` and the package manifests;
/// `manifests[i]` is the manifest of `metadata.packages[i]`.
pub fn resolve(metadata: &Metadata, manifests: &Vec<ParsedManifest>) -> (r: FeatureGraph)
    requires
        manifests.len() == metadata.packages.len(),
    ensures
        r@ == resolved_graph(*metadata, manifests@),
{
    let mut graph = resolve_base(metadata, manifests);
    record_dependency_sources(&mut graph, &metadata.resolve_nodes);
    record_manifest_feature_sources(&mut graph);
    sort_graph_sources(&mut graph);
    graph
}

} // verus!
