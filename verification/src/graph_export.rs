//! Exports of the resolved dependency graph: Graphviz DOT and Mermaid.
use vstd::prelude::*;

use crate::collections::{
    entries_to_map, text_map_view, compare_str, lemma_lt_asym, lemma_lt_irreflexive, lemma_lt_total, lemma_lt_trans, seq_lt,
    Order3, StrMap, StrSet,
};
use crate::report::{derefs, visible, visible_nodes};
use crate::resolver::{FeatureGraph, FeatureNode};
use crate::text::{
    chars_of, concat_all, decimal, decimal_string, is_ascii_alnum, is_ascii_alnum_exec,
    is_ascii_digit, is_control, is_control_exec, join, join_strings, lemma_concat_step, lemma_decimal_injective,
    lemma_decimal_len, push_char, push_str,
};
use crate::util::opt_view;

verus! {

/// The DOT escape of one character.
pub open spec fn dot_escape_char(c: char) -> Seq<char> {
    if c == '\\' {
        "\\\\"@
    } else if c == '"' {
        "\\\""@
    } else if c == '\n' {
        "\\n"@
    } else if c == '\r' {
        "\\r"@
    } else if c == '\t' {
        "\\t"@
    } else if is_control(c) {
        "\\u00"@ + seq![
            crate::text::hex_digit((c as u32 / 16) as nat),
            crate::text::hex_digit((c as u32 % 16) as nat),
        ]
    } else {
        seq![c]
    }
}

/// A text escaped for a quoted DOT string.
pub open spec fn dot_escaped(s: Seq<char>) -> Seq<char> {
    concat_all(s.map_values(|c: char| dot_escape_char(c)))
}

/// Escapes a text for a quoted DOT string.
pub fn dot_escape(value: &str) -> (r: String)
    ensures
        r@ == dot_escaped(value@),
{
    let v = chars_of(value);
    let mut out = String::new();
    let mut i: usize = 0;
    assert(v@.take(0).map_values(|c: char| dot_escape_char(c)) =~= Seq::<Seq<char>>::empty());
    while i < v.len()
        invariant
            i <= v.len(),
            v@ == value@,
            out@ == dot_escaped(v@.take(i as int)),
        decreases v.len() - i,
    {
        let c = v[i];
        if c == '\\' {
            push_str(&mut out, "\\\\");
        } else if c == '"' {
            push_str(&mut out, "\\\"");
        } else if c == '\n' {
            push_str(&mut out, "\\n");
        } else if c == '\r' {
            push_str(&mut out, "\\r");
        } else if c == '\t' {
            push_str(&mut out, "\\t");
        } else if is_control_exec(c) {
            let u = c as u32;
            push_str(&mut out, "\\u00");
            push_char(&mut out, crate::text::hex_digit_exec(u / 16));
            push_char(&mut out, crate::text::hex_digit_exec(u % 16));
        } else {
            push_char(&mut out, c);
        }
        proof {
            lemma_concat_step(v@, |c: char| dot_escape_char(c), i as int);
        }
        i = i + 1;
    }
    assert(v@.take(v.len() as int) =~= v@);
    out
}

/// The Mermaid label escape of one character.
pub open spec fn mermaid_escape_char(c: char) -> Seq<char> {
    if c == '\\' {
        "\\\\"@
    } else if c == '"' {
        "#quot;"@
    } else if c == '\n' || c == '\r' {
        "<br/>"@
    } else if c == '<' {
        "&lt;"@
    } else if c == '>' {
        "&gt;"@
    } else if c == '&' {
        "&amp;"@
    } else if is_control(c) {
        seq![' ']
    } else {
        seq![c]
    }
}

/// A text escaped for a quoted Mermaid label.
pub open spec fn mermaid_escaped(s: Seq<char>) -> Seq<char> {
    concat_all(s.map_values(|c: char| mermaid_escape_char(c)))
}

/// Escapes a text for a quoted Mermaid label.
pub fn mermaid_label_escape(value: &str) -> (r: String)
    ensures
        r@ == mermaid_escaped(value@),
{
    let v = chars_of(value);
    let mut out = String::new();
    let mut i: usize = 0;
    assert(v@.take(0).map_values(|c: char| mermaid_escape_char(c)) =~= Seq::<Seq<char>>::empty());
    while i < v.len()
        invariant
            i <= v.len(),
            v@ == value@,
            out@ == mermaid_escaped(v@.take(i as int)),
        decreases v.len() - i,
    {
        let c = v[i];
        if c == '\\' {
            push_str(&mut out, "\\\\");
        } else if c == '"' {
            push_str(&mut out, "#quot;");
        } else if c == '\n' || c == '\r' {
            push_str(&mut out, "<br/>");
        } else if c == '<' {
            push_str(&mut out, "&lt;");
        } else if c == '>' {
            push_str(&mut out, "&gt;");
        } else if c == '&' {
            push_str(&mut out, "&amp;");
        } else if is_control_exec(c) {
            push_char(&mut out, ' ');
        } else {
            push_char(&mut out, c);
        }
        proof {
            lemma_concat_step(v@, |c: char| mermaid_escape_char(c), i as int);
        }
        i = i + 1;
    }
    assert(v@.take(v.len() as int) =~= v@);
    out
}

/// A character as it stands in an identifier: ASCII letters, digits and
/// `_` stay, anything else becomes `_`.
pub open spec fn id_char(c: char) -> char {
    if is_ascii_alnum(c) || c == '_' {
        c
    } else {
        '_'
    }
}

/// The identifier made of a prefix and a value: `prefix_value`, with the
/// value's characters mapped by `id_char` and `_` put before a value that is
/// empty or starts with a digit.
pub open spec fn sanitized(value: Seq<char>, prefix: Seq<char>) -> Seq<char> {
    let s = value.map_values(|c: char| id_char(c));
    prefix + "_"@ + (if s.len() == 0 || is_ascii_digit(s[0]) {
        seq!['_'] + s
    } else {
        s
    })
}

/// The identifier for a value under a prefix.
pub fn sanitize_id(value: &str, prefix: &str) -> (r: String)
    ensures
        r@ == sanitized(value@, prefix@),
{
    let v = chars_of(value);
    let ghost mapped = v@.map_values(|c: char| id_char(c));
    let mut body = String::new();
    let mut i: usize = 0;
    while i < v.len()
        invariant
            i <= v.len(),
            v@ == value@,
            mapped == v@.map_values(|c: char| id_char(c)),
            body@ == mapped.take(i as int),
        decreases v.len() - i,
    {
        let c = v[i];
        if is_ascii_alnum_exec(c) || c == '_' {
            push_char(&mut body, c);
        } else {
            push_char(&mut body, '_');
        }
        assert(body@ =~= mapped.take(i + 1));
        i = i + 1;
    }
    assert(mapped.take(v.len() as int) =~= mapped);
    let mut out = String::new();
    push_str(&mut out, prefix);
    push_str(&mut out, "_");
    if v.len() == 0 || ('0' <= v[0] && v[0] <= '9') {
        push_char(&mut out, '_');
    }
    push_str(&mut out, body.as_str());
    assert(out@ =~= sanitized(value@, prefix@));
    out
}

/// The label of a node: name and version, then its active features.
pub open spec fn label(n: FeatureNode) -> Seq<char> {
    n.name@ + " "@ + n.version@ + (if n.active_features@.len() == 0 {
        Seq::empty()
    } else {
        "\n"@ + "features: "@ + join(n.active_features@, ", "@)
    })
}

/// The label of a node.
pub fn node_label(node: &FeatureNode) -> (r: String)
    ensures
        r@ == label(*node),
{
    let mut out = String::new();
    push_str(&mut out, node.name.as_str());
    push_str(&mut out, " ");
    push_str(&mut out, node.version.as_str());
    if !node.active_features.is_empty() {
        push_str(&mut out, "\n");
        push_str(&mut out, "features: ");
        let v = node.active_features.to_vec();
        push_str(&mut out, join_strings(&v, ", ").as_str());
    }
    assert(out@ =~= label(*node));
    out
}

/// The `k`-th alternative identifier for a base: `base_k`.
pub open spec fn id_candidate(base: Seq<char>, k: nat) -> Seq<char> {
    base + "_"@ + decimal(k)
}

/// `k` is the least suffix from 2 whose candidate is not taken.
pub open spec fn first_free(base: Seq<char>, used: Seq<Seq<char>>, k: nat) -> bool {
    &&& k >= 2
    &&& !used.contains(id_candidate(base, k))
    &&& forall|j: nat| 2 <= j < k ==> used.contains(#[trigger] id_candidate(base, j))
}

/// The identifier a node with base `base` receives after the identifiers
/// `used`: the base itself, or else its first free alternative.
pub open spec fn fresh_id(base: Seq<char>, used: Seq<Seq<char>>) -> Seq<char> {
    if !used.contains(base) {
        base
    } else {
        id_candidate(base, choose|k: nat| first_free(base, used, k))
    }
}

/// The identifiers given under `prefix` to nodes with the package IDs
/// `pids`, in order.
pub open spec fn assigned_ids(pids: Seq<Seq<char>>, prefix: Seq<char>) -> Seq<Seq<char>>
    decreases pids.len(),
{
    if pids.len() == 0 {
        Seq::empty()
    } else {
        let prev = assigned_ids(pids.drop_last(), prefix);
        prev.push(fresh_id(sanitized(pids.last(), prefix), prev))
    }
}

/// The candidates tried first: the base, then `base_2` to `base_k`.
pub open spec fn tried(base: Seq<char>, k: nat) -> Seq<Seq<char>> {
    Seq::new(k, |j: int| if j == 0 { base } else { id_candidate(base, (j + 1) as nat) })
}

proof fn lemma_tried_distinct(base: Seq<char>, k: nat)
    ensures
        tried(base, k).no_duplicates(),
{
    let t = tried(base, k);
    reveal_strlit("_");
    assert forall|i: int, j: int| 0 <= i < t.len() && 0 <= j < t.len() && i != j implies t[i]
        != t[j] by {
        if i == 0 {
            lemma_decimal_len((j + 1) as nat);
            assert(t[j].len() > base.len());
        } else if j == 0 {
            lemma_decimal_len((i + 1) as nat);
            assert(t[i].len() > base.len());
        } else if t[i] == t[j] {
            let p: int = base.len() as int + 1;
            assert(t[i].skip(p) =~= decimal((i + 1) as nat));
            assert(t[j].skip(p) =~= decimal((j + 1) as nat));
            lemma_decimal_injective((i + 1) as nat, (j + 1) as nat);
        }
    }
}

/// When the first `k` candidates are all taken, at least `k` identifiers
/// are taken.
proof fn lemma_tried_bound(base: Seq<char>, used: Seq<Seq<char>>, k: nat)
    requires
        forall|j: int| 0 <= j < k ==> used.contains(#[trigger] tried(base, k)[j]),
    ensures
        k <= used.len(),
{
    broadcast use vstd::seq_lib::seq_to_set_is_finite;

    let t = tried(base, k);
    lemma_tried_distinct(base, k);
    t.unique_seq_to_set();
    used.lemma_cardinality_of_set();
    assert(t.to_set().subset_of(used.to_set())) by {
        assert forall|x: Seq<char>| t.to_set().contains(x) implies used.to_set().contains(x) by {
            let j = choose|j: int| 0 <= j < t.len() && t[j] == x;
            assert(used.contains(t[j]));
        }
    }
    vstd::set_lib::lemma_len_subset(t.to_set(), used.to_set());
}

/// A taken base has a first free alternative.
proof fn lemma_first_free_exists(base: Seq<char>, used: Seq<Seq<char>>, k: nat)
    requires
        used.contains(base),
        k >= 2,
        forall|j: nat| 2 <= j < k ==> used.contains(#[trigger] id_candidate(base, j)),
    ensures
        exists|m: nat| first_free(base, used, m),
    decreases used.len() + 2 - k,
{
    if used.contains(id_candidate(base, k)) {
        let t = tried(base, k);
        assert forall|j: int| 0 <= j < k implies used.contains(#[trigger] tried(base, k)[j]) by {
            if j > 0 {
                assert(t[j] == id_candidate(base, (j + 1) as nat));
            }
        }
        lemma_tried_bound(base, used, k);
        lemma_first_free_exists(base, used, k + 1);
    } else {
        assert(first_free(base, used, k));
    }
}

/// Only one suffix is the first free one.
proof fn lemma_first_free_unique(base: Seq<char>, used: Seq<Seq<char>>, a: nat, b: nat)
    requires
        first_free(base, used, a),
        first_free(base, used, b),
    ensures
        a == b,
{
    if a < b {
        assert(used.contains(id_candidate(base, a)));
    } else if b < a {
        assert(used.contains(id_candidate(base, b)));
    }
}

/// A fresh identifier is not one of the identifiers taken before it.
proof fn lemma_fresh_id_new(base: Seq<char>, used: Seq<Seq<char>>)
    ensures
        !used.contains(fresh_id(base, used)),
{
    if used.contains(base) {
        lemma_first_free_exists(base, used, 2);
    }
}

/// No two nodes of an export share an identifier.
pub proof fn lemma_assigned_ids_distinct(pids: Seq<Seq<char>>, prefix: Seq<char>)
    ensures
        assigned_ids(pids, prefix).no_duplicates(),
        assigned_ids(pids, prefix).len() == pids.len(),
    decreases pids.len(),
{
    if pids.len() > 0 {
        let prev = assigned_ids(pids.drop_last(), prefix);
        lemma_assigned_ids_distinct(pids.drop_last(), prefix);
        lemma_fresh_id_new(sanitized(pids.last(), prefix), prev);
    }
}

/// The package IDs of nodes, in order.
pub open spec fn node_pids(nodes: Seq<FeatureNode>) -> Seq<Seq<char>> {
    nodes.map_values(|n: FeatureNode| n.package_id@)
}

/// The identifiers given to the visible nodes, in order: each the
/// sanitized package ID, or its first alternative not given before.
fn assign_ids(visible_nodes: &Vec<&FeatureNode>, prefix: &str) -> (r: Vec<String>)
    ensures
        r@.map_values(|s: String| s@) == assigned_ids(node_pids(derefs(visible_nodes@)), prefix@),
{
    let ghost pids = node_pids(derefs(visible_nodes@));
    let mut used = StrSet::new();
    let mut ids: Vec<String> = Vec::new();
    let mut i: usize = 0;
    assert(ids@.map_values(|s: String| s@) =~= assigned_ids(pids.take(0), prefix@));
    while i < visible_nodes.len()
        invariant
            i <= visible_nodes.len(),
            pids == node_pids(derefs(visible_nodes@)),
            ids@.map_values(|s: String| s@) == assigned_ids(pids.take(i as int), prefix@),
            used@.to_set() == ids@.map_values(|s: String| s@).to_set(),
            ids@.len() == i,
        decreases visible_nodes.len() - i,
    {
        let ghost prev = ids@.map_values(|s: String| s@);
        let node = visible_nodes[i];
        let base = sanitize_id(node.package_id.as_str(), prefix);
        let mut candidate = base.clone();
        let mut suffix: usize = 1;
        proof {
            lemma_assigned_ids_distinct(pids.take(i as int), prefix@);
        }
        while used.contains(candidate.as_str())
            invariant
                i < visible_nodes.len(),
                prev.len() == i,
                used@.to_set() == prev.to_set(),
                1 <= suffix <= i + 1,
                forall|j: int| 0 <= j < suffix - 1 ==> prev.contains(#[trigger] tried(base@, (suffix - 1) as nat)[j]),
                candidate@ == tried(base@, suffix as nat)[suffix - 1],
            decreases i + 1 - suffix,
        {
            proof {
                assert(used@.to_set().contains(candidate@));
                assert forall|j: int| 0 <= j < suffix implies prev.contains(#[trigger] tried(base@, suffix as nat)[j]) by {
                    if j < suffix - 1 {
                        assert(tried(base@, suffix as nat)[j] == tried(base@, (suffix - 1) as nat)[j]);
                    }
                }
                lemma_tried_bound(base@, prev, suffix as nat);
            }
            suffix = suffix + 1;
            let mut next = base.clone();
            push_str(&mut next, "_");
            push_str(&mut next, decimal_string(suffix).as_str());
            candidate = next;
            proof {
                assert(candidate@ == id_candidate(base@, suffix as nat));
                assert forall|j: int| 0 <= j < suffix - 1 implies prev.contains(#[trigger] tried(base@, (suffix - 1) as nat)[j]) by {
                    if j < suffix - 2 {
                        assert(tried(base@, (suffix - 1) as nat)[j] == tried(base@, (suffix - 2) as nat)[j]);
                    }
                }
            }
        }
        proof {
            assert(!used@.to_set().contains(candidate@));
            assert(!prev.to_set().contains(candidate@));
            assert(!prev.contains(candidate@));
            let b = sanitized(pids[i as int], prefix@);
            assert(b == base@);
            if suffix == 1 {
                assert(candidate@ == fresh_id(b, prev));
            } else {
                assert(prev.contains(b)) by {
                    assert(tried(b, (suffix - 1) as nat)[0] == b);
                }
                assert forall|j: nat| 2 <= j < suffix implies prev.contains(#[trigger] id_candidate(b, j)) by {
                    assert(tried(b, (suffix - 1) as nat)[j - 1] == id_candidate(b, j));
                }
                assert(first_free(b, prev, suffix as nat));
                lemma_first_free_exists(b, prev, 2);
                let c = choose|k: nat| first_free(b, prev, k);
                lemma_first_free_unique(b, prev, c, suffix as nat);
            }
            assert(pids.take(i + 1).drop_last() =~= pids.take(i as int));
        }
        used.insert(candidate.clone());
        ids.push(candidate);
        proof {
            assert(ids@.map_values(|s: String| s@) =~= prev.push(ids@[i as int]@));
            prev.lemma_push_to_set_commute(ids@[i as int]@);
        }
        i = i + 1;
    }
    assert(pids.take(visible_nodes.len() as int) =~= pids);
    ids
}

/// The identifier of each visible package ID under `prefix`; where two
/// visible nodes share a package ID, the later one's identifier.
pub open spec fn id_map(nodes: Seq<FeatureNode>, prefix: Seq<char>) -> Map<Seq<char>, Seq<char>> {
    let pids = node_pids(nodes);
    let ids = assigned_ids(pids, prefix);
    entries_to_map(Seq::new(pids.len(), |k: int| (pids[k], ids[k])))
}

/// Every key of an entry is a key of the map.
proof fn lemma_entries_to_map_keys(entries: Seq<(Seq<char>, Seq<char>)>)
    ensures
        forall|k: int| 0 <= k < entries.len() ==> entries_to_map(entries).dom().contains(
            #[trigger] entries[k].0,
        ),
    decreases entries.len(),
{
    if entries.len() > 0 {
        lemma_entries_to_map_keys(entries.drop_last());
        assert forall|k: int| 0 <= k < entries.len() implies entries_to_map(entries).dom().contains(
            #[trigger] entries[k].0,
        ) by {
            if k < entries.len() - 1 {
                assert(entries.drop_last()[k] == entries[k]);
            }
        }
    }
}

/// Every visible package ID has an identifier.
proof fn lemma_id_map_keys(nodes: Seq<FeatureNode>, prefix: Seq<char>)
    ensures
        forall|k: int| 0 <= k < nodes.len() ==> id_map(nodes, prefix).dom().contains(
            #[trigger] nodes[k].package_id@,
        ),
{
    let pids = node_pids(nodes);
    let ids = assigned_ids(pids, prefix);
    let entries = Seq::new(pids.len(), |k: int| (pids[k], ids[k]));
    lemma_entries_to_map_keys(entries);
    assert forall|k: int| 0 <= k < nodes.len() implies id_map(nodes, prefix).dom().contains(
        #[trigger] nodes[k].package_id@,
    ) by {
        assert(entries[k].0 == nodes[k].package_id@);
    }
}

/// The identifiers of the visible nodes, keyed by package ID.
fn stable_node_ids(visible_nodes: &Vec<&FeatureNode>, prefix: &str) -> (r: StrMap<String>)
    ensures
        text_map_view(r) == id_map(derefs(visible_nodes@), prefix@),
{
    let ids = assign_ids(visible_nodes, prefix);
    let ghost pids = node_pids(derefs(visible_nodes@));
    let ghost idv = assigned_ids(pids, prefix@);
    let ghost entries = Seq::new(pids.len(), |k: int| (pids[k], idv[k]));
    proof {
        lemma_assigned_ids_distinct(pids, prefix@);
    }
    let mut map: StrMap<String> = StrMap::new();
    let mut i: usize = 0;
    assert(text_map_view(map) =~= entries_to_map(entries.take(0)));
    while i < visible_nodes.len()
        invariant
            i <= visible_nodes.len(),
            pids == node_pids(derefs(visible_nodes@)),
            idv == assigned_ids(pids, prefix@),
            ids@.map_values(|s: String| s@) == idv,
            ids@.len() == visible_nodes.len(),
            entries == Seq::new(pids.len(), |k: int| (pids[k], idv[k])),
            text_map_view(map) == entries_to_map(entries.take(i as int)),
        decreases visible_nodes.len() - i,
    {
        let ghost before = text_map_view(map);
        map.insert(visible_nodes[i].package_id.clone(), ids[i].clone());
        proof {
            assert(entries.take(i + 1).drop_last() =~= entries.take(i as int));
            assert(entries[i as int] == (pids[i as int], idv[i as int]));
            assert(ids@[i as int]@ == idv[i as int]);
            assert(text_map_view(map) =~= before.insert(pids[i as int], idv[i as int]));
        }
        i = i + 1;
    }
    assert(entries.take(visible_nodes.len() as int) =~= entries);
    map
}

/// A dependency edge between two exported nodes, by identifier.
#[derive(Debug)]
pub struct GraphEdge {
    pub from_id: String,
    pub to_id: String,
}

impl View for GraphEdge {
    type V = (Seq<char>, Seq<char>);

    open spec fn view(&self) -> (Seq<char>, Seq<char>) {
        (self.from_id@, self.to_id@)
    }
}

/// Edge `a` sorts before edge `b`: by source, then by target.
pub open spec fn edge_lt(a: (Seq<char>, Seq<char>), b: (Seq<char>, Seq<char>)) -> bool {
    seq_lt(a.0, b.0) || (a.0 == b.0 && seq_lt(a.1, b.1))
}

/// Strictly increasing edges.
pub open spec fn edges_sorted(s: Seq<(Seq<char>, Seq<char>)>) -> bool {
    forall|i: int, j: int| 0 <= i < j < s.len() ==> edge_lt(#[trigger] s[i], #[trigger] s[j])
}

pub open spec fn edge_views(s: Seq<GraphEdge>) -> Seq<(Seq<char>, Seq<char>)> {
    s.map_values(|e: GraphEdge| e@)
}

proof fn lemma_edge_lt_order(a: (Seq<char>, Seq<char>), b: (Seq<char>, Seq<char>), c: (Seq<char>, Seq<char>))
    ensures
        !edge_lt(a, a),
        edge_lt(a, b) ==> !edge_lt(b, a),
        edge_lt(a, b) && edge_lt(b, c) ==> edge_lt(a, c),
        a != b ==> edge_lt(a, b) || edge_lt(b, a),
{
    lemma_lt_irreflexive(a.0);
    lemma_lt_irreflexive(a.1);
    lemma_lt_asym(a.0, b.0);
    lemma_lt_asym(a.1, b.1);
    lemma_lt_total(a.0, b.0);
    lemma_lt_total(a.1, b.1);
    if seq_lt(a.0, b.0) && seq_lt(b.0, c.0) {
        lemma_lt_trans(a.0, b.0, c.0);
    }
    if seq_lt(a.1, b.1) && seq_lt(b.1, c.1) {
        lemma_lt_trans(a.1, b.1, c.1);
    }
}

/// Two strictly increasing edge sequences with the same edges are equal.
proof fn lemma_edges_sorted_unique(s: Seq<(Seq<char>, Seq<char>)>, t: Seq<(Seq<char>, Seq<char>)>)
    requires
        edges_sorted(s),
        edges_sorted(t),
        s.to_set() == t.to_set(),
    ensures
        s == t,
    decreases s.len(),
{
    if s.len() == 0 {
        if t.len() > 0 {
            assert(t.to_set().contains(t[0]));
        }
        assert(s =~= t);
    } else if t.len() == 0 {
        assert(s.to_set().contains(s[0]));
    } else {
        assert(s.to_set().contains(s[0]));
        assert(t.to_set().contains(t[0]));
        let i = choose|i: int| 0 <= i < t.len() && t[i] == s[0];
        let j = choose|j: int| 0 <= j < s.len() && s[j] == t[0];
        if i > 0 {
            assert(edge_lt(t[0], t[i]));
            lemma_edge_lt_order(s[0], t[0], s[0]);
            if j > 0 {
                assert(edge_lt(s[0], s[j]));
            }
        }
        assert(s[0] == t[0]);
        let s2 = s.drop_first();
        let t2 = t.drop_first();
        assert forall|x: (Seq<char>, Seq<char>)| s2.to_set().contains(x) implies t2.to_set().contains(x) by {
            let k = choose|k: int| 0 <= k < s2.len() && s2[k] == x;
            assert(s.to_set().contains(x));
            let m = choose|m: int| 0 <= m < t.len() && t[m] == x;
            assert(edge_lt(s[0], s[k + 1]));
            if m == 0 {
                lemma_edge_lt_order(x, x, x);
            }
            assert(t2[m - 1] == x);
        }
        assert forall|x: (Seq<char>, Seq<char>)| t2.to_set().contains(x) implies s2.to_set().contains(x) by {
            let k = choose|k: int| 0 <= k < t2.len() && t2[k] == x;
            assert(t.to_set().contains(x));
            let m = choose|m: int| 0 <= m < s.len() && s[m] == x;
            assert(edge_lt(t[0], t[k + 1]));
            if m == 0 {
                lemma_edge_lt_order(x, x, x);
            }
            assert(s2[m - 1] == x);
        }
        assert(s2.to_set() =~= t2.to_set());
        lemma_edges_sorted_unique(s2, t2);
        assert(s =~= seq![s[0]] + s2);
        assert(t =~= seq![t[0]] + t2);
    }
}

/// Compares two edges in `edge_lt` order.
fn compare_edges(a: &GraphEdge, b: &GraphEdge) -> (r: Order3)
    ensures
        r == Order3::Less <==> edge_lt(a@, b@),
        r == Order3::Equal <==> a@ == b@,
        r == Order3::Greater <==> edge_lt(b@, a@),
{
    proof {
        lemma_edge_lt_order(a@, b@, a@);
    }
    match compare_str(a.from_id.as_str(), b.from_id.as_str()) {
        Order3::Equal => compare_str(a.to_id.as_str(), b.to_id.as_str()),
        o => o,
    }
}

/// A set of edges kept in increasing order (the model of a `BTreeSet`).
pub struct EdgeSet {
    items: Vec<GraphEdge>,
}

impl View for EdgeSet {
    type V = Seq<(Seq<char>, Seq<char>)>;

    closed spec fn view(&self) -> Seq<(Seq<char>, Seq<char>)> {
        edge_views(self.items@)
    }
}

impl EdgeSet {
    #[verifier::type_invariant]
    spec fn inv(self) -> bool {
        edges_sorted(edge_views(self.items@))
    }

    pub fn new() -> (r: Self)
        ensures
            r@ == Seq::<(Seq<char>, Seq<char>)>::empty(),
    {
        let r = EdgeSet { items: Vec::new() };
        assert(edge_views(r.items@) =~= Seq::<(Seq<char>, Seq<char>)>::empty());
        r
    }

    /// Adds an edge, which is kept once.
    pub fn insert(&mut self, e: GraphEdge)
        ensures
            final(self)@.to_set() == old(self)@.to_set().insert(e@),
            edges_sorted(final(self)@),
    {
        proof {
            use_type_invariant(&*self);
        }
        let ghost old_view = self@;
        let mut i: usize = 0;
        while i < self.items.len()
            invariant
                i <= self.items.len(),
                old_view == self@,
                edges_sorted(old_view),
                old_view == edge_views(self.items@),
                forall|k: int| 0 <= k < i ==> edge_lt(#[trigger] old_view[k], e@),
            ensures
                i <= old_view.len(),
                forall|k: int| 0 <= k < i ==> edge_lt(#[trigger] old_view[k], e@),
                i < old_view.len() ==> edge_lt(e@, old_view[i as int]),
            decreases self.items.len() - i,
        {
            match compare_edges(&self.items[i], &e) {
                Order3::Less => {
                    i = i + 1;
                },
                Order3::Equal => {
                    proof {
                        assert(old_view[i as int] == e@);
                        assert(old_view.to_set().contains(e@));
                        assert(old_view.to_set().insert(e@) =~= old_view.to_set());
                    }
                    return;
                },
                Order3::Greater => {
                    break;
                },
            }
        }
        proof {
            assert forall|k: int| i <= k < old_view.len() implies edge_lt(e@, #[trigger] old_view[k]) by {
                lemma_edge_lt_order(e@, old_view[i as int], old_view[k]);
                lemma_edge_lt_order(old_view[i as int], e@, old_view[i as int]);
                if k > i {
                    assert(edge_lt(old_view[i as int], old_view[k]));
                }
            }
        }
        let ghost new_view = old_view.insert(i as int, e@);
        proof {
            assert forall|a: int, b: int| 0 <= a < b < new_view.len() implies edge_lt(
                #[trigger] new_view[a],
                #[trigger] new_view[b],
            ) by {
                if b < i {
                } else if a > i {
                    assert(new_view[a] == old_view[a - 1]);
                    assert(new_view[b] == old_view[b - 1]);
                } else if a == i {
                    assert(new_view[b] == old_view[b - 1]);
                } else if b == i {
                } else {
                    assert(new_view[b] == old_view[b - 1]);
                    lemma_edge_lt_order(new_view[a], e@, new_view[b]);
                }
            }
        }
        let mut items: Vec<GraphEdge> = Vec::new();
        std::mem::swap(&mut items, &mut self.items);
        items.insert(i, e);
        assert(edge_views(items@) =~= new_view);
        self.items = items;
        proof {
            assert(self@ =~= new_view);
            assert(new_view.to_set() =~= old_view.to_set().insert(e@)) by {
                assert forall|y: (Seq<char>, Seq<char>)| #[trigger] new_view.to_set().contains(y) implies old_view.to_set().insert(e@).contains(y) by {
                    let k = choose|k: int| 0 <= k < new_view.len() && new_view[k] == y;
                    if k < i {
                        assert(old_view[k] == y);
                    } else if k > i {
                        assert(old_view[k - 1] == y);
                    }
                }
                assert forall|y: (Seq<char>, Seq<char>)| #[trigger] old_view.to_set().insert(e@).contains(y) implies new_view.to_set().contains(y) by {
                    if y == e@ {
                        assert(new_view[i as int] == y);
                    } else {
                        let k = choose|k: int| 0 <= k < old_view.len() && old_view[k] == y;
                        if k < i {
                            assert(new_view[k] == y);
                        } else {
                            assert(new_view[k + 1] == y);
                        }
                    }
                }
            }
        }
    }

    /// The edges, in increasing order.
    pub fn into_vec(self) -> (r: Vec<GraphEdge>)
        ensures
            edge_views(r@) == self@,
            edges_sorted(self@),
    {
        proof {
            use_type_invariant(&self);
        }
        self.items
    }
}

/// The edge that dependency `j` of visible node `k` gives under the
/// identifier map `m`: none where the dependency is not visible or an
/// identifier is missing.
pub open spec fn edge_of(nodes: Seq<FeatureNode>, m: Map<Seq<char>, Seq<char>>, k: int, j: int) -> Option<
    (Seq<char>, Seq<char>),
> {
    let from = nodes[k].package_id@;
    let to = nodes[k].dependencies@[j]@;
    if node_pids(nodes).contains(to) && m.dom().contains(from) && m.dom().contains(to) {
        Some((m[from], m[to]))
    } else {
        None
    }
}

/// The edges given by the dependencies before dependency `j` of node `k`.
pub open spec fn edges_before(nodes: Seq<FeatureNode>, m: Map<Seq<char>, Seq<char>>, k: int, j: int) -> Set<
    (Seq<char>, Seq<char>),
> {
    Set::new(
        |e: (Seq<char>, Seq<char>)|
            exists|k2: int, j2: int|
                0 <= k2 < nodes.len() && 0 <= j2 < nodes[k2].dependencies@.len() && (k2 < k || (k2
                    == k && j2 < j)) && #[trigger] edge_of(nodes, m, k2, j2) == Some(e),
    )
}

/// All edges of the export.
pub open spec fn edge_set(nodes: Seq<FeatureNode>, m: Map<Seq<char>, Seq<char>>) -> Set<(Seq<char>, Seq<char>)> {
    edges_before(nodes, m, nodes.len() as int, 0)
}

/// The edges of the export in increasing order, each once.
pub open spec fn sorted_edges(nodes: Seq<FeatureNode>, m: Map<Seq<char>, Seq<char>>) -> Seq<(Seq<char>, Seq<char>)> {
    choose|q: Seq<(Seq<char>, Seq<char>)>| edges_sorted(q) && q.to_set() == edge_set(nodes, m)
}

/// The dependency edges between visible nodes, in increasing order, each once.
fn dependency_edges(visible_nodes: &Vec<&FeatureNode>, node_ids: &StrMap<String>) -> (r: Vec<GraphEdge>)
    ensures
        edge_views(r@) == sorted_edges(derefs(visible_nodes@), text_map_view(*node_ids)),
{
    let ghost nodes = derefs(visible_nodes@);
    let ghost m = text_map_view(*node_ids);
    let ghost pids = node_pids(nodes);
    let mut visible_package_ids = StrSet::new();
    let mut i: usize = 0;
    assert(pids.take(0).to_set() =~= Set::<Seq<char>>::empty());
    assert(visible_package_ids@.to_set() =~= Set::<Seq<char>>::empty());
    while i < visible_nodes.len()
        invariant
            i <= visible_nodes.len(),
            nodes == derefs(visible_nodes@),
            pids == node_pids(nodes),
            visible_package_ids@.to_set() == pids.take(i as int).to_set(),
        decreases visible_nodes.len() - i,
    {
        visible_package_ids.insert(visible_nodes[i].package_id.clone());
        proof {
            assert(pids.take(i + 1) =~= pids.take(i as int).push(pids[i as int]));
            pids.take(i as int).lemma_push_to_set_commute(pids[i as int]);
        }
        i = i + 1;
    }
    assert(pids.take(visible_nodes.len() as int) =~= pids);
    let mut edges = EdgeSet::new();
    let mut k: usize = 0;
    assert(edges@.to_set() =~= edges_before(nodes, m, 0, 0));
    while k < visible_nodes.len()
        invariant
            k <= visible_nodes.len(),
            nodes == derefs(visible_nodes@),
            m == text_map_view(*node_ids),
            pids == node_pids(nodes),
            visible_package_ids@.to_set() == pids.to_set(),
            edges@.to_set() == edges_before(nodes, m, k as int, 0),
        decreases visible_nodes.len() - k,
    {
        let node = visible_nodes[k];
        let ghost nk = node.dependencies@.len();
        proof {
            assert(edges_before(nodes, m, k + 1, 0) =~= edges_before(nodes, m, k as int, nk as int)) by {
                assert forall|e: (Seq<char>, Seq<char>)| #[trigger] edges_before(nodes, m, k + 1, 0).contains(e)
                    implies edges_before(nodes, m, k as int, nk as int).contains(e) by {
                    let (k2, j2) = choose|k2: int, j2: int|
                        0 <= k2 < nodes.len() && 0 <= j2 < nodes[k2].dependencies@.len() && (k2 < k + 1 || (k2
                            == k + 1 && j2 < 0)) && #[trigger] edge_of(nodes, m, k2, j2) == Some(e);
                    assert(edge_of(nodes, m, k2, j2) == Some(e));
                }
                assert forall|e: (Seq<char>, Seq<char>)| #[trigger] edges_before(nodes, m, k as int, nk as int).contains(e)
                    implies edges_before(nodes, m, k + 1, 0).contains(e) by {
                    let (k2, j2) = choose|k2: int, j2: int|
                        0 <= k2 < nodes.len() && 0 <= j2 < nodes[k2].dependencies@.len() && (k2 < k || (k2
                            == k && j2 < nk)) && #[trigger] edge_of(nodes, m, k2, j2) == Some(e);
                    assert(edge_of(nodes, m, k2, j2) == Some(e));
                }
            }
        }
        match node_ids.get(node.package_id.as_str()) {
            Some(from_id) => {
                let mut j: usize = 0;
                assert(edges_before(nodes, m, k as int, 0) =~= edges_before(nodes, m, k as int, j as int));
                while j < node.dependencies.len()
                    invariant
                        k < visible_nodes.len(),
                        j <= node.dependencies.len(),
                        *node == nodes[k as int],
                        nodes == derefs(visible_nodes@),
                        m == text_map_view(*node_ids),
                        pids == node_pids(nodes),
                        m.dom().contains(node.package_id@),
                        m[node.package_id@] == from_id@,
                        visible_package_ids@.to_set() == pids.to_set(),
                        edges@.to_set() == edges_before(nodes, m, k as int, j as int),
                    decreases node.dependencies.len() - j,
                {
                    let dependency = &node.dependencies[j];
                    let ghost before = edges@.to_set();
                    let ghost step = edge_of(nodes, m, k as int, j as int);
                    let ghost after = match step {
                        Some(e) => before.insert(e),
                        None => before,
                    };
                    proof {
                        assert(edges_before(nodes, m, k as int, j + 1) =~= after) by {
                            assert forall|e: (Seq<char>, Seq<char>)| #[trigger] edges_before(nodes, m, k as int, j + 1).contains(e)
                                implies after.contains(e) by {
                                let (k2, j2) = choose|k2: int, j2: int|
                                    0 <= k2 < nodes.len() && 0 <= j2 < nodes[k2].dependencies@.len() && (k2 < k || (k2
                                        == k && j2 < j + 1)) && #[trigger] edge_of(nodes, m, k2, j2) == Some(e);
                                if !(k2 == k && j2 == j) {
                                    assert(edges_before(nodes, m, k as int, j as int).contains(e));
                                }
                            }
                            assert forall|e: (Seq<char>, Seq<char>)| #[trigger] after.contains(e)
                                implies edges_before(nodes, m, k as int, j + 1).contains(e) by {
                                if before.contains(e) {
                                    let (k2, j2) = choose|k2: int, j2: int|
                                        0 <= k2 < nodes.len() && 0 <= j2 < nodes[k2].dependencies@.len() && (k2 < k
                                            || (k2 == k && j2 < j)) && #[trigger] edge_of(nodes, m, k2, j2) == Some(e);
                                    assert(edge_of(nodes, m, k2, j2) == Some(e));
                                } else {
                                    assert(edge_of(nodes, m, k as int, j as int) == Some(e));
                                }
                            }
                        }
                    }
                    let visible = visible_package_ids.contains(dependency.as_str());
                    proof {
                        assert(visible_package_ids@.to_set().contains(dependency@) == visible_package_ids@.contains(dependency@));
                        assert(pids.to_set().contains(dependency@) == pids.contains(dependency@));
                        assert(nodes[k as int].dependencies@[j as int] == *dependency);
                    }
                    if visible {
                        match node_ids.get(dependency.as_str()) {
                            Some(to_id) => {
                                edges.insert(GraphEdge { from_id: from_id.clone(), to_id: to_id.clone() });
                                proof {
                                    assert(m.dom().contains(dependency@));
                                    assert(m[dependency@] == to_id@);
                                    assert(step == Some((from_id@, to_id@)));
                                }
                            },
                            None => {
                                proof {
                                    assert(!m.dom().contains(dependency@));
                                }
                            },
                        }
                    }
                    j = j + 1;
                }
            },
            None => {
                proof {
                    assert(!m.dom().contains(node.package_id@));
                    assert(edges_before(nodes, m, k as int, nk as int) =~= edges_before(nodes, m, k as int, 0)) by {
                        assert forall|e: (Seq<char>, Seq<char>)| #[trigger] edges_before(nodes, m, k as int, nk as int).contains(e)
                            implies edges_before(nodes, m, k as int, 0).contains(e) by {
                            let (k2, j2) = choose|k2: int, j2: int|
                                0 <= k2 < nodes.len() && 0 <= j2 < nodes[k2].dependencies@.len() && (k2 < k || (k2
                                    == k && j2 < nk)) && #[trigger] edge_of(nodes, m, k2, j2) == Some(e);
                            assert(edge_of(nodes, m, k2, j2) == Some(e));
                            assert(k2 != k);
                        }
                    }
                }
            },
        }
        k = k + 1;
    }
    let r = edges.into_vec();
    proof {
        let q = edge_views(r@);
        assert(edges_sorted(q) && q.to_set() == edge_set(nodes, m));
        let c = sorted_edges(nodes, m);
        lemma_edges_sorted_unique(q, c);
    }
    r
}

/// The DOT statement of one node.
pub open spec fn dot_node_line(n: FeatureNode, m: Map<Seq<char>, Seq<char>>) -> Seq<char> {
    "  \""@ + dot_escaped(m[n.package_id@]) + "\" [label=\""@ + dot_escaped(label(n)) + "\"];\n"@
}

/// The DOT statement of one edge.
pub open spec fn dot_edge_line(e: (Seq<char>, Seq<char>)) -> Seq<char> {
    "  \""@ + dot_escaped(e.0) + "\" -> \""@ + dot_escaped(e.1) + "\";\n"@
}

/// The DOT export of the nodes whose crate name passes the filter.
pub open spec fn dot_text(g: &FeatureGraph, filter: Option<Seq<char>>) -> Seq<char> {
    let nodes = visible(g, filter);
    let m = id_map(nodes, "crate"@);
    "digraph feature_lens {\n"@ + concat_all(nodes.map_values(|n: FeatureNode| dot_node_line(n, m)))
        + concat_all(sorted_edges(nodes, m).map_values(|e: (Seq<char>, Seq<char>)| dot_edge_line(e)))
        + "}\n"@
}

/// The Mermaid line of one node.
pub open spec fn mermaid_node_line(n: FeatureNode, m: Map<Seq<char>, Seq<char>>) -> Seq<char> {
    "  "@ + m[n.package_id@] + "[\""@ + mermaid_escaped(label(n)) + "\"]\n"@
}

/// The Mermaid line of one edge.
pub open spec fn mermaid_edge_line(e: (Seq<char>, Seq<char>)) -> Seq<char> {
    "  "@ + e.0 + " --> "@ + e.1 + "\n"@
}

/// The Mermaid export of the nodes whose crate name passes the filter.
pub open spec fn mermaid_text(g: &FeatureGraph, filter: Option<Seq<char>>) -> Seq<char> {
    let nodes = visible(g, filter);
    let m = id_map(nodes, "crate"@);
    "graph TD\n"@ + concat_all(nodes.map_values(|n: FeatureNode| mermaid_node_line(n, m))) + concat_all(
        sorted_edges(nodes, m).map_values(|e: (Seq<char>, Seq<char>)| mermaid_edge_line(e)),
    )
}

/// The identifier map of a graph's visible nodes has every visible package ID.
proof fn lemma_ids_present(nodes: Seq<FeatureNode>, m: Map<Seq<char>, Seq<char>>, k: int)
    requires
        m == id_map(nodes, "crate"@),
        0 <= k < nodes.len(),
    ensures
        m.dom().contains(nodes[k].package_id@),
{
    lemma_id_map_keys(nodes, "crate"@);
}

/// Render the resolved dependency graph as Graphviz DOT.
pub fn render_dot(graph: &FeatureGraph, crate_filter: Option<&str>) -> (r: String)
    ensures
        r@ == dot_text(graph, opt_view(crate_filter)),
{
    let visible_nodes = visible_nodes(graph, crate_filter);
    let ghost nodes = derefs(visible_nodes@);
    let node_ids = stable_node_ids(&visible_nodes, "crate");
    let ghost m = text_map_view(node_ids);
    let edges = dependency_edges(&visible_nodes, &node_ids);
    let ghost node_line = |n: FeatureNode| dot_node_line(n, m);
    let mut body = String::new();
    let mut i: usize = 0;
    assert(nodes.take(0).map_values(node_line) =~= Seq::<Seq<char>>::empty());
    while i < visible_nodes.len()
        invariant
            i <= visible_nodes.len(),
            nodes == derefs(visible_nodes@),
            m == text_map_view(node_ids),
            m == id_map(nodes, "crate"@),
            node_line == (|n: FeatureNode| dot_node_line(n, m)),
            body@ == concat_all(nodes.take(i as int).map_values(node_line)),
        decreases visible_nodes.len() - i,
    {
        let node = visible_nodes[i];
        proof {
            lemma_ids_present(nodes, m, i as int);
        }
        match node_ids.get(node.package_id.as_str()) {
            Some(id) => {
                push_str(&mut body, "  \"");
                push_str(&mut body, dot_escape(id.as_str()).as_str());
                push_str(&mut body, "\" [label=\"");
                push_str(&mut body, dot_escape(node_label(node).as_str()).as_str());
                push_str(&mut body, "\"];\n");
            },
            None => {
                proof {
                    assert(false);
                }
            },
        }
        proof {
            lemma_concat_step(nodes, node_line, i as int);
        }
        assert(body@ =~= concat_all(nodes.take(i + 1).map_values(node_line)));
        i = i + 1;
    }
    assert(nodes.take(visible_nodes.len() as int) =~= nodes);
    let ghost es = edge_views(edges@);
    let ghost edge_line = |e: (Seq<char>, Seq<char>)| dot_edge_line(e);
    let mut tail = String::new();
    let mut j: usize = 0;
    assert(es.take(0).map_values(edge_line) =~= Seq::<Seq<char>>::empty());
    while j < edges.len()
        invariant
            j <= edges.len(),
            es == edge_views(edges@),
            edge_line == (|e: (Seq<char>, Seq<char>)| dot_edge_line(e)),
            tail@ == concat_all(es.take(j as int).map_values(edge_line)),
        decreases edges.len() - j,
    {
        let edge = &edges[j];
        push_str(&mut tail, "  \"");
        push_str(&mut tail, dot_escape(edge.from_id.as_str()).as_str());
        push_str(&mut tail, "\" -> \"");
        push_str(&mut tail, dot_escape(edge.to_id.as_str()).as_str());
        push_str(&mut tail, "\";\n");
        proof {
            lemma_concat_step(es, edge_line, j as int);
        }
        assert(tail@ =~= concat_all(es.take(j + 1).map_values(edge_line)));
        j = j + 1;
    }
    assert(es.take(edges.len() as int) =~= es);
    let mut output = String::new();
    push_str(&mut output, "digraph feature_lens {\n");
    push_str(&mut output, body.as_str());
    push_str(&mut output, tail.as_str());
    push_str(&mut output, "}\n");
    assert(output@ =~= dot_text(graph, opt_view(crate_filter)));
    output
}

/// Render the resolved dependency graph as Markdown-friendly Mermaid syntax.
pub fn render_mermaid(graph: &FeatureGraph, crate_filter: Option<&str>) -> (r: String)
    ensures
        r@ == mermaid_text(graph, opt_view(crate_filter)),
{
    let visible_nodes = visible_nodes(graph, crate_filter);
    let ghost nodes = derefs(visible_nodes@);
    let node_ids = stable_node_ids(&visible_nodes, "crate");
    let ghost m = text_map_view(node_ids);
    let edges = dependency_edges(&visible_nodes, &node_ids);
    let ghost node_line = |n: FeatureNode| mermaid_node_line(n, m);
    let mut body = String::new();
    let mut i: usize = 0;
    assert(nodes.take(0).map_values(node_line) =~= Seq::<Seq<char>>::empty());
    while i < visible_nodes.len()
        invariant
            i <= visible_nodes.len(),
            nodes == derefs(visible_nodes@),
            m == text_map_view(node_ids),
            m == id_map(nodes, "crate"@),
            node_line == (|n: FeatureNode| mermaid_node_line(n, m)),
            body@ == concat_all(nodes.take(i as int).map_values(node_line)),
        decreases visible_nodes.len() - i,
    {
        let node = visible_nodes[i];
        proof {
            lemma_ids_present(nodes, m, i as int);
        }
        match node_ids.get(node.package_id.as_str()) {
            Some(id) => {
                push_str(&mut body, "  ");
                push_str(&mut body, id.as_str());
                push_str(&mut body, "[\"");
                push_str(&mut body, mermaid_label_escape(node_label(node).as_str()).as_str());
                push_str(&mut body, "\"]\n");
            },
            None => {
                proof {
                    assert(false);
                }
            },
        }
        proof {
            lemma_concat_step(nodes, node_line, i as int);
        }
        assert(body@ =~= concat_all(nodes.take(i + 1).map_values(node_line)));
        i = i + 1;
    }
    assert(nodes.take(visible_nodes.len() as int) =~= nodes);
    let ghost es = edge_views(edges@);
    let ghost edge_line = |e: (Seq<char>, Seq<char>)| mermaid_edge_line(e);
    let mut tail = String::new();
    let mut j: usize = 0;
    assert(es.take(0).map_values(edge_line) =~= Seq::<Seq<char>>::empty());
    while j < edges.len()
        invariant
            j <= edges.len(),
            es == edge_views(edges@),
            edge_line == (|e: (Seq<char>, Seq<char>)| mermaid_edge_line(e)),
            tail@ == concat_all(es.take(j as int).map_values(edge_line)),
        decreases edges.len() - j,
    {
        let edge = &edges[j];
        push_str(&mut tail, "  ");
        push_str(&mut tail, edge.from_id.as_str());
        push_str(&mut tail, " --> ");
        push_str(&mut tail, edge.to_id.as_str());
        push_str(&mut tail, "\n");
        proof {
            lemma_concat_step(es, edge_line, j as int);
        }
        assert(tail@ =~= concat_all(es.take(j + 1).map_values(edge_line)));
        j = j + 1;
    }
    assert(es.take(edges.len() as int) =~= es);
    let mut output = String::new();
    push_str(&mut output, "graph TD\n");
    push_str(&mut output, body.as_str());
    push_str(&mut output, tail.as_str());
    assert(output@ =~= mermaid_text(graph, opt_view(crate_filter)));
    output
}

/// Every edge of an export joins two exported nodes: both ends are the
/// identifiers of visible package IDs, so dependencies outside the export
/// are left out.
pub proof fn lemma_edges_join_exported_nodes(
    nodes: Seq<FeatureNode>,
    m: Map<Seq<char>, Seq<char>>,
    e: (Seq<char>, Seq<char>),
)
    requires
        edge_set(nodes, m).contains(e),
    ensures
        exists|a: int, b: int|
            0 <= a < nodes.len() && 0 <= b < nodes.len() && m.dom().contains(nodes[a].package_id@)
                && m.dom().contains(nodes[b].package_id@) && e == (
                #[trigger] m[nodes[a].package_id@],
                #[trigger] m[nodes[b].package_id@],
            ),
{
    let (k, j) = choose|k: int, j: int|
        0 <= k < nodes.len() && 0 <= j < nodes[k].dependencies@.len() && (k < nodes.len() || (k
            == nodes.len() && j < 0)) && #[trigger] edge_of(nodes, m, k, j) == Some(e);
    let to = nodes[k].dependencies@[j]@;
    let pids = node_pids(nodes);
    let b = choose|b: int| 0 <= b < pids.len() && pids[b] == to;
    assert(nodes[b].package_id@ == to);
    assert(m[nodes[k].package_id@] == e.0);
    assert(m[nodes[b].package_id@] == e.1);
}

} // verus!
