//! The order of a report: by crate name, then by the printed name of the
//! finding kind, then by feature (no feature first), keeping the order in
//! which the passes produced findings that agree on all three.
use vstd::prelude::*;
use vstd::multiset::Multiset;

use crate::analysis::{finding_views, kind_debug_name, kind_name, Finding, FindingView};
use crate::collections::{compare_str, lemma_lt_asym, lemma_lt_irreflexive, lemma_lt_total, lemma_lt_trans, seq_lt, Order3};

verus! {

/// `a` sorts before `b`: `None` before any text, texts in `seq_lt` order.
pub open spec fn opt_lt(a: Option<Seq<char>>, b: Option<Seq<char>>) -> bool {
    match (a, b) {
        (None, Some(_)) => true,
        (Some(x), Some(y)) => seq_lt(x, y),
        _ => false,
    }
}

/// Finding `a` sorts strictly before finding `b`.
pub open spec fn finding_lt(a: FindingView, b: FindingView) -> bool {
    seq_lt(a.crate_name, b.crate_name) || (a.crate_name == b.crate_name && (seq_lt(
        kind_name(a.kind),
        kind_name(b.kind),
    ) || (kind_name(a.kind) == kind_name(b.kind) && opt_lt(a.feature, b.feature))))
}

/// Inserts `x` into `s` after every element that does not sort after it.
pub open spec fn insert_sorted(s: Seq<FindingView>, x: FindingView) -> Seq<FindingView>
    decreases s.len(),
{
    if s.len() == 0 {
        seq![x]
    } else if finding_lt(x, s.last()) {
        insert_sorted(s.drop_last(), x).push(s.last())
    } else {
        s.push(x)
    }
}

/// The stable sort of `s` by the report order.
pub open spec fn report_order(s: Seq<FindingView>) -> Seq<FindingView>
    decreases s.len(),
{
    if s.len() == 0 {
        Seq::empty()
    } else {
        insert_sorted(report_order(s.drop_last()), s.last())
    }
}

/// No element sorts before an earlier one.
pub open spec fn in_report_order(s: Seq<FindingView>) -> bool {
    forall|i: int, j: int| 0 <= i < j < s.len() ==> !finding_lt(#[trigger] s[j], #[trigger] s[i])
}

proof fn lemma_trans(a: Seq<char>, b: Seq<char>, c: Seq<char>)
    ensures
        seq_lt(a, b) && seq_lt(b, c) ==> seq_lt(a, c),
{
    if seq_lt(a, b) && seq_lt(b, c) {
        lemma_lt_trans(a, b, c);
    }
}

proof fn lemma_opt_lt_order(a: Option<Seq<char>>, b: Option<Seq<char>>, c: Option<Seq<char>>)
    ensures
        !opt_lt(a, a),
        opt_lt(a, b) ==> !opt_lt(b, a),
        opt_lt(a, b) && opt_lt(b, c) ==> opt_lt(a, c),
        a != b ==> opt_lt(a, b) || opt_lt(b, a),
{
    if let Some(x) = a {
        lemma_lt_irreflexive(x);
        if let Some(y) = b {
            lemma_lt_asym(x, y);
            lemma_lt_total(x, y);
            if let Some(z) = c {
                lemma_trans(x, y, z);
            }
        }
    }
}

proof fn lemma_finding_lt_trans(a: FindingView, b: FindingView, c: FindingView)
    ensures
        finding_lt(a, b) && finding_lt(b, c) ==> finding_lt(a, c),
{
    lemma_lt_irreflexive(a.crate_name);
    lemma_lt_irreflexive(kind_name(a.kind));
    lemma_trans(a.crate_name, b.crate_name, c.crate_name);
    lemma_trans(kind_name(a.kind), kind_name(b.kind), kind_name(c.kind));
    lemma_opt_lt_order(a.feature, b.feature, c.feature);
}

/// `finding_lt` is a strict weak order: irreflexive, asymmetric, transitive,
/// and transitive in its complement.
pub proof fn lemma_finding_lt_order(a: FindingView, b: FindingView, c: FindingView)
    ensures
        !finding_lt(a, a),
        finding_lt(a, b) ==> !finding_lt(b, a),
        finding_lt(a, b) && finding_lt(b, c) ==> finding_lt(a, c),
        !finding_lt(a, b) && !finding_lt(b, c) ==> !finding_lt(a, c),
{
    lemma_lt_irreflexive(a.crate_name);
    lemma_lt_irreflexive(kind_name(a.kind));
    lemma_lt_asym(a.crate_name, b.crate_name);
    lemma_lt_asym(kind_name(a.kind), kind_name(b.kind));
    lemma_opt_lt_order(a.feature, b.feature, c.feature);
    lemma_finding_lt_trans(a, b, c);
    lemma_finding_lt_trans(b, a, c);
    lemma_finding_lt_trans(a, c, b);
    lemma_finding_lt_total(a, b);
    lemma_finding_lt_total(b, c);
}

/// Two findings that neither sorts before agree on crate, kind name and feature.
proof fn lemma_finding_lt_total(a: FindingView, b: FindingView)
    ensures
        !finding_lt(a, b) && !finding_lt(b, a) ==> a.crate_name == b.crate_name && kind_name(a.kind)
            == kind_name(b.kind) && a.feature == b.feature,
{
    lemma_lt_total(a.crate_name, b.crate_name);
    lemma_lt_total(kind_name(a.kind), kind_name(b.kind));
    lemma_opt_lt_order(a.feature, b.feature, a.feature);
}

proof fn lemma_insert_sorted(s: Seq<FindingView>, x: FindingView)
    requires
        in_report_order(s),
    ensures
        in_report_order(insert_sorted(s, x)),
        insert_sorted(s, x).to_multiset() == s.to_multiset().insert(x),
        insert_sorted(s, x).len() == s.len() + 1,
        forall|k: int| 0 <= k < insert_sorted(s, x).len() ==> (#[trigger] insert_sorted(s, x)[k] == x
            || s.contains(insert_sorted(s, x)[k])),
    decreases s.len(),
{
    broadcast use vstd::multiset::group_multiset_axioms;
    broadcast use vstd::seq_lib::group_to_multiset_ensures;

    if s.len() == 0 {
        assert(seq![x] =~= Seq::<FindingView>::empty().push(x));
        assert(Seq::<FindingView>::empty().to_multiset() =~= Multiset::empty());
    } else if finding_lt(x, s.last()) {
        let p = s.drop_last();
        assert(in_report_order(p));
        lemma_insert_sorted(p, x);
        let q = insert_sorted(p, x);
        let r = q.push(s.last());
        assert(s =~= p.push(s.last()));
        assert forall|i: int, j: int| 0 <= i < j < r.len() implies !finding_lt(#[trigger] r[j], #[trigger] r[i]) by {
            if j == r.len() - 1 {
                let y = q[i];
                lemma_finding_lt_order(s.last(), y, x);
                if y != x {
                    let m = choose|m: int| 0 <= m < p.len() && p[m] == y;
                    assert(s[m] == y);
                    assert(!finding_lt(s[s.len() - 1], s[m]));
                }
            }
        }
        assert(r.to_multiset() == q.to_multiset().insert(s.last()));
        assert(s.to_multiset() == p.to_multiset().insert(s.last()));
        assert(r.to_multiset() =~= s.to_multiset().insert(x));
        assert forall|k: int| 0 <= k < r.len() implies (#[trigger] r[k] == x || s.contains(r[k])) by {
            if k < q.len() {
                if q[k] != x {
                    let m = choose|m: int| 0 <= m < p.len() && p[m] == q[k];
                    assert(s[m] == q[k]);
                }
            } else {
                assert(s[s.len() - 1] == r[k]);
            }
        }
    } else {
        let r = s.push(x);
        assert forall|i: int, j: int| 0 <= i < j < r.len() implies !finding_lt(#[trigger] r[j], #[trigger] r[i]) by {
            if j == r.len() - 1 && i < s.len() - 1 {
                lemma_finding_lt_order(x, s.last(), s[i]);
                assert(!finding_lt(s[s.len() - 1], s[i]));
            }
        }
        assert forall|k: int| 0 <= k < r.len() implies (#[trigger] r[k] == x || s.contains(r[k])) by {
            if k < s.len() {
                assert(s[k] == r[k]);
            }
        }
    }
}

/// The report order sorts: no finding stands before one that sorts before it.
pub proof fn lemma_report_order_sorted(s: Seq<FindingView>)
    ensures
        in_report_order(report_order(s)),
        report_order(s).len() == s.len(),
    decreases s.len(),
{
    if s.len() > 0 {
        lemma_report_order_sorted(s.drop_last());
        lemma_insert_sorted(report_order(s.drop_last()), s.last());
    }
}

/// The report order keeps every finding: it is a permutation.
pub proof fn lemma_report_order_permutes(s: Seq<FindingView>)
    ensures
        report_order(s).to_multiset() == s.to_multiset(),
    decreases s.len(),
{
    broadcast use vstd::seq_lib::group_to_multiset_ensures;

    if s.len() == 0 {
        assert(report_order(s).to_multiset() =~= s.to_multiset());
    } else {
        lemma_report_order_permutes(s.drop_last());
        lemma_report_order_sorted(s.drop_last());
        lemma_insert_sorted(report_order(s.drop_last()), s.last());
        assert(s =~= s.drop_last().push(s.last()));
    }
}

/// Whether finding `a` sorts strictly before finding `b`.
pub fn finding_less(a: &Finding, b: &Finding) -> (r: bool)
    ensures
        r == finding_lt(a@, b@),
{
    match compare_str(a.crate_name.as_str(), b.crate_name.as_str()) {
        Order3::Less => true,
        Order3::Greater => {
            proof {
                lemma_lt_asym(b@.crate_name, a@.crate_name);
            }
            false
        },
        Order3::Equal => {
            match compare_str(kind_debug_name(a.kind), kind_debug_name(b.kind)) {
                Order3::Less => true,
                Order3::Greater => {
                    proof {
                        lemma_lt_asym(kind_name(b.kind), kind_name(a.kind));
                        lemma_lt_irreflexive(a@.crate_name);
                    }
                    false
                },
                Order3::Equal => {
                    proof {
                        lemma_lt_irreflexive(a@.crate_name);
                        lemma_lt_irreflexive(kind_name(a.kind));
                    }
                    match (&a.feature, &b.feature) {
                        (None, Some(_)) => true,
                        (Some(x), Some(y)) => {
                            let o = compare_str(x.as_str(), y.as_str());
                            o == Order3::Less
                        },
                        _ => false,
                    }
                },
            }
        },
    }
}

/// Sorts findings into report order; findings that agree on crate, kind and
/// feature keep their order.
pub fn sort_findings(findings: Vec<Finding>) -> (r: Vec<Finding>)
    ensures
        finding_views(r@) == report_order(finding_views(findings@)),
{
    let ghost all = finding_views(findings@);
    let n = findings.len();
    let mut out: Vec<Finding> = Vec::new();
    let mut i: usize = 0;
    proof {
        assert(all.take(0) =~= Seq::<FindingView>::empty());
        assert(finding_views(out@) =~= Seq::<FindingView>::empty());
    }
    while i < n
        invariant
            i <= n,
            n == findings.len(),
            all == finding_views(findings@),
            finding_views(out@) == report_order(all.take(i as int)),
        decreases n - i,
    {
        let x = findings[i].clone();
        let ghost s = finding_views(out@);
        let ghost xv = x@;
        proof {
            assert(xv == all[i as int]);
            assert(all.take(i + 1).drop_last() =~= all.take(i as int));
            assert(all.take(i + 1).last() == xv);
        }
        let mut j = out.len();
        proof {
            assert(s.take(j as int) =~= s);
            assert(s.skip(j as int) =~= Seq::<FindingView>::empty());
            assert(insert_sorted(s, xv) =~= insert_sorted(s.take(j as int), xv) + s.skip(j as int));
        }
        while j > 0 && finding_less(&x, &out[j - 1])
            invariant
                j <= out.len(),
                s == finding_views(out@),
                xv == x@,
                insert_sorted(s, xv) == insert_sorted(s.take(j as int), xv) + s.skip(j as int),
            decreases j,
        {
            proof {
                let t = s.take(j as int);
                assert(t.drop_last() =~= s.take(j - 1));
                assert(t.last() == s[j - 1]);
                assert(s.skip(j - 1) =~= seq![s[j - 1]] + s.skip(j as int));
                assert(insert_sorted(t, xv) == insert_sorted(s.take(j - 1), xv).push(s[j - 1]));
                assert(insert_sorted(s.take(j - 1), xv).push(s[j - 1]) + s.skip(j as int)
                    =~= insert_sorted(s.take(j - 1), xv) + s.skip(j - 1));
            }
            j = j - 1;
        }
        proof {
            let t = s.take(j as int);
            if j == 0 {
                assert(insert_sorted(t, xv) =~= t.push(xv));
            } else {
                assert(t.last() == s[j - 1]);
                assert(insert_sorted(t, xv) == t.push(xv));
            }
        }
        out.insert(j, x);
        proof {
            assert(finding_views(out@) =~= s.take(j as int).push(xv) + s.skip(j as int));
        }
        i = i + 1;
    }
    proof {
        assert(all.take(n as int) =~= all);
    }
    out
}

} // verus!
