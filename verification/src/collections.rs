//! Ordered string sets and string-keyed maps.
//!
//! Both keep their strings strictly increasing in the order of `str`'s `Ord`
//! (code point by code point), so that walking them visits keys in sorted
//! order and no key occurs twice.
use vstd::prelude::*;

use crate::text::{chars_of, views};

verus! {

/// Lexicographic order on texts, comparing characters by code point: the
/// order of `str`'s `Ord`.
pub open spec fn seq_lt(a: Seq<char>, b: Seq<char>) -> bool
    decreases a.len(),
{
    if a.len() == 0 {
        b.len() > 0
    } else if b.len() == 0 {
        false
    } else if a[0] != b[0] {
        a[0] < b[0]
    } else {
        seq_lt(a.drop_first(), b.drop_first())
    }
}

/// Strictly increasing in `seq_lt`.
pub open spec fn sorted_strict(s: Seq<Seq<char>>) -> bool {
    forall|i: int, j: int| 0 <= i < j < s.len() ==> seq_lt(#[trigger] s[i], #[trigger] s[j])
}

pub proof fn lemma_lt_irreflexive(a: Seq<char>)
    ensures
        !seq_lt(a, a),
    decreases a.len(),
{
    if a.len() > 0 {
        lemma_lt_irreflexive(a.drop_first());
    }
}

pub proof fn lemma_lt_asym(a: Seq<char>, b: Seq<char>)
    ensures
        !(seq_lt(a, b) && seq_lt(b, a)),
    decreases a.len(),
{
    if a.len() > 0 && b.len() > 0 && a[0] == b[0] {
        lemma_lt_asym(a.drop_first(), b.drop_first());
    }
}

pub proof fn lemma_lt_trans(a: Seq<char>, b: Seq<char>, c: Seq<char>)
    requires
        seq_lt(a, b),
        seq_lt(b, c),
    ensures
        seq_lt(a, c),
    decreases a.len(),
{
    if a.len() > 0 && b.len() > 0 && c.len() > 0 && a[0] == b[0] && b[0] == c[0] {
        lemma_lt_trans(a.drop_first(), b.drop_first(), c.drop_first());
    }
}

pub proof fn lemma_lt_total(a: Seq<char>, b: Seq<char>)
    ensures
        a != b ==> seq_lt(a, b) || seq_lt(b, a),
    decreases a.len(),
{
    if a.len() > 0 && b.len() > 0 && a[0] == b[0] {
        lemma_lt_total(a.drop_first(), b.drop_first());
        if a.drop_first() == b.drop_first() {
            assert(a =~= seq![a[0]] + a.drop_first());
            assert(b =~= seq![b[0]] + b.drop_first());
        }
    } else if a.len() == 0 && b.len() == 0 {
        assert(a =~= b);
    }
}

/// Two strictly increasing sequences with the same elements are equal.
pub proof fn lemma_sorted_unique(s: Seq<Seq<char>>, t: Seq<Seq<char>>)
    requires
        sorted_strict(s),
        sorted_strict(t),
        s.to_set() == t.to_set(),
    ensures
        s == t,
    decreases s.len(),
{
    if s.len() == 0 {
        if t.len() > 0 {
            assert(t.to_set().contains(t[0]));
        }
        assert(s =~= t);
    } else if t.len() == 0 {
        assert(s.to_set().contains(s[0]));
    } else {
        // the least elements agree
        assert(s.to_set().contains(s[0]));
        assert(t.to_set().contains(t[0]));
        let i = choose|i: int| 0 <= i < t.len() && t[i] == s[0];
        let j = choose|j: int| 0 <= j < s.len() && s[j] == t[0];
        if i > 0 {
            assert(seq_lt(t[0], t[i]));
            if j > 0 {
                assert(seq_lt(s[0], s[j]));
                lemma_lt_asym(s[0], t[0]);
            } else {
                lemma_lt_irreflexive(t[0]);
            }
        }
        assert(s[0] == t[0]);
        let s2 = s.drop_first();
        let t2 = t.drop_first();
        assert forall|x: Seq<char>| s2.to_set().contains(x) implies t2.to_set().contains(x) by {
            let k = choose|k: int| 0 <= k < s2.len() && s2[k] == x;
            assert(s.to_set().contains(x));
            let m = choose|m: int| 0 <= m < t.len() && t[m] == x;
            assert(seq_lt(s[0], s[k + 1]));
            if m == 0 {
                lemma_lt_irreflexive(x);
            }
            assert(t2[m - 1] == x);
        }
        assert forall|x: Seq<char>| t2.to_set().contains(x) implies s2.to_set().contains(x) by {
            let k = choose|k: int| 0 <= k < t2.len() && t2[k] == x;
            assert(t.to_set().contains(x));
            let m = choose|m: int| 0 <= m < s.len() && s[m] == x;
            assert(seq_lt(t[0], t[k + 1]));
            if m == 0 {
                lemma_lt_irreflexive(x);
            }
            assert(s2[m - 1] == x);
        }
        assert(s2.to_set() =~= t2.to_set());
        lemma_sorted_unique(s2, t2);
        assert(s =~= seq![s[0]] + s2);
        assert(t =~= seq![t[0]] + t2);
    }
}

pub proof fn lemma_sorted_no_duplicates(s: Seq<Seq<char>>)
    requires
        sorted_strict(s),
    ensures
        s.no_duplicates(),
{
    assert forall|i: int, j: int| 0 <= i < s.len() && 0 <= j < s.len() && i != j implies s[i]
        != s[j] by {
        if i < j {
            assert(seq_lt(s[i], s[j]));
            lemma_lt_irreflexive(s[i]);
        } else {
            assert(seq_lt(s[j], s[i]));
            lemma_lt_irreflexive(s[j]);
        }
    }
}

/// Result of a three-way comparison.
#[derive(PartialEq, Eq, Structural, Clone, Copy, Debug)]
pub enum Order3 {
    Less,
    Equal,
    Greater,
}

/// Compares two texts in `seq_lt` order.
pub fn compare_chars(a: &Vec<char>, b: &Vec<char>) -> (r: Order3)
    ensures
        r == Order3::Less <==> seq_lt(a@, b@),
        r == Order3::Equal <==> a@ == b@,
        r == Order3::Greater <==> seq_lt(b@, a@),
{
    let mut i: usize = 0;
    while i < a.len() && i < b.len() && a[i] == b[i]
        invariant
            i <= a.len(),
            i <= b.len(),
            a@.take(i as int) == b@.take(i as int),
        decreases a.len() - i,
    {
        assert(a@.take(i + 1) == a@.take(i as int).push(a@[i as int]));
        assert(b@.take(i + 1) == b@.take(i as int).push(b@[i as int]));
        i = i + 1;
    }
    proof {
        lemma_lt_prefix(a@, b@, i as int);
        lemma_lt_irreflexive(a@);
        lemma_lt_asym(a@, b@);
    }
    if i == a.len() && i == b.len() {
        assert(a@ =~= a@.take(i as int));
        assert(b@ =~= b@.take(i as int));
        Order3::Equal
    } else if i == a.len() {
        assert(a@ != b@);
        Order3::Less
    } else if i == b.len() {
        assert(a@ != b@);
        Order3::Greater
    } else if a[i] < b[i] {
        assert(a@ != b@);
        Order3::Less
    } else {
        assert(a@[i as int] != b@[i as int]);
        assert(a@ != b@);
        Order3::Greater
    }
}

/// Comparison after a common prefix of length `i`.
proof fn lemma_lt_prefix(a: Seq<char>, b: Seq<char>, i: int)
    requires
        0 <= i <= a.len(),
        i <= b.len(),
        a.take(i) == b.take(i),
    ensures
        seq_lt(a, b) == seq_lt(a.skip(i), b.skip(i)),
        seq_lt(b, a) == seq_lt(b.skip(i), a.skip(i)),
    decreases i,
{
    if i > 0 {
        assert(a[0] == a.take(i)[0]);
        assert(b[0] == b.take(i)[0]);
        assert(a.drop_first().take(i - 1) =~= a.take(i).drop_first());
        assert(b.drop_first().take(i - 1) =~= b.take(i).drop_first());
        lemma_lt_prefix(a.drop_first(), b.drop_first(), i - 1);
        assert(a.drop_first().skip(i - 1) =~= a.skip(i));
        assert(b.drop_first().skip(i - 1) =~= b.skip(i));
    } else {
        assert(a.skip(0) =~= a);
        assert(b.skip(0) =~= b);
    }
}

/// Compares two strings in `seq_lt` order.
pub fn compare_str(a: &str, b: &str) -> (r: Order3)
    ensures
        r == Order3::Less <==> seq_lt(a@, b@),
        r == Order3::Equal <==> a@ == b@,
        r == Order3::Greater <==> seq_lt(b@, a@),
{
    let av = chars_of(a);
    let bv = chars_of(b);
    compare_chars(&av, &bv)
}

/// Whether two strings hold the same text.
pub fn str_eq(a: &str, b: &str) -> (r: bool)
    ensures
        r == (a@ == b@),
{
    compare_str(a, b) == Order3::Equal
}

/// A set of strings, kept sorted (the model of a `BTreeSet<String>`).
#[derive(Debug)]
pub struct StrSet {
    items: Vec<String>,
}

impl View for StrSet {
    type V = Seq<Seq<char>>;

    closed spec fn view(&self) -> Seq<Seq<char>> {
        views(self.items@)
    }
}

impl StrSet {
    #[verifier::type_invariant]
    spec fn inv(self) -> bool {
        sorted_strict(views(self.items@))
    }

    /// The set's strings, in increasing order.
    pub fn sorted_ensures(&self)
        ensures
            sorted_strict(self@),
            self@.no_duplicates(),
    {
        proof {
            use_type_invariant(self);
            lemma_sorted_no_duplicates(self@);
        }
    }

    pub fn new() -> (r: Self)
        ensures
            r@ == Seq::<Seq<char>>::empty(),
    {
        let r = StrSet { items: Vec::new() };
        assert(views(r.items@) =~= Seq::<Seq<char>>::empty());
        r
    }

    pub fn len(&self) -> (r: usize)
        ensures
            r == self@.len(),
    {
        self.items.len()
    }

    pub fn is_empty(&self) -> (r: bool)
        ensures
            r == (self@.len() == 0),
    {
        self.items.len() == 0
    }

    /// The `i`-th string in increasing order.
    pub fn get(&self, i: usize) -> (r: &String)
        requires
            i < self@.len(),
        ensures
            r@ == self@[i as int],
    {
        &self.items[i]
    }

    /// Position at which `x` stands or would stand.
    fn position(&self, x: &Vec<char>) -> (r: (usize, bool))
        ensures
            r.0 <= self@.len(),
            forall|k: int| 0 <= k < r.0 ==> seq_lt(#[trigger] self@[k], x@),
            r.1 ==> r.0 < self@.len() && self@[r.0 as int] == x@,
            !r.1 ==> forall|k: int| r.0 <= k < self@.len() ==> seq_lt(x@, #[trigger] self@[k]),
    {
        proof {
            use_type_invariant(self);
        }
        let mut i: usize = 0;
        while i < self.items.len()
            invariant
                i <= self.items.len(),
                sorted_strict(self@),
                self@ == views(self.items@),
                forall|k: int| 0 <= k < i ==> seq_lt(#[trigger] self@[k], x@),
            decreases self.items.len() - i,
        {
            let c = chars_of(self.items[i].as_str());
            match compare_chars(&c, x) {
                Order3::Less => {
                    i = i + 1;
                },
                Order3::Equal => {
                    return (i, true);
                },
                Order3::Greater => {
                    assert forall|k: int| i <= k < self@.len() implies seq_lt(
                        x@,
                        #[trigger] self@[k],
                    ) by {
                        if k > i {
                            lemma_lt_trans(x@, self@[i as int], self@[k]);
                        }
                    }
                    return (i, false);
                },
            }
        }
        (i, false)
    }

    /// Whether the set holds `x`.
    pub fn contains(&self, x: &str) -> (r: bool)
        ensures
            r == self@.contains(x@),
    {
        let xv = chars_of(x);
        let (i, found) = self.position(&xv);
        proof {
            if !found && self@.contains(x@) {
                let k = choose|k: int| 0 <= k < self@.len() && self@[k] == x@;
                lemma_lt_irreflexive(x@);
                if k < i {
                    assert(seq_lt(self@[k], x@));
                } else {
                    assert(seq_lt(x@, self@[k]));
                }
            }
        }
        found
    }

    /// Adds `x`; returns whether it was new.
    pub fn insert(&mut self, x: String) -> (r: bool)
        ensures
            r == !old(self)@.contains(x@),
            final(self)@.to_set() == old(self)@.to_set().insert(x@),
            sorted_strict(final(self)@),
    {
        proof {
            use_type_invariant(&*self);
        }
        let xv = chars_of(x.as_str());
        let (i, found) = self.position(&xv);
        let ghost old_view = self@;
        if found {
            proof {
                assert(old_view.to_set().insert(x@) =~= old_view.to_set());
            }
            return false;
        }
        proof {
            if old_view.contains(x@) {
                let k = choose|k: int| 0 <= k < old_view.len() && old_view[k] == x@;
                lemma_lt_irreflexive(x@);
                if k < i {
                    assert(seq_lt(old_view[k], x@));
                } else {
                    assert(seq_lt(x@, old_view[k]));
                }
            }
        }
        let ghost new_view = old_view.insert(i as int, x@);
        proof {
            assert forall|a: int, b: int| 0 <= a < b < new_view.len() implies seq_lt(
                #[trigger] new_view[a],
                #[trigger] new_view[b],
            ) by {
                if b < i {
                } else if a > i {
                    assert(new_view[a] == old_view[a - 1]);
                    assert(new_view[b] == old_view[b - 1]);
                } else if a == i {
                    assert(new_view[b] == old_view[b - 1]);
                } else if b == i {
                } else {
                    assert(new_view[b] == old_view[b - 1]);
                }
            }
        }
        let mut items: Vec<String> = Vec::new();
        std::mem::swap(&mut items, &mut self.items);
        items.insert(i, x);
        assert(views(items@) =~= new_view);
        self.items = items;
        proof {
            assert(self@ =~= new_view);
            assert(new_view.to_set() =~= old_view.to_set().insert(x@)) by {
                assert forall|y: Seq<char>| #[trigger] new_view.to_set().contains(y) implies old_view.to_set().insert(x@).contains(y) by {
                    let k = choose|k: int| 0 <= k < new_view.len() && new_view[k] == y;
                    if k < i {
                        assert(old_view[k] == y);
                    } else if k > i {
                        assert(old_view[k - 1] == y);
                    }
                }
                assert forall|y: Seq<char>| #[trigger] old_view.to_set().insert(x@).contains(y) implies new_view.to_set().contains(y) by {
                    if y == x@ {
                        assert(new_view[i as int] == y);
                    } else {
                        let k = choose|k: int| 0 <= k < old_view.len() && old_view[k] == y;
                        if k < i {
                            assert(new_view[k] == y);
                        } else {
                            assert(new_view[k + 1] == y);
                        }
                    }
                }
            }
        }
        true
    }

    /// The set of the given strings (as `BTreeSet::from`).
    pub fn from_vec(v: Vec<String>) -> (r: Self)
        ensures
            r@.to_set() == views(v@).to_set(),
            sorted_strict(r@),
    {
        let mut r = StrSet::new();
        let mut i: usize = 0;
        while i < v.len()
            invariant
                i <= v.len(),
                r@.to_set() == views(v@).take(i as int).to_set(),
            decreases v.len() - i,
        {
            r.insert(v[i].clone());
            proof {
                assert(views(v@).take(i + 1) =~= views(v@).take(i as int).push(v@[i as int]@));
                views(v@).take(i as int).lemma_push_to_set_commute(v@[i as int]@);
            }
            i = i + 1;
        }
        assert(views(v@).take(v.len() as int) =~= views(v@));
        r.sorted_ensures();
        r
    }

    /// Adds every string of `other`.
    pub fn extend(&mut self, other: &StrSet)
        ensures
            final(self)@.to_set() == old(self)@.to_set() + other@.to_set(),
            sorted_strict(final(self)@),
    {
        let ghost start = self@.to_set();
        let mut i: usize = 0;
        while i < other.len()
            invariant
                i <= other@.len(),
                self@.to_set() == start + other@.take(i as int).to_set(),
            decreases other@.len() - i,
        {
            let s = other.get(i).clone();
            self.insert(s);
            proof {
                assert(other@.take(i + 1) =~= other@.take(i as int).push(other@[i as int]));
                other@.take(i as int).lemma_push_to_set_commute(other@[i as int]);
                assert(self@.to_set() =~= start + other@.take(i + 1).to_set());
            }
            i = i + 1;
        }
        assert(other@.take(other@.len() as int) =~= other@);
        self.sorted_ensures();
    }

    /// The strings as a vector, in increasing order.
    pub fn to_vec(&self) -> (r: Vec<String>)
        ensures
            views(r@) == self@,
    {
        let r = self.items.clone();
        assert(views(r@) =~= views(self.items@));
        r
    }
}

impl Clone for StrSet {
    fn clone(&self) -> (r: Self)
        ensures
            r@ == self@,
    {
        proof {
            use_type_invariant(self);
        }
        let items = self.items.clone();
        assert(views(items@) =~= views(self.items@));
        StrSet { items }
    }
}

impl Default for StrSet {
    fn default() -> (r: Self)
        ensures
            r@ == Seq::<Seq<char>>::empty(),
    {
        StrSet::new()
    }
}


/// The value that `keys`/`vals` give to `k`, if any.
pub open spec fn lookup<V>(keys: Seq<Seq<char>>, vals: Seq<V>, k: Seq<char>) -> Option<V> {
    if keys.contains(k) {
        Some(vals[keys.index_of(k)])
    } else {
        None
    }
}

/// A map from strings to values, kept sorted by key (the model of a
/// `BTreeMap<String, V>`).
#[derive(Debug)]
pub struct StrMap<V> {
    keys: Vec<String>,
    vals: Vec<V>,
}

impl<V> StrMap<V> {
    #[verifier::type_invariant]
    spec fn inv(self) -> bool {
        &&& sorted_strict(views(self.keys@))
        &&& self.keys@.len() == self.vals@.len()
    }

    /// The keys, in increasing order.
    pub closed spec fn keys(&self) -> Seq<Seq<char>> {
        views(self.keys@)
    }

    /// The values, in the order of their keys.
    pub closed spec fn vals(&self) -> Seq<V> {
        self.vals@
    }

    /// The value of key `k`.
    pub open spec fn spec_get(&self, k: Seq<char>) -> Option<V> {
        lookup(self.keys(), self.vals(), k)
    }

    /// The map as a mathematical map.
    pub open spec fn as_map(&self) -> Map<Seq<char>, V> {
        Map::new(|k: Seq<char>| self.keys().contains(k), |k: Seq<char>| self.vals()[self.keys().index_of(k)])
    }

    /// Keys are increasing and there is one value per key.
    pub fn wf_ensures(&self)
        ensures
            sorted_strict(self.keys()),
            self.keys().no_duplicates(),
            self.keys().len() == self.vals().len(),
    {
        proof {
            use_type_invariant(self);
            lemma_sorted_no_duplicates(self.keys());
        }
    }

    pub fn new() -> (r: Self)
        ensures
            r.keys() == Seq::<Seq<char>>::empty(),
            r.vals() == Seq::<V>::empty(),
    {
        let r = StrMap { keys: Vec::new(), vals: Vec::new() };
        assert(views(r.keys@) =~= Seq::<Seq<char>>::empty());
        r
    }

    pub fn len(&self) -> (r: usize)
        ensures
            r == self.keys().len(),
            r == self.vals().len(),
    {
        proof {
            use_type_invariant(self);
        }
        self.keys.len()
    }

    pub fn is_empty(&self) -> (r: bool)
        ensures
            r == (self.keys().len() == 0),
    {
        self.keys.len() == 0
    }

    /// The `i`-th key in increasing order.
    pub fn key_at(&self, i: usize) -> (r: &String)
        requires
            i < self.keys().len(),
        ensures
            r@ == self.keys()[i as int],
    {
        &self.keys[i]
    }

    /// The value of the `i`-th key.
    pub fn value_at(&self, i: usize) -> (r: &V)
        requires
            i < self.keys().len(),
        ensures
            *r == self.vals()[i as int],
    {
        proof {
            use_type_invariant(self);
        }
        &self.vals[i]
    }

    /// Position at which key `x` stands or would stand.
    fn position(&self, x: &Vec<char>) -> (r: (usize, bool))
        ensures
            r.0 <= self.keys().len(),
            forall|k: int| 0 <= k < r.0 ==> seq_lt(#[trigger] self.keys()[k], x@),
            r.1 ==> r.0 < self.keys().len() && self.keys()[r.0 as int] == x@,
            !r.1 ==> forall|k: int|
                r.0 <= k < self.keys().len() ==> seq_lt(x@, #[trigger] self.keys()[k]),
    {
        proof {
            use_type_invariant(self);
        }
        let mut i: usize = 0;
        while i < self.keys.len()
            invariant
                i <= self.keys.len(),
                sorted_strict(self.keys()),
                self.keys() == views(self.keys@),
                forall|k: int| 0 <= k < i ==> seq_lt(#[trigger] self.keys()[k], x@),
            decreases self.keys.len() - i,
        {
            let c = chars_of(self.keys[i].as_str());
            match compare_chars(&c, x) {
                Order3::Less => {
                    i = i + 1;
                },
                Order3::Equal => {
                    return (i, true);
                },
                Order3::Greater => {
                    assert forall|k: int| i <= k < self.keys().len() implies seq_lt(
                        x@,
                        #[trigger] self.keys()[k],
                    ) by {
                        if k > i {
                            lemma_lt_trans(x@, self.keys()[i as int], self.keys()[k]);
                        }
                    }
                    return (i, false);
                },
            }
        }
        (i, false)
    }

    /// The position of key `k`.
    pub fn index_of(&self, k: &str) -> (r: Option<usize>)
        ensures
            r matches Some(i) ==> i < self.keys().len() && self.keys()[i as int] == k@
                && self.keys().index_of(k@) == i,
            r is None ==> !self.keys().contains(k@),
    {
        proof {
            use_type_invariant(self);
            lemma_sorted_no_duplicates(self.keys());
        }
        let kv = chars_of(k);
        let (i, found) = self.position(&kv);
        proof {
            if !found && self.keys().contains(k@) {
                let m = choose|m: int| 0 <= m < self.keys().len() && self.keys()[m] == k@;
                lemma_lt_irreflexive(k@);
                if m < i {
                    assert(seq_lt(self.keys()[m], k@));
                } else {
                    assert(seq_lt(k@, self.keys()[m]));
                }
            }
            if found {
                self.keys().index_of_first_ensures(k@);
                assert(self.keys().contains(k@));
            }
        }
        if found {
            Some(i)
        } else {
            None
        }
    }

    /// Whether the map has key `k`.
    pub fn contains_key(&self, k: &str) -> (r: bool)
        ensures
            r == self.keys().contains(k@),
    {
        self.index_of(k).is_some()
    }

    /// The value of key `k`.
    pub fn get(&self, k: &str) -> (r: Option<&V>)
        ensures
            r matches Some(v) ==> self.spec_get(k@) == Some(*v),
            r is None ==> self.spec_get(k@) is None,
    {
        proof {
            use_type_invariant(self);
        }
        match self.index_of(k) {
            Some(i) => Some(&self.vals[i]),
            None => None,
        }
    }

    /// Sets the value of key `k`, adding the key where it is new.
    pub fn insert(&mut self, k: String, v: V)
        ensures
            sorted_strict(final(self).keys()),
            final(self).keys().to_set() == old(self).keys().to_set().insert(k@),
            final(self).keys().len() == final(self).vals().len(),
            final(self).spec_get(k@) == Some(v),
            forall|j: Seq<char>| j != k@ ==> #[trigger] final(self).spec_get(j) == old(self).spec_get(j),
            old(self).keys().contains(k@) ==> final(self).keys() == old(self).keys(),
            final(self).as_map() == old(self).as_map().insert(k@, v),
    {
        let ghost before = self.as_map();
        self.insert_inner(k, v);
        proof {
            let after = self.as_map();
            assert forall|j: Seq<char>| #[trigger] after.dom().contains(j) == before.insert(k@, v).dom().contains(j) by {
                assert(self.keys().to_set().contains(j) == self.keys().contains(j));
                assert(old(self).keys().to_set().contains(j) == old(self).keys().contains(j));
            }
            assert forall|j: Seq<char>| after.dom().contains(j) implies #[trigger] after[j] == before.insert(k@, v)[j] by {
                assert(self.keys().to_set().contains(j));
                if j != k@ {
                    assert(self.spec_get(j) == old(self).spec_get(j));
                } else {
                    assert(self.spec_get(j) == Some(v));
                }
            }
            assert(after =~= before.insert(k@, v));
        }
    }

    fn insert_inner(&mut self, k: String, v: V)
        ensures
            sorted_strict(final(self).keys()),
            final(self).keys().to_set() == old(self).keys().to_set().insert(k@),
            final(self).keys().len() == final(self).vals().len(),
            final(self).spec_get(k@) == Some(v),
            forall|j: Seq<char>| j != k@ ==> #[trigger] final(self).spec_get(j) == old(self).spec_get(j),
            old(self).keys().contains(k@) ==> final(self).keys() == old(self).keys(),
    {
        proof {
            use_type_invariant(&*self);
            lemma_sorted_no_duplicates(self.keys());
        }
        let kv = chars_of(k.as_str());
        let (i, found) = self.position(&kv);
        let ghost old_keys = self.keys();
        let ghost old_vals = self.vals();
        let mut taken: StrMap<V> = StrMap::new();
        std::mem::swap(&mut taken, self);
        let StrMap { keys: mut keys, vals: mut vals } = taken;
        assert(views(keys@) == old_keys);
        assert(vals@ == old_vals);
        if found {
            vals.set(i, v);
            *self = StrMap { keys, vals };
            proof {
                old_keys.index_of_first_ensures(k@);
                assert(old_keys.contains(k@));
                assert(old_keys.to_set().insert(k@) =~= old_keys.to_set());
                assert forall|j: Seq<char>| j != k@ implies #[trigger] self.spec_get(j) == lookup(old_keys, old_vals, j) by {
                    if old_keys.contains(j) {
                        old_keys.index_of_first_ensures(j);
                    }
                }
            }
            return;
        }
        proof {
            if old_keys.contains(k@) {
                let m = choose|m: int| 0 <= m < old_keys.len() && old_keys[m] == k@;
                lemma_lt_irreflexive(k@);
                if m < i {
                    assert(seq_lt(old_keys[m], k@));
                } else {
                    assert(seq_lt(k@, old_keys[m]));
                }
            }
        }
        let ghost new_keys = old_keys.insert(i as int, k@);
        proof {
            assert forall|a: int, b: int| 0 <= a < b < new_keys.len() implies seq_lt(
                #[trigger] new_keys[a],
                #[trigger] new_keys[b],
            ) by {
                if b < i {
                } else if a > i {
                    assert(new_keys[a] == old_keys[a - 1]);
                    assert(new_keys[b] == old_keys[b - 1]);
                } else if a == i {
                    assert(new_keys[b] == old_keys[b - 1]);
                } else if b == i {
                } else {
                    assert(new_keys[b] == old_keys[b - 1]);
                }
            }
        }
        keys.insert(i, k);
        vals.insert(i, v);
        assert(views(keys@) =~= new_keys);
        *self = StrMap { keys, vals };
        proof {
            let new_vals = old_vals.insert(i as int, v);
            assert(self.vals() =~= new_vals);
            lemma_sorted_no_duplicates(new_keys);
            assert(new_keys[i as int] == k@);
            new_keys.index_of_first_ensures(k@);
            assert(new_keys.contains(k@));
            assert(new_keys.to_set() =~= old_keys.to_set().insert(k@)) by {
                assert forall|y: Seq<char>| #[trigger] new_keys.to_set().contains(y) implies old_keys.to_set().insert(k@).contains(y) by {
                    let m = choose|m: int| 0 <= m < new_keys.len() && new_keys[m] == y;
                    if m < i {
                        assert(old_keys[m] == y);
                    } else if m > i {
                        assert(old_keys[m - 1] == y);
                    }
                }
                assert forall|y: Seq<char>| #[trigger] old_keys.to_set().insert(k@).contains(y) implies new_keys.to_set().contains(y) by {
                    if y == k@ {
                        assert(new_keys[i as int] == y);
                    } else {
                        let m = choose|m: int| 0 <= m < old_keys.len() && old_keys[m] == y;
                        if m < i {
                            assert(new_keys[m] == y);
                        } else {
                            assert(new_keys[m + 1] == y);
                        }
                    }
                }
            }
            assert forall|j: Seq<char>| j != k@ implies #[trigger] self.spec_get(j) == lookup(old_keys, old_vals, j) by {
                if old_keys.contains(j) {
                    old_keys.index_of_first_ensures(j);
                    let m = old_keys.index_of(j);
                    if m < i {
                        assert(new_keys[m] == j);
                        new_keys.index_of_first_ensures(j);
                        assert(new_keys.contains(j));
                    } else {
                        assert(new_keys[m + 1] == j);
                        new_keys.index_of_first_ensures(j);
                        assert(new_keys.contains(j));
                    }
                } else {
                    if new_keys.contains(j) {
                        let m = choose|m: int| 0 <= m < new_keys.len() && new_keys[m] == j;
                        if m < i {
                            assert(old_keys[m] == j);
                        } else if m > i {
                            assert(old_keys[m - 1] == j);
                        }
                    }
                }
            }
        }
    }
}

impl<V> StrMap<V> {
    /// Replaces the value of the `i`-th key; returns the old value.
    pub fn replace_at(&mut self, i: usize, v: V) -> (r: V)
        requires
            i < old(self).keys().len(),
        ensures
            r == old(self).vals()[i as int],
            final(self).keys() == old(self).keys(),
            final(self).vals() == old(self).vals().update(i as int, v),
            final(self).as_map() == old(self).as_map().insert(old(self).keys()[i as int], v),
    {
        proof {
            use_type_invariant(&*self);
            lemma_sorted_no_duplicates(self.keys());
        }
        let ghost old_keys = self.keys();
        let ghost old_vals = self.vals();
        let ghost before = self.as_map();
        let mut taken: StrMap<V> = StrMap::new();
        std::mem::swap(&mut taken, self);
        let StrMap { keys, vals: mut vals } = taken;
        let r = vals.remove(i);
        vals.insert(i, v);
        assert(vals@ =~= old_vals.update(i as int, v));
        *self = StrMap { keys, vals };
        proof {
            let k = old_keys[i as int];
            old_keys.index_of_first_ensures(k);
            assert(old_keys.contains(k));
            assert(old_keys.index_of(k) == i) by {
                if old_keys.index_of(k) != i {
                    assert(old_keys[old_keys.index_of(k)] == k);
                }
            }
            assert forall|j: Seq<char>| old_keys.contains(j) && j != k implies #[trigger] old_keys.index_of(j) != i by {
                old_keys.index_of_first_ensures(j);
            }
            assert(self.as_map() =~= before.insert(k, v));
        }
        r
    }
}

impl<V: Clone> Clone for StrMap<V> {
    fn clone(&self) -> (r: Self)
        ensures
            r.keys() == self.keys(),
            r.vals().len() == self.vals().len(),
            forall|i: int| 0 <= i < self.vals().len() ==> cloned(#[trigger] self.vals()[i], r.vals()[i]),
    {
        proof {
            use_type_invariant(self);
        }
        let keys = self.keys.clone();
        let vals = self.vals.clone();
        assert(views(keys@) =~= views(self.keys@));
        StrMap { keys, vals }
    }
}

impl<V> Default for StrMap<V> {
    fn default() -> (r: Self)
        ensures
            r.keys() == Seq::<Seq<char>>::empty(),
            r.vals() == Seq::<V>::empty(),
    {
        StrMap::new()
    }
}

/// The map that inserting `entries` in order gives: later entries win.
pub open spec fn entries_to_map<V>(entries: Seq<(Seq<char>, V)>) -> Map<Seq<char>, V>
    decreases entries.len(),
{
    if entries.len() == 0 {
        Map::empty()
    } else {
        entries_to_map(entries.drop_last()).insert(entries.last().0, entries.last().1)
    }
}

/// A map of string lists, as texts.
pub open spec fn list_map_view(m: StrMap<Vec<String>>) -> Map<Seq<char>, Seq<Seq<char>>> {
    m.as_map().map_values(|v: Vec<String>| views(v@))
}

/// A map of strings, as texts.
pub open spec fn text_map_view(m: StrMap<String>) -> Map<Seq<char>, Seq<char>> {
    m.as_map().map_values(|v: String| v@)
}

/// The set of a concatenation is the union of the sets.
pub proof fn lemma_concat_to_set<A>(a: Seq<A>, b: Seq<A>)
    ensures
        (a + b).to_set() == a.to_set() + b.to_set(),
{
    assert forall|x: A| (a + b).to_set().contains(x) implies (a.to_set() + b.to_set()).contains(x) by {
        let k = choose|k: int| 0 <= k < (a + b).len() && (a + b)[k] == x;
        if k < a.len() {
            assert(a[k] == x);
        } else {
            assert(b[k - a.len()] == x);
        }
    }
    assert forall|x: A| (a.to_set() + b.to_set()).contains(x) implies (a + b).to_set().contains(x) by {
        if a.to_set().contains(x) {
            let k = choose|k: int| 0 <= k < a.len() && a[k] == x;
            assert((a + b)[k] == x);
        } else {
            let k = choose|k: int| 0 <= k < b.len() && b[k] == x;
            assert((a + b)[k + a.len()] == x);
        }
    }
    assert((a + b).to_set() =~= a.to_set() + b.to_set());
}

/// The increasing sequence of a finite set of texts.
pub open spec fn sorted_of(s: Set<Seq<char>>) -> Seq<Seq<char>> {
    choose|q: Seq<Seq<char>>| sorted_strict(q) && q.to_set() == s
}

/// A strictly increasing sequence is the sorted sequence of its set.
pub proof fn lemma_sorted_of(q: Seq<Seq<char>>)
    requires
        sorted_strict(q),
    ensures
        sorted_of(q.to_set()) == q,
{
    let c = sorted_of(q.to_set());
    assert(sorted_strict(q) && q.to_set() == q.to_set());
    lemma_sorted_unique(c, q);
}

/// Copies a map of string lists.
pub fn copy_list_map(m: &StrMap<Vec<String>>) -> (r: StrMap<Vec<String>>)
    ensures
        list_map_view(r) == list_map_view(*m),
{
    let mut r: StrMap<Vec<String>> = StrMap::new();
    merge_list_map(&mut r, m);
    assert(list_map_view(*m) =~= Map::<Seq<char>, Seq<Seq<char>>>::empty().union_prefer_right(list_map_view(*m)));
    r
}

/// Sets every entry of `over` in `m`, replacing values of keys that exist.
pub fn merge_list_map(m: &mut StrMap<Vec<String>>, over: &StrMap<Vec<String>>)
    ensures
        list_map_view(*final(m)) == list_map_view(*old(m)).union_prefer_right(list_map_view(*over)),
{
    let ghost start = list_map_view(*m);
    over.wf_ensures();
    let n = over.len();
    let mut i: usize = 0;
    while i < n
        invariant
            i <= n,
            n == over.keys().len(),
            n == over.vals().len(),
            over.keys().no_duplicates(),
            list_map_view(*m) == start.union_prefer_right(
                Map::new(
                    |k: Seq<char>| over.keys().take(i as int).contains(k),
                    |k: Seq<char>| views(over.vals()[over.keys().index_of(k)]@),
                ),
            ),
        decreases n - i,
    {
        let k = over.key_at(i).clone();
        let v = over.value_at(i).clone();
        let ghost before = list_map_view(*m);
        proof {
            assert(views(v@) =~= views(over.vals()[i as int]@));
        }
        m.insert(k, v);
        proof {
            let kk = over.keys()[i as int];
            over.keys().index_of_first_ensures(kk);
            assert(over.keys().contains(kk));
            assert(over.keys().index_of(kk) == i) by {
                if over.keys().index_of(kk) != i {
                    assert(over.keys()[over.keys().index_of(kk)] == kk);
                }
            }
            assert forall|x: Seq<char>| #[trigger] over.keys().take(i + 1).contains(x) == (over.keys().take(i as int).contains(x) || x == kk) by {
                let tp = over.keys().take(i + 1);
                let t0 = over.keys().take(i as int);
                if tp.contains(x) {
                    let j = choose|j: int| #![trigger tp[j]] 0 <= j < tp.len() && tp[j] == x;
                    if j < i {
                        assert(t0[j] == x);
                    }
                }
                if t0.contains(x) {
                    let j = choose|j: int| #![trigger t0[j]] 0 <= j < t0.len() && t0[j] == x;
                    assert(tp[j] == x);
                }
                if x == kk {
                    assert(tp[i as int] == x);
                }
            }
            assert(list_map_view(*m) =~= before.insert(kk, views(over.vals()[i as int]@)));
            assert(list_map_view(*m) =~= start.union_prefer_right(
                Map::new(
                    |k: Seq<char>| over.keys().take(i + 1).contains(k),
                    |k: Seq<char>| views(over.vals()[over.keys().index_of(k)]@),
                ),
            ));
        }
        i = i + 1;
    }
    proof {
        assert(over.keys().take(n as int) =~= over.keys());
        assert(list_map_view(*over) =~= Map::new(
            |k: Seq<char>| over.keys().contains(k),
            |k: Seq<char>| views(over.vals()[over.keys().index_of(k)]@),
        ));
    }
}

/// `seq_lt` is a strict total order, so its complement is transitive too.
proof fn lemma_text_lt_order(a: Seq<char>, b: Seq<char>, c: Seq<char>)
    ensures
        !seq_lt(a, b) && !seq_lt(b, c) ==> !seq_lt(a, c),
        seq_lt(a, b) ==> !seq_lt(b, a),
{
    lemma_lt_asym(a, b);
    lemma_lt_total(a, b);
    lemma_lt_total(b, c);
    if seq_lt(c, b) && seq_lt(b, a) {
        lemma_lt_trans(c, b, a);
    }
    lemma_lt_asym(a, c);
}

/// Inserts `x` into `s` after every text that does not sort after it.
pub open spec fn insert_text(s: Seq<Seq<char>>, x: Seq<char>) -> Seq<Seq<char>>
    decreases s.len(),
{
    if s.len() == 0 {
        seq![x]
    } else if seq_lt(x, s.last()) {
        insert_text(s.drop_last(), x).push(s.last())
    } else {
        s.push(x)
    }
}

/// The texts of `s` in increasing order, repeats kept.
pub open spec fn sort_texts(s: Seq<Seq<char>>) -> Seq<Seq<char>>
    decreases s.len(),
{
    if s.len() == 0 {
        Seq::empty()
    } else {
        insert_text(sort_texts(s.drop_last()), s.last())
    }
}

/// Non-decreasing in `seq_lt`.
pub open spec fn texts_in_order(s: Seq<Seq<char>>) -> bool {
    forall|i: int, j: int| 0 <= i < j < s.len() ==> !seq_lt(#[trigger] s[j], #[trigger] s[i])
}

proof fn lemma_insert_text(s: Seq<Seq<char>>, x: Seq<char>)
    requires
        texts_in_order(s),
    ensures
        texts_in_order(insert_text(s, x)),
        insert_text(s, x).to_multiset() == s.to_multiset().insert(x),
        insert_text(s, x).len() == s.len() + 1,
        forall|k: int| 0 <= k < insert_text(s, x).len() ==> (#[trigger] insert_text(s, x)[k] == x
            || s.contains(insert_text(s, x)[k])),
    decreases s.len(),
{
    broadcast use vstd::multiset::group_multiset_axioms;
    broadcast use vstd::seq_lib::group_to_multiset_ensures;

    if s.len() == 0 {
        assert(seq![x] =~= Seq::<Seq<char>>::empty().push(x));
        assert(Seq::<Seq<char>>::empty().to_multiset() =~= vstd::multiset::Multiset::empty());
    } else if seq_lt(x, s.last()) {
        let p = s.drop_last();
        assert(texts_in_order(p));
        lemma_insert_text(p, x);
        let q = insert_text(p, x);
        let r = q.push(s.last());
        assert(s =~= p.push(s.last()));
        assert forall|i: int, j: int| 0 <= i < j < r.len() implies !seq_lt(#[trigger] r[j], #[trigger] r[i]) by {
            if j == r.len() - 1 {
                let y = q[i];
                lemma_text_lt_order(s.last(), y, x);
                lemma_text_lt_order(x, s.last(), y);
                if y != x {
                    let m = choose|m: int| 0 <= m < p.len() && p[m] == y;
                    assert(s[m] == y);
                    assert(!seq_lt(s[s.len() - 1], s[m]));
                }
            }
        }
        assert(r.to_multiset() == q.to_multiset().insert(s.last()));
        assert(s.to_multiset() == p.to_multiset().insert(s.last()));
        assert(r.to_multiset() =~= s.to_multiset().insert(x));
        assert forall|k: int| 0 <= k < r.len() implies (#[trigger] r[k] == x || s.contains(r[k])) by {
            if k < q.len() {
                if q[k] != x {
                    let m = choose|m: int| 0 <= m < p.len() && p[m] == q[k];
                    assert(s[m] == q[k]);
                }
            } else {
                assert(s[s.len() - 1] == r[k]);
            }
        }
    } else {
        let r = s.push(x);
        assert forall|i: int, j: int| 0 <= i < j < r.len() implies !seq_lt(#[trigger] r[j], #[trigger] r[i]) by {
            if j == r.len() - 1 && i < s.len() - 1 {
                lemma_text_lt_order(x, s.last(), s[i]);
                assert(!seq_lt(s[s.len() - 1], s[i]));
            }
        }
        assert forall|k: int| 0 <= k < r.len() implies (#[trigger] r[k] == x || s.contains(r[k])) by {
            if k < s.len() {
                assert(s[k] == r[k]);
            }
        }
    }
}

/// Sorted texts are in order and as many as before.
pub proof fn lemma_sort_texts_in_order(s: Seq<Seq<char>>)
    ensures
        texts_in_order(sort_texts(s)),
        sort_texts(s).len() == s.len(),
    decreases s.len(),
{
    if s.len() > 0 {
        lemma_sort_texts_in_order(s.drop_last());
        lemma_insert_text(sort_texts(s.drop_last()), s.last());
    }
}

/// Sorting texts keeps every text as often as it occurs.
pub proof fn lemma_sort_texts_permutes(s: Seq<Seq<char>>)
    ensures
        sort_texts(s).to_multiset() == s.to_multiset(),
    decreases s.len(),
{
    broadcast use vstd::seq_lib::group_to_multiset_ensures;

    if s.len() == 0 {
        assert(sort_texts(s).to_multiset() =~= s.to_multiset());
    } else {
        lemma_sort_texts_permutes(s.drop_last());
        lemma_sort_texts_in_order(s.drop_last());
        lemma_insert_text(sort_texts(s.drop_last()), s.last());
        assert(s =~= s.drop_last().push(s.last()));
    }
}

/// Sorts strings into increasing order, keeping repeats.
pub fn sort_strings(items: Vec<String>) -> (r: Vec<String>)
    ensures
        views(r@) == sort_texts(views(items@)),
{
    let ghost all = views(items@);
    let n = items.len();
    let mut out: Vec<String> = Vec::new();
    let mut i: usize = 0;
    proof {
        assert(all.take(0) =~= Seq::<Seq<char>>::empty());
        assert(views(out@) =~= Seq::<Seq<char>>::empty());
    }
    while i < n
        invariant
            i <= n,
            n == items.len(),
            all == views(items@),
            views(out@) == sort_texts(all.take(i as int)),
        decreases n - i,
    {
        let x = items[i].clone();
        let ghost s = views(out@);
        let ghost xv = x@;
        proof {
            assert(xv == all[i as int]);
            assert(all.take(i + 1).drop_last() =~= all.take(i as int));
            assert(all.take(i + 1).last() == xv);
        }
        let mut j = out.len();
        proof {
            assert(s.take(j as int) =~= s);
            assert(s.skip(j as int) =~= Seq::<Seq<char>>::empty());
            assert(insert_text(s, xv) =~= insert_text(s.take(j as int), xv) + s.skip(j as int));
        }
        while j > 0 && compare_str(x.as_str(), out[j - 1].as_str()) == Order3::Less
            invariant
                j <= out.len(),
                s == views(out@),
                xv == x@,
                insert_text(s, xv) == insert_text(s.take(j as int), xv) + s.skip(j as int),
            decreases j,
        {
            proof {
                let t = s.take(j as int);
                assert(t.drop_last() =~= s.take(j - 1));
                assert(t.last() == s[j - 1]);
                assert(s.skip(j - 1) =~= seq![s[j - 1]] + s.skip(j as int));
                assert(insert_text(t, xv) == insert_text(s.take(j - 1), xv).push(s[j - 1]));
                assert(insert_text(s.take(j - 1), xv).push(s[j - 1]) + s.skip(j as int)
                    =~= insert_text(s.take(j - 1), xv) + s.skip(j - 1));
            }
            j = j - 1;
        }
        proof {
            let t = s.take(j as int);
            if j == 0 {
                assert(insert_text(t, xv) =~= t.push(xv));
            } else {
                assert(t.last() == s[j - 1]);
                assert(insert_text(t, xv) == t.push(xv));
            }
        }
        out.insert(j, x);
        proof {
            assert(views(out@) =~= s.take(j as int).push(xv) + s.skip(j as int));
        }
        i = i + 1;
    }
    proof {
        assert(all.take(n as int) =~= all);
    }
    out
}

/// `q` with `x` inserted in order, unless it is already there.
pub open spec fn insert_unique(q: Seq<Seq<char>>, x: Seq<char>) -> Seq<Seq<char>>
    decreases q.len(),
{
    if q.len() == 0 {
        seq![x]
    } else if q.last() == x {
        q
    } else if seq_lt(x, q.last()) {
        insert_unique(q.drop_last(), x).push(q.last())
    } else {
        q.push(x)
    }
}

proof fn lemma_insert_unique(q: Seq<Seq<char>>, x: Seq<char>)
    requires
        sorted_strict(q),
    ensures
        sorted_strict(insert_unique(q, x)),
        insert_unique(q, x).to_set() == q.to_set().insert(x),
        forall|k: int| 0 <= k < insert_unique(q, x).len() ==> (#[trigger] insert_unique(q, x)[k] == x
            || q.contains(insert_unique(q, x)[k])),
    decreases q.len(),
{
    if q.len() == 0 {
        assert(seq![x] =~= Seq::<Seq<char>>::empty().push(x));
        Seq::<Seq<char>>::empty().lemma_push_to_set_commute(x);
        assert(Seq::<Seq<char>>::empty().to_set() =~= Set::<Seq<char>>::empty());
    } else if q.last() == x {
        assert(q.contains(x));
        assert(q.to_set().insert(x) =~= q.to_set());
    } else if seq_lt(x, q.last()) {
        let p = q.drop_last();
        assert(sorted_strict(p));
        lemma_insert_unique(p, x);
        let ip = insert_unique(p, x);
        let r = ip.push(q.last());
        assert(q =~= p.push(q.last()));
        assert forall|i: int, j: int| 0 <= i < j < r.len() implies seq_lt(#[trigger] r[i], #[trigger] r[j]) by {
            if j == r.len() - 1 {
                if ip[i] != x {
                    let m = choose|m: int| 0 <= m < p.len() && p[m] == ip[i];
                    assert(q[m] == ip[i]);
                    assert(seq_lt(q[m], q[q.len() - 1]));
                }
            } else {
                assert(r[i] == ip[i] && r[j] == ip[j]);
            }
        }
        ip.lemma_push_to_set_commute(q.last());
        p.lemma_push_to_set_commute(q.last());
        assert(r.to_set() =~= q.to_set().insert(x));
        assert forall|k: int| 0 <= k < r.len() implies (#[trigger] r[k] == x || q.contains(r[k])) by {
            if k < ip.len() {
                if ip[k] != x {
                    let m = choose|m: int| 0 <= m < p.len() && p[m] == ip[k];
                    assert(q[m] == ip[k]);
                }
            } else {
                assert(q[q.len() - 1] == r[k]);
            }
        }
    } else {
        lemma_lt_total(x, q.last());
        let r = q.push(x);
        assert forall|i: int, j: int| 0 <= i < j < r.len() implies seq_lt(#[trigger] r[i], #[trigger] r[j]) by {
            if j == r.len() - 1 {
                if i < q.len() - 1 {
                    assert(seq_lt(q[i], q[q.len() - 1]));
                    lemma_lt_trans(q[i], q[q.len() - 1], x);
                }
            } else {
                assert(r[i] == q[i] && r[j] == q[j]);
            }
        }
        q.lemma_push_to_set_commute(x);
        assert forall|k: int| 0 <= k < r.len() implies (#[trigger] r[k] == x || q.contains(r[k])) by {
            if k < q.len() {
                assert(q[k] == r[k]);
            }
        }
    }
}

proof fn sorted_witness(s: Set<Seq<char>>) -> (q: Seq<Seq<char>>)
    requires
        s.finite(),
    ensures
        sorted_strict(q),
        q.to_set() == s,
    decreases s.len(),
{
    if s.len() == 0 {
        assert(s =~= Set::<Seq<char>>::empty());
        assert(Seq::<Seq<char>>::empty().to_set() =~= Set::<Seq<char>>::empty());
        Seq::empty()
    } else {
        let a = s.choose();
        let p = sorted_witness(s.remove(a));
        lemma_insert_unique(p, a);
        assert(s.remove(a).insert(a) =~= s);
        insert_unique(p, a)
    }
}

/// The sorted sequence of a finite set of texts is strictly increasing,
/// holds exactly the set, and has one entry per element.
pub proof fn lemma_sorted_of_finite(s: Set<Seq<char>>)
    requires
        s.finite(),
    ensures
        sorted_strict(sorted_of(s)),
        sorted_of(s).to_set() == s,
        sorted_of(s).len() == s.len(),
        sorted_of(s).no_duplicates(),
{
    let q = sorted_witness(s);
    assert(sorted_strict(q) && q.to_set() == s);
    lemma_sorted_no_duplicates(sorted_of(s));
    sorted_of(s).unique_seq_to_set();
}

} // verus!
