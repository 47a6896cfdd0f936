//! Name-keyed collections kept in ascending name order: a set of names and a
//! map from names to values. They iterate in the order `String` sorts by, as
//! ordered collections of names do.
use vstd::prelude::*;

use crate::strings::{lemma_lt_irreflexive, lemma_lt_total, lemma_lt_transitive, seq_lt, str_eq, str_lt};

verus! {

/// The character views of a sequence of strings.
pub open spec fn view_names(v: Seq<String>) -> Seq<Seq<char>> {
    v.map_values(|s: String| s@)
}

/// Every name is strictly smaller than every later one.
pub open spec fn strictly_sorted(s: Seq<Seq<char>>) -> bool {
    forall|i: int, j: int| 0 <= i < j < s.len() ==> seq_lt(#[trigger] s[i], #[trigger] s[j])
}

pub proof fn lemma_sorted_distinct(s: Seq<Seq<char>>, i: int, j: int)
    requires
        strictly_sorted(s),
        0 <= i < s.len(),
        0 <= j < s.len(),
        i != j,
    ensures
        s[i] != s[j],
{
    if i < j {
        if s[i] == s[j] {
            lemma_lt_irreflexive(s[i]);
        }
    } else {
        if s[i] == s[j] {
            lemma_lt_irreflexive(s[j]);
        }
    }
}

/// A sorted sequence holding `k` has `k` at exactly one index.
pub proof fn lemma_sorted_index_unique(s: Seq<Seq<char>>, i: int)
    requires
        strictly_sorted(s),
        0 <= i < s.len(),
    ensures
        s.contains(s[i]),
        s.index_of(s[i]) == i,
{
    assert(s.contains(s[i]));
    let j = s.index_of(s[i]);
    if j != i {
        lemma_sorted_distinct(s, i, j);
    }
}

/// Position at which `k` sits, or would be inserted, in sorted `keys`: the
/// first index whose name is not smaller than `k`.
fn lower_bound(keys: &Vec<String>, k: &str) -> (p: usize)
    requires
        strictly_sorted(view_names(keys@)),
    ensures
        p <= keys.len(),
        forall|i: int| 0 <= i < p ==> seq_lt(#[trigger] keys@[i]@, k@),
        p < keys.len() ==> !seq_lt(keys@[p as int]@, k@),
{
    let mut p: usize = 0;
    loop
        invariant
            p <= keys.len(),
            forall|i: int| 0 <= i < p ==> seq_lt(#[trigger] keys@[i]@, k@),
        ensures
            p <= keys.len(),
            forall|i: int| 0 <= i < p ==> seq_lt(#[trigger] keys@[i]@, k@),
            p < keys.len() ==> !seq_lt(keys@[p as int]@, k@),
        decreases keys.len() - p,
    {
        if p == keys.len() || !str_lt(keys[p].as_str(), k) {
            break ;
        }
        p = p + 1;
    }
    p
}

/// Every later name is larger than `k` when the name at `p` is not smaller
/// than `k` and differs from it.
proof fn lemma_after_bound(s: Seq<Seq<char>>, p: int, k: Seq<char>)
    requires
        strictly_sorted(s),
        0 <= p < s.len(),
        !seq_lt(s[p], k),
        s[p] != k,
    ensures
        forall|j: int| p <= j < s.len() ==> seq_lt(k, #[trigger] s[j]),
{
    lemma_lt_total(s[p], k);
    assert forall|j: int| p <= j < s.len() implies seq_lt(k, #[trigger] s[j]) by {
        if j > p {
            lemma_lt_transitive(k, s[p], s[j]);
        }
    }
}

/// No index past `p` holds `k` when the prefix up to `p` is smaller and the
/// rest larger.
proof fn lemma_not_contained(s: Seq<Seq<char>>, p: int, k: Seq<char>)
    requires
        0 <= p <= s.len(),
        forall|i: int| 0 <= i < p ==> seq_lt(#[trigger] s[i], k),
        forall|j: int| p <= j < s.len() ==> seq_lt(k, #[trigger] s[j]),
    ensures
        !s.contains(k),
{
    if s.contains(k) {
        let i = choose|i: int| 0 <= i < s.len() && s[i] == k;
        lemma_lt_irreflexive(k);
        if i < p {
            assert(seq_lt(s[i], k));
        } else {
            assert(seq_lt(k, s[i]));
        }
    }
}

/// Inserting `k` at `p`, between the smaller and the larger names, keeps the
/// sequence sorted.
proof fn lemma_insert_sorted(s: Seq<Seq<char>>, p: int, k: Seq<char>)
    requires
        strictly_sorted(s),
        0 <= p <= s.len(),
        forall|i: int| 0 <= i < p ==> seq_lt(#[trigger] s[i], k),
        forall|j: int| p <= j < s.len() ==> seq_lt(k, #[trigger] s[j]),
    ensures
        strictly_sorted(s.insert(p, k)),
{
    let t = s.insert(p, k);
    assert forall|i: int, j: int| 0 <= i < j < t.len() implies seq_lt(
        #[trigger] t[i],
        #[trigger] t[j],
    ) by {
        if i < p && j < p {
            assert(t[i] == s[i] && t[j] == s[j]);
        } else if i < p && j == p {
            assert(t[i] == s[i]);
        } else if i < p {
            assert(t[i] == s[i] && t[j] == s[j - 1]);
            lemma_lt_transitive(s[i], k, s[j - 1]);
        } else if i == p {
            assert(t[j] == s[j - 1]);
        } else {
            assert(t[i] == s[i - 1] && t[j] == s[j - 1]);
        }
    }
}

proof fn lemma_remove_sorted(s: Seq<Seq<char>>, p: int)
    requires
        strictly_sorted(s),
        0 <= p < s.len(),
    ensures
        strictly_sorted(s.remove(p)),
{
    let t = s.remove(p);
    assert forall|i: int, j: int| 0 <= i < j < t.len() implies seq_lt(
        #[trigger] t[i],
        #[trigger] t[j],
    ) by {
        if j < p {
            assert(t[i] == s[i] && t[j] == s[j]);
        } else if i < p {
            assert(t[i] == s[i] && t[j] == s[j + 1]);
        } else {
            assert(t[i] == s[i + 1] && t[j] == s[j + 1]);
        }
    }
}

proof fn lemma_view_names_insert(v: Seq<String>, p: int, k: String)
    requires
        0 <= p <= v.len(),
    ensures
        view_names(v.insert(p, k)) == view_names(v).insert(p, k@),
{
    assert(view_names(v.insert(p, k)) =~= view_names(v).insert(p, k@));
}

proof fn lemma_view_names_remove(v: Seq<String>, p: int)
    requires
        0 <= p < v.len(),
    ensures
        view_names(v.remove(p)) == view_names(v).remove(p),
{
    assert(view_names(v.remove(p)) =~= view_names(v).remove(p));
}

proof fn lemma_to_set_insert<A>(s: Seq<A>, p: int, a: A)
    requires
        0 <= p <= s.len(),
    ensures
        s.insert(p, a).to_set() == s.to_set().insert(a),
{
    let t = s.insert(p, a);
    assert forall|x: A| t.to_set().contains(x) <==> s.to_set().insert(a).contains(x) by {
        if t.contains(x) {
            let i = choose|i: int| 0 <= i < t.len() && t[i] == x;
            if i < p {
                assert(s[i] == x);
            } else if i > p {
                assert(s[i - 1] == x);
            }
        }
        if s.contains(x) {
            let i = choose|i: int| 0 <= i < s.len() && s[i] == x;
            if i < p {
                assert(t[i] == x);
            } else {
                assert(t[i + 1] == x);
            }
        }
        if x == a {
            assert(t[p] == a);
        }
    }
    assert(t.to_set() =~= s.to_set().insert(a));
}

/// Pushing an element adds it to the set of elements.
pub proof fn lemma_push_to_set<A>(s: Seq<A>, a: A)
    ensures
        s.push(a).to_set() == s.to_set().insert(a),
{
    lemma_to_set_insert(s, s.len() as int, a);
    assert(s.insert(s.len() as int, a) =~= s.push(a));
}

proof fn lemma_to_set_remove<A>(s: Seq<A>, p: int)
    requires
        0 <= p < s.len(),
        s.no_duplicates(),
    ensures
        s.remove(p).to_set() == s.to_set().remove(s[p]),
{
    let t = s.remove(p);
    assert forall|x: A| t.to_set().contains(x) <==> s.to_set().remove(s[p]).contains(x) by {
        if t.contains(x) {
            let i = choose|i: int| 0 <= i < t.len() && t[i] == x;
            if i < p {
                assert(s[i] == x);
            } else {
                assert(s[i + 1] == x);
            }
        }
        if s.contains(x) && x != s[p] {
            let i = choose|i: int| 0 <= i < s.len() && s[i] == x;
            if i < p {
                assert(t[i] == x);
            } else {
                assert(i != p);
                assert(t[i - 1] == x);
            }
        }
    }
    assert(t.to_set() =~= s.to_set().remove(s[p]));
}

/// Index of `k` in `keys`, if it is there.
fn find_name(keys: &Vec<String>, k: &str) -> (r: Option<usize>)
    ensures
        match r {
            Some(i) => i < keys.len() && keys@[i as int]@ == k@,
            None => !view_names(keys@).contains(k@),
        },
{
    let mut i: usize = 0;
    while i < keys.len()
        invariant
            i <= keys.len(),
            forall|j: int| 0 <= j < i ==> (#[trigger] keys@[j])@ != k@,
        decreases keys.len() - i,
    {
        if str_eq(keys[i].as_str(), k) {
            return Some(i);
        }
        i = i + 1;
    }
    assert(!view_names(keys@).contains(k@)) by {
        if view_names(keys@).contains(k@) {
            let j = choose|j: int| 0 <= j < keys.len() && view_names(keys@)[j] == k@;
            assert(keys@[j]@ == k@);
        }
    }
    None
}

// ---------------------------------------------------------------------------
// NameSet
// ---------------------------------------------------------------------------

/// A set of names, held in ascending order without repetition.
#[derive(Debug)]
pub struct NameSet {
    pub items: Vec<String>,
}

impl View for NameSet {
    type V = Set<Seq<char>>;

    open spec fn view(&self) -> Set<Seq<char>> {
        self.elems().to_set()
    }
}

impl NameSet {
    /// The names in iteration (ascending) order.
    pub open spec fn elems(&self) -> Seq<Seq<char>> {
        view_names(self.items@)
    }

    /// Ascending order, hence no repetition.
    pub open spec fn wf(&self) -> bool {
        strictly_sorted(self.elems())
    }

    pub fn new() -> (r: NameSet)
        ensures
            r.wf(),
            r.elems() == Seq::<Seq<char>>::empty(),
            r@ == Set::<Seq<char>>::empty(),
    {
        let r = NameSet { items: Vec::new() };
        assert(r.elems() =~= Seq::<Seq<char>>::empty());
        assert(r@ =~= Set::<Seq<char>>::empty());
        r
    }

    /// The set holding just `k`.
    pub fn singleton(k: String) -> (r: NameSet)
        ensures
            r.wf(),
            r.elems() == seq![k@],
            r@ == set![k@],
    {
        let mut r = NameSet::new();
        r.insert(k);
        assert(r.elems() =~= seq![k@]) by {
            lemma_sorted_distinct_len1(r.elems(), k@);
        }
        r
    }

    pub fn len(&self) -> (n: usize)
        ensures
            n == self.elems().len(),
    {
        self.items.len()
    }

    pub fn is_empty(&self) -> (b: bool)
        requires
            self.wf(),
        ensures
            b == (self.elems().len() == 0),
            b == (self@ == Set::<Seq<char>>::empty()),
    {
        if self.items.len() == 0 {
            assert(self@ =~= Set::<Seq<char>>::empty());
            true
        } else {
            assert(self@.contains(self.elems()[0]));
            false
        }
    }

    pub fn contains(&self, k: &str) -> (b: bool)
        ensures
            b == self@.contains(k@),
    {
        match find_name(&self.items, k) {
            Some(i) => {
                assert(self.elems()[i as int] == k@);
                true
            },
            None => false,
        }
    }

    /// Adds `k`; true when it was not there before.
    pub fn insert(&mut self, k: String) -> (added: bool)
        requires
            old(self).wf(),
        ensures
            final(self).wf(),
            final(self)@ == old(self)@.insert(k@),
            added == !old(self)@.contains(k@),
            !added ==> final(self).elems() == old(self).elems(),
    {
        let p = lower_bound(&self.items, k.as_str());
        let ghost s = self.elems();
        if p < self.items.len() && str_eq(self.items[p].as_str(), k.as_str()) {
            assert(s[p as int] == k@);
            assert(self@.insert(k@) =~= self@);
            return false;
        }
        proof {
            if p < s.len() {
                lemma_after_bound(s, p as int, k@);
            }
            lemma_not_contained(s, p as int, k@);
            lemma_insert_sorted(s, p as int, k@);
            lemma_view_names_insert(self.items@, p as int, k);
            lemma_to_set_insert(s, p as int, k@);
        }
        self.items.insert(p, k);
        true
    }

    /// Removes `k`; true when it was there.
    pub fn remove(&mut self, k: &str) -> (removed: bool)
        requires
            old(self).wf(),
        ensures
            final(self).wf(),
            final(self)@ == old(self)@.remove(k@),
            removed == old(self)@.contains(k@),
    {
        match find_name(&self.items, k) {
            Some(i) => {
                let ghost s = self.elems();
                proof {
                    assert(s[i as int] == k@);
                    lemma_remove_sorted(s, i as int);
                    lemma_view_names_remove(self.items@, i as int);
                    assert(s.no_duplicates()) by {
                        assert forall|a: int, b: int|
                            0 <= a < s.len() && 0 <= b < s.len() && a != b implies s[a]
                            != s[b] by {
                            lemma_sorted_distinct(s, a, b);
                        }
                    }
                    lemma_to_set_remove(s, i as int);
                }
                self.items.remove(i);
                true
            },
            None => {
                assert(self@.remove(k@) =~= self@);
                false
            },
        }
    }

    /// Adds every name of `other`.
    pub fn extend_from(&mut self, other: &NameSet)
        requires
            old(self).wf(),
        ensures
            final(self).wf(),
            final(self)@ == old(self)@.union(other@),
    {
        let mut i: usize = 0;
        while i < other.items.len()
            invariant
                i <= other.items.len(),
                self.wf(),
                self@ == old(self)@.union(other.elems().take(i as int).to_set()),
            decreases other.items.len() - i,
        {
            let k = other.items[i].clone();
            self.insert(k);
            proof {
                let t = other.elems().take(i + 1);
                assert(t =~= other.elems().take(i as int).push(other.elems()[i as int]));
                assert(t.to_set() =~= other.elems().take(i as int).to_set().insert(
                    other.elems()[i as int],
                )) by {
                    lemma_to_set_insert(other.elems().take(i as int), i as int, other.elems()[i as int]);
                    assert(other.elems().take(i as int).insert(i as int, other.elems()[i as int]) =~= t);
                }
                assert(self@ =~= old(self)@.union(t.to_set()));
            }
            i = i + 1;
        }
        assert(other.elems().take(other.items.len() as int) =~= other.elems());
    }
}

proof fn lemma_sorted_distinct_len1(s: Seq<Seq<char>>, k: Seq<char>)
    requires
        s.to_set() == set![k],
        strictly_sorted(s),
    ensures
        s == seq![k],
{
    assert(s.to_set().contains(k));
    let i = choose|i: int| 0 <= i < s.len() && s[i] == k;
    assert forall|j: int| 0 <= j < s.len() implies s[j] == k by {
        assert(s.to_set().contains(s[j]));
    }
    if s.len() > 1 {
        assert(s[0] == k && s[1] == k);
        lemma_sorted_distinct(s, 0, 1);
    }
    assert(s =~= seq![k]);
}

impl Clone for NameSet {
    fn clone(&self) -> (r: NameSet)
        ensures
            r.elems() == self.elems(),
            r@ == self@,
    {
        let mut items: Vec<String> = Vec::new();
        let mut i: usize = 0;
        while i < self.items.len()
            invariant
                i <= self.items.len(),
                view_names(items@) == self.elems().take(i as int),
            decreases self.items.len() - i,
        {
            let c = self.items[i].clone();
            assert(c@ == self.elems()[i as int]);
            let ghost before = items@;
            items.push(c);
            assert(items@ == before.push(c));
            assert(view_names(items@) =~= view_names(before).push(c@));
            assert(self.elems().take(i + 1) =~= self.elems().take(i as int).push(self.elems()[i as int]));
            i = i + 1;
        }
        assert(self.elems().take(self.items.len() as int) =~= self.elems());
        NameSet { items }
    }
}

// ---------------------------------------------------------------------------
// NameMap
// ---------------------------------------------------------------------------

/// A map from names to values, its keys held in ascending order.
#[derive(Debug)]
pub struct NameMap<V> {
    pub keys: Vec<String>,
    pub vals: Vec<V>,
}

impl<V> View for NameMap<V> {
    type V = Map<Seq<char>, V>;

    open spec fn view(&self) -> Map<Seq<char>, V> {
        Map::new(
            |k: Seq<char>| self.key_seq().contains(k),
            |k: Seq<char>| self.vals@[self.key_seq().index_of(k)],
        )
    }
}

impl<V> NameMap<V> {
    /// Keys in iteration (ascending) order.
    pub open spec fn key_seq(&self) -> Seq<Seq<char>> {
        view_names(self.keys@)
    }

    /// One value per key, keys ascending.
    pub open spec fn wf(&self) -> bool {
        &&& self.keys.len() == self.vals.len()
        &&& strictly_sorted(self.key_seq())
    }

    /// The entry at index `i` is what the map holds for its key.
    pub proof fn lemma_entry(&self, i: int)
        requires
            self.wf(),
            0 <= i < self.keys.len(),
        ensures
            self@.contains_key(self.key_seq()[i]),
            self@[self.key_seq()[i]] == self.vals@[i],
    {
        lemma_sorted_index_unique(self.key_seq(), i);
    }

    /// Every key of the map sits at some index.
    pub proof fn lemma_key_index(&self, k: Seq<char>) -> (i: int)
        requires
            self.wf(),
            self@.contains_key(k),
        ensures
            0 <= i < self.keys.len(),
            self.key_seq()[i] == k,
            self@[k] == self.vals@[i],
    {
        let i = self.key_seq().index_of(k);
        i
    }

    pub fn new() -> (r: NameMap<V>)
        ensures
            r.wf(),
            r.key_seq() == Seq::<Seq<char>>::empty(),
            r@ == Map::<Seq<char>, V>::empty(),
    {
        let r = NameMap { keys: Vec::new(), vals: Vec::new() };
        assert(r.key_seq() =~= Seq::<Seq<char>>::empty());
        assert(r@ =~= Map::<Seq<char>, V>::empty());
        r
    }

    pub fn len(&self) -> (n: usize)
        ensures
            n == self.keys@.len(),
    {
        self.keys.len()
    }

    /// Index of the entry for `k`.
    pub fn find(&self, k: &str) -> (r: Option<usize>)
        requires
            self.wf(),
        ensures
            match r {
                Some(i) => i < self.keys.len() && self.key_seq()[i as int] == k@,
                None => !self@.contains_key(k@),
            },
            r is Some <==> self@.contains_key(k@),
    {
        let r = find_name(&self.keys, k);
        match r {
            Some(i) => {
                assert(self.key_seq()[i as int] == k@);
                proof {
                    self.lemma_entry(i as int);
                }
            },
            None => {},
        }
        r
    }

    pub fn contains_key(&self, k: &str) -> (b: bool)
        requires
            self.wf(),
        ensures
            b == self@.contains_key(k@),
    {
        self.find(k).is_some()
    }

    pub fn get(&self, k: &str) -> (r: Option<&V>)
        requires
            self.wf(),
        ensures
            match r {
                Some(v) => self@.contains_key(k@) && *v == self@[k@],
                None => !self@.contains_key(k@),
            },
    {
        match self.find(k) {
            Some(i) => {
                proof {
                    self.lemma_entry(i as int);
                }
                Some(&self.vals[i])
            },
            None => None,
        }
    }

    /// Sets the value for `k`, adding the key when absent.
    pub fn insert(&mut self, k: String, v: V)
        requires
            old(self).wf(),
        ensures
            final(self).wf(),
            final(self)@ == old(self)@.insert(k@, v),
            old(self)@.contains_key(k@) ==> final(self).key_seq() == old(self).key_seq(),
            final(self)@.dom() == old(self)@.dom().insert(k@),
    {
        let p = lower_bound(&self.keys, k.as_str());
        let ghost s = self.key_seq();
        let ghost old_map = self@;
        if p < self.keys.len() && str_eq(self.keys[p].as_str(), k.as_str()) {
            proof {
                self.lemma_entry(p as int);
            }
            self.vals.set(p, v);
            proof {
                assert(self.key_seq() == s);
                assert forall|x: Seq<char>| #[trigger] self@.contains_key(x) implies self@[x]
                    == old_map.insert(k@, v)[x] by {
                    let j = s.index_of(x);
                    lemma_sorted_index_unique(s, j);
                    if j == p {
                        assert(x == k@);
                    } else {
                        assert(x != k@) by {
                            lemma_sorted_distinct(s, j, p as int);
                        }
                    }
                }
                assert(self@ =~= old_map.insert(k@, v));
            }
            return ;
        }
        proof {
            if p < s.len() {
                lemma_after_bound(s, p as int, k@);
            }
            lemma_not_contained(s, p as int, k@);
            lemma_insert_sorted(s, p as int, k@);
            lemma_view_names_insert(self.keys@, p as int, k);
        }
        let ghost old_vals = self.vals@;
        self.keys.insert(p, k);
        self.vals.insert(p, v);
        proof {
            let t = self.key_seq();
            assert(t == s.insert(p as int, k@));
            assert forall|x: Seq<char>| self@.contains_key(x) <==> old_map.insert(
                k@,
                v,
            ).contains_key(x) by {
                if t.contains(x) {
                    let j = choose|j: int| 0 <= j < t.len() && t[j] == x;
                    if j < p {
                        assert(s[j] == x);
                    } else if j > p {
                        assert(s[j - 1] == x);
                    }
                }
                if s.contains(x) {
                    let j = choose|j: int| 0 <= j < s.len() && s[j] == x;
                    if j < p {
                        assert(t[j] == x);
                    } else {
                        assert(t[j + 1] == x);
                    }
                }
                if x == k@ {
                    assert(t[p as int] == x);
                }
            }
            assert forall|x: Seq<char>| #[trigger] self@.contains_key(x) implies self@[x]
                == old_map.insert(k@, v)[x] by {
                let j = t.index_of(x);
                lemma_sorted_index_unique(t, j);
                if j < p {
                    assert(s[j] == x);
                    lemma_sorted_index_unique(s, j);
                    assert(x != k@);
                } else if j > p {
                    assert(s[j - 1] == x);
                    lemma_sorted_index_unique(s, j - 1);
                    assert(x != k@);
                }
            }
            assert(self@ =~= old_map.insert(k@, v));
        }
    }

    /// Drops the entry for `k`, handing back its value.
    pub fn remove(&mut self, k: &str) -> (r: Option<V>)
        requires
            old(self).wf(),
        ensures
            final(self).wf(),
            final(self)@ == old(self)@.remove(k@),
            match r {
                Some(v) => old(self)@.contains_key(k@) && v == old(self)@[k@],
                None => !old(self)@.contains_key(k@),
            },
    {
        match self.find(k) {
            Some(i) => {
                let ghost s = self.key_seq();
                let ghost old_map = self@;
                proof {
                    self.lemma_entry(i as int);
                    lemma_remove_sorted(s, i as int);
                    lemma_view_names_remove(self.keys@, i as int);
                }
                self.keys.remove(i);
                let v = self.vals.remove(i);
                proof {
                    let t = self.key_seq();
                    assert(t == s.remove(i as int));
                    assert forall|x: Seq<char>| self@.contains_key(x) <==> old_map.remove(
                        k@,
                    ).contains_key(x) by {
                        if t.contains(x) {
                            let j = choose|j: int| 0 <= j < t.len() && t[j] == x;
                            if j < i {
                                assert(s[j] == x);
                                lemma_sorted_distinct(s, j, i as int);
                            } else {
                                assert(s[j + 1] == x);
                                lemma_sorted_distinct(s, j + 1, i as int);
                            }
                        }
                        if s.contains(x) && x != k@ {
                            let j = choose|j: int| 0 <= j < s.len() && s[j] == x;
                            if j < i {
                                assert(t[j] == x);
                            } else {
                                assert(j != i);
                                assert(t[j - 1] == x);
                            }
                        }
                    }
                    assert forall|x: Seq<char>| #[trigger] self@.contains_key(x) implies self@[x]
                        == old_map.remove(k@)[x] by {
                        let j = t.index_of(x);
                        lemma_sorted_index_unique(t, j);
                        if j < i {
                            assert(s[j] == x);
                            lemma_sorted_index_unique(s, j);
                        } else {
                            assert(s[j + 1] == x);
                            lemma_sorted_index_unique(s, j + 1);
                        }
                    }
                    assert(self@ =~= old_map.remove(k@));
                }
                Some(v)
            },
            None => {
                assert(self@.remove(k@) =~= self@);
                None
            },
        }
    }

    /// Replaces the value at index `i`, handing back the one it held.
    pub fn replace_at(&mut self, i: usize, v: V) -> (prev: V)
        requires
            old(self).wf(),
            i < old(self).keys.len(),
        ensures
            final(self).wf(),
            final(self).keys == old(self).keys,
            final(self).vals@ == old(self).vals@.update(i as int, v),
            prev == old(self).vals@[i as int],
            final(self)@ == old(self)@.insert(old(self).key_seq()[i as int], v),
    {
        let ghost old_map = self@;
        let ghost s = self.key_seq();
        proof {
            self.lemma_entry(i as int);
        }
        let mut tmp = v;
        self.vals.set_and_swap(i, &mut tmp);
        proof {
            assert forall|x: Seq<char>| #[trigger] self@.contains_key(x) implies self@[x]
                == old_map.insert(s[i as int], v)[x] by {
                let j = s.index_of(x);
                lemma_sorted_index_unique(s, j);
                if j != i {
                    lemma_sorted_distinct(s, j, i as int);
                }
            }
            assert(self@ =~= old_map.insert(s[i as int], v));
        }
        tmp
    }
}

} // verus!
