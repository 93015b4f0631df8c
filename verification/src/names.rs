//! Maps keyed by names, kept in the order of the names.
//!
//! Services and environment variables are looked up by name and walked in
//! name order (status output, signal forwarding, validation); a `NameMap`
//! keeps its entries sorted by name with no name twice.
use vstd::prelude::*;
use crate::text::{chars_of, chars_of_string, chars_lt, eq_chars, lemma_text_lt_irreflexive, lemma_text_lt_total, lemma_text_lt_transitive, text_lt};

verus! {

/// Entries of a name map, in the order they are kept.
pub type Entries<T> = Seq<(Seq<char>, T)>;

/// The names of `m` are strictly increasing, so that none occurs twice.
pub open spec fn names_sorted<T>(m: Entries<T>) -> bool {
    forall|i: int, j: int| 0 <= i < j < m.len() ==> text_lt(m[i].0, m[j].0)
}

/// Position of `k` in `m`, or the length when it is absent.
pub open spec fn position<T>(m: Entries<T>, k: Seq<char>) -> int
    decreases m.len(),
{
    if m.len() == 0 {
        0
    } else if m[0].0 == k {
        0
    } else {
        1 + position(m.drop_first(), k)
    }
}

/// The value stored under `k`.
pub open spec fn lookup<T>(m: Entries<T>, k: Seq<char>) -> Option<T> {
    let i = position(m, k);
    if 0 <= i < m.len() {
        Some(m[i].1)
    } else {
        None
    }
}

/// `k` is one of the names of `m`.
pub open spec fn has_name<T>(m: Entries<T>, k: Seq<char>) -> bool {
    lookup(m, k) is Some
}

/// Number of names of `m` that come before `k`; where `m` is sorted, the
/// place at which `k` belongs.
pub open spec fn lower_bound<T>(m: Entries<T>, k: Seq<char>) -> int
    decreases m.len(),
{
    if m.len() == 0 {
        0
    } else if text_lt(m[0].0, k) {
        1 + lower_bound(m.drop_first(), k)
    } else {
        0
    }
}

/// `m` with `k` bound to `v`: the entry of `k` replaced where there is one,
/// otherwise a new entry at the place where `k` belongs.
pub open spec fn insert_entry<T>(m: Entries<T>, k: Seq<char>, v: T) -> Entries<T> {
    let i = lower_bound(m, k);
    if 0 <= i < m.len() && m[i].0 == k {
        m.update(i, (k, v))
    } else {
        m.insert(i, (k, v))
    }
}

/// `m` with `k` bound to `v` unless `k` already has a value.
pub open spec fn insert_absent<T>(m: Entries<T>, k: Seq<char>, v: T) -> Entries<T> {
    if has_name(m, k) {
        m
    } else {
        insert_entry(m, k, v)
    }
}

/// A name is found at the first place that holds it.
pub proof fn lemma_position<T>(m: Entries<T>, k: Seq<char>, i: int)
    requires
        0 <= i <= m.len(),
        forall|j: int| 0 <= j < i ==> m[j].0 != k,
        i == m.len() || m[i].0 == k,
    ensures
        position(m, k) == i,
    decreases i,
{
    if i > 0 {
        lemma_position(m.drop_first(), k, i - 1);
    }
}

/// A name is found within the map, at a place that holds it, after places that do not.
pub proof fn lemma_position_bounds<T>(m: Entries<T>, k: Seq<char>)
    ensures
        0 <= position(m, k) <= m.len(),
        position(m, k) < m.len() ==> m[position(m, k)].0 == k,
        forall|j: int| 0 <= j < position(m, k) ==> m[j].0 != k,
    decreases m.len(),
{
    if m.len() > 0 && m[0].0 != k {
        lemma_position_bounds(m.drop_first(), k);
        assert forall|j: int| 0 <= j < position(m, k) implies m[j].0 != k by {
            if j > 0 {
                assert(m[j] == m.drop_first()[j - 1]);
            }
        }
    }
}

/// Looking a name up in a map with one entry added at the end finds the
/// earlier entry first.
pub proof fn lemma_lookup_push<T>(m: Entries<T>, x: (Seq<char>, T), q: Seq<char>)
    ensures
        lookup(m.push(x), q) == if has_name(m, q) {
            lookup(m, q)
        } else if x.0 == q {
            Some(x.1)
        } else {
            None
        },
{
    let p = m.push(x);
    lemma_position_bounds(m, q);
    let i = position(m, q);
    assert forall|j: int| 0 <= j < i implies p[j].0 != q by {
        assert(p[j] == m[j]);
    }
    if i < m.len() {
        assert(p[i] == m[i]);
        lemma_position(p, q, i);
    } else if x.0 == q {
        lemma_position(p, q, i);
    } else {
        lemma_position(p, q, i + 1);
    }
}

/// In a sorted map a name is found at any place that holds it.
pub proof fn lemma_position_unique<T>(m: Entries<T>, i: int)
    requires
        names_sorted(m),
        0 <= i < m.len(),
    ensures
        position(m, m[i].0) == i,
{
    assert forall|j: int| 0 <= j < i implies m[j].0 != m[i].0 by {
        lemma_text_lt_irreflexive(m[i].0);
    }
    lemma_position(m, m[i].0, i);
}

/// The place where a name belongs is after every smaller name.
pub proof fn lemma_lower_bound<T>(m: Entries<T>, k: Seq<char>, i: int)
    requires
        0 <= i <= m.len(),
        forall|j: int| 0 <= j < i ==> text_lt(m[j].0, k),
        i == m.len() || !text_lt(m[i].0, k),
    ensures
        lower_bound(m, k) == i,
    decreases i,
{
    if i > 0 {
        lemma_lower_bound(m.drop_first(), k, i - 1);
    }
}

/// The place where a sorted map puts `k`: names before it are smaller,
/// names from it on are not.
pub proof fn lemma_lower_bound_split<T>(m: Entries<T>, k: Seq<char>)
    requires
        names_sorted(m),
    ensures
        0 <= lower_bound(m, k) <= m.len(),
        forall|j: int| 0 <= j < lower_bound(m, k) ==> text_lt(m[j].0, k),
        forall|j: int| lower_bound(m, k) <= j < m.len() ==> !text_lt(m[j].0, k),
    decreases m.len(),
{
    if m.len() > 0 {
        assert forall|a: int, b: int| 0 <= a < b < m.drop_first().len() implies text_lt(
            m.drop_first()[a].0,
            m.drop_first()[b].0,
        ) by {
            assert(m.drop_first()[a] == m[a + 1]);
            assert(m.drop_first()[b] == m[b + 1]);
        }
        lemma_lower_bound_split(m.drop_first(), k);
        let lb = lower_bound(m, k);
        if text_lt(m[0].0, k) {
            assert forall|j: int| 0 <= j < lb implies text_lt(m[j].0, k) by {
                if j > 0 {
                    assert(m[j] == m.drop_first()[j - 1]);
                }
            }
            assert forall|j: int| lb <= j < m.len() implies !text_lt(m[j].0, k) by {
                assert(m[j] == m.drop_first()[j - 1]);
            }
        } else {
            assert forall|j: int| 0 <= j < m.len() implies !text_lt(m[j].0, k) by {
                if j > 0 && text_lt(m[j].0, k) {
                    lemma_text_lt_transitive(m[0].0, m[j].0, k);
                }
            }
        }
    }
}

/// Binding a name keeps the names sorted, makes the name look up to the
/// new value, and leaves every other name as it was.
pub proof fn lemma_insert_entry<T>(m: Entries<T>, k: Seq<char>, v: T)
    requires
        names_sorted(m),
    ensures
        names_sorted(insert_entry(m, k, v)),
        lookup(insert_entry(m, k, v), k) == Some(v),
        forall|q: Seq<char>| q != k ==> lookup(#[trigger] insert_entry(m, k, v), q) == lookup(
            m,
            q,
        ),
        has_name(m, k) ==> insert_entry(m, k, v).len() == m.len(),
        !has_name(m, k) ==> insert_entry(m, k, v).len() == m.len() + 1,
{
    lemma_lower_bound_split(m, k);
    let i = lower_bound(m, k);
    let r = insert_entry(m, k, v);
    if 0 <= i < m.len() && m[i].0 == k {
        assert(names_sorted(r));
        lemma_position_unique(r, i);
        lemma_position_unique(m, i);
        assert forall|q: Seq<char>| q != k implies lookup(#[trigger] insert_entry(m, k, v), q)
            == lookup(m, q) by {
            lemma_position_bounds(m, q);
            let p = position(m, q);
            if p < m.len() {
                lemma_position_unique(r, p);
            } else {
                lemma_position_bounds(r, q);
                let pr = position(r, q);
                if pr < r.len() {
                    assert(r[pr].0 == m[pr].0);
                }
            }
        }
    } else {
        assert forall|a: int, b: int| 0 <= a < b < r.len() implies text_lt(r[a].0, r[b].0) by {
            if b < i {
            } else if b == i {
            } else if a < i {
                lemma_text_lt_total(m[b - 1].0, k);
                if b - 1 > i {
                    lemma_text_lt_total(m[i].0, k);
                    lemma_text_lt_transitive(k, m[i].0, m[b - 1].0);
                }
                lemma_text_lt_transitive(m[a].0, k, m[b - 1].0);
            } else if a == i {
                lemma_text_lt_total(m[b - 1].0, k);
                if b - 1 > i {
                    lemma_text_lt_total(m[i].0, k);
                    lemma_text_lt_transitive(k, m[i].0, m[b - 1].0);
                }
            } else {
            }
        }
        lemma_position_unique(r, i);
        assert(!has_name(m, k)) by {
            lemma_position_bounds(m, k);
            let p = position(m, k);
            if p < m.len() {
                if p < i {
                    lemma_text_lt_irreflexive(k);
                } else if p > i {
                    lemma_text_lt_total(m[i].0, k);
                    lemma_text_lt_transitive(k, m[i].0, m[p].0);
                    lemma_text_lt_irreflexive(k);
                }
            }
        }
        assert forall|q: Seq<char>| q != k implies lookup(#[trigger] insert_entry(m, k, v), q)
            == lookup(m, q) by {
            lemma_position_bounds(m, q);
            let p = position(m, q);
            if p < m.len() {
                if p < i {
                    lemma_position_unique(r, p);
                } else {
                    assert(r[p + 1] == m[p]);
                    lemma_position_unique(r, p + 1);
                }
            } else {
                lemma_position_bounds(r, q);
                let pr = position(r, q);
                if pr < r.len() {
                    if pr < i {
                        assert(r[pr] == m[pr]);
                    } else if pr > i {
                        assert(r[pr] == m[pr - 1]);
                    }
                }
            }
        }
    }
}

/// The place where a name belongs lies within the map or just past it.
pub proof fn lemma_lower_bound_range<T>(m: Entries<T>, k: Seq<char>)
    ensures
        0 <= lower_bound(m, k) <= m.len(),
    decreases m.len(),
{
    if m.len() > 0 {
        lemma_lower_bound_range(m.drop_first(), k);
    }
}

/// A property of every value survives binding a name to a value that has
/// it too.
pub proof fn lemma_insert_entry_values<T>(m: Entries<T>, k: Seq<char>, v: T, p: spec_fn(T) -> bool)
    requires
        forall|i: int| 0 <= i < m.len() ==> #[trigger] p(m[i].1),
        p(v),
    ensures
        forall|i: int|
            0 <= i < insert_entry(m, k, v).len() ==> #[trigger] p(insert_entry(m, k, v)[i].1),
{
    let r = insert_entry(m, k, v);
    let lb = lower_bound(m, k);
    lemma_lower_bound_range(m, k);
    assert forall|i: int| 0 <= i < r.len() implies #[trigger] p(r[i].1) by {
        if 0 <= lb < m.len() && m[lb].0 == k {
            if i != lb {
                assert(r[i] == m[i]);
            }
        } else {
            if i < lb {
                assert(r[i] == m[i]);
            } else if i > lb {
                assert(r[i] == m[i - 1]);
            }
        }
    }
}

/// Names bound to values, walked in name order.
#[derive(Debug)]
pub struct NameMap<V> {
    entries: Vec<(String, V)>,
}

impl<V: View> View for NameMap<V> {
    type V = Entries<V::V>;

    closed spec fn view(&self) -> Entries<V::V> {
        self.entries@.map_values(|e: (String, V)| (e.0@, e.1@))
    }
}

impl<V: View> NameMap<V> {
    /// The names are sorted and distinct.
    pub open spec fn wf(&self) -> bool {
        names_sorted(self@)
    }

    /// An empty map.
    pub fn new() -> (m: Self)
        ensures
            m@ == Entries::<V::V>::empty(),
            m.wf(),
    {
        let m = NameMap { entries: Vec::new() };
        assert(m@ =~= Entries::<V::V>::empty());
        m
    }

    /// Number of entries.
    pub fn len(&self) -> (n: usize)
        ensures
            n == self@.len(),
    {
        self.entries.len()
    }

    /// The map has no entries.
    pub fn is_empty(&self) -> (b: bool)
        ensures
            b == (self@.len() == 0),
    {
        self.entries.len() == 0
    }

    /// Position of a name, or the length when it is absent.
    pub fn find(&self, key: &Vec<char>) -> (i: usize)
        ensures
            i == position(self@, key@),
            i <= self@.len(),
    {
        let mut i: usize = 0;
        while i < self.entries.len()
            invariant
                i <= self.entries.len(),
                forall|j: int| 0 <= j < i ==> self@[j].0 != key@,
            decreases self.entries.len() - i,
        {
            let k = chars_of_string(&self.entries[i].0);
            if eq_chars(&k, key) {
                proof {
                    lemma_position(self@, key@, i as int);
                }
                return i;
            }
            i = i + 1;
        }
        proof {
            lemma_position(self@, key@, i as int);
        }
        i
    }

    /// Position of the name given as a string slice.
    pub fn find_str(&self, key: &str) -> (i: usize)
        ensures
            i == position(self@, key@),
            i <= self@.len(),
    {
        let k = chars_of(key);
        self.find(&k)
    }

    /// The value bound to a name.
    pub fn get(&self, key: &str) -> (r: Option<&V>)
        ensures
            r matches Some(v) ==> lookup(self@, key@) == Some(v@),
            r is None ==> lookup(self@, key@) is None,
    {
        let i = self.find_str(key);
        if i < self.entries.len() {
            Some(&self.entries[i].1)
        } else {
            None
        }
    }

    /// The name is bound.
    pub fn contains_key(&self, key: &str) -> (b: bool)
        ensures
            b == has_name(self@, key@),
    {
        let i = self.find_str(key);
        i < self.entries.len()
    }

    /// The name of the entry at a position.
    pub fn name_at(&self, i: usize) -> (k: &String)
        requires
            i < self@.len(),
        ensures
            k@ == self@[i as int].0,
    {
        &self.entries[i].0
    }

    /// The value of the entry at a position.
    pub fn value_at(&self, i: usize) -> (v: &V)
        requires
            i < self@.len(),
        ensures
            v@ == self@[i as int].1,
    {
        &self.entries[i].1
    }

    /// Takes the entry at a position out of the map, leaving the others in
    /// order; `put_at` puts it back.
    pub(crate) fn take_at(&mut self, i: usize) -> (e: (String, V))
        requires
            i < old(self)@.len(),
        ensures
            final(self)@ == old(self)@.remove(i as int),
            (e.0@, e.1@) == old(self)@[i as int],
    {
        let e = self.entries.remove(i);
        assert(self@ =~= old(self)@.remove(i as int));
        e
    }

    /// Puts an entry back at a position.
    pub(crate) fn put_at(&mut self, i: usize, name: String, value: V)
        requires
            i <= old(self)@.len(),
        ensures
            final(self)@ == old(self)@.insert(i as int, (name@, value@)),
    {
        self.entries.insert(i, (name, value));
        assert(self@ =~= old(self)@.insert(i as int, (name@, value@)));
    }

    /// Binds a name to a value, replacing what it was bound to.
    pub fn insert(&mut self, name: String, value: V)
        requires
            old(self).wf(),
        ensures
            final(self)@ == insert_entry(old(self)@, name@, value@),
            final(self).wf(),
    {
        let key = chars_of_string(&name);
        let mut i: usize = 0;
        while i < self.entries.len() && chars_lt(&chars_of_string(&self.entries[i].0), &key)
            invariant
                i <= self.entries.len(),
                key@ == name@,
                forall|j: int| 0 <= j < i ==> text_lt(self@[j].0, key@),
            decreases self.entries.len() - i,
        {
            i = i + 1;
        }
        proof {
            lemma_lower_bound(self@, key@, i as int);
            lemma_insert_entry(self@, name@, value@);
        }
        if i < self.entries.len() {
            let k = chars_of_string(&self.entries[i].0);
            if eq_chars(&k, &key) {
                self.entries.set(i, (name, value));
                assert(self@ =~= insert_entry(old(self)@, name@, value@));
                return ;
            }
        }
        self.entries.insert(i, (name, value));
        assert(self@ =~= insert_entry(old(self)@, name@, value@));
    }
}

} // verus!
