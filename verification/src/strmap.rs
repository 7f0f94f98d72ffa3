//! An ordered map from strings to values, kept as a vector of entries sorted
//! strictly by key. It replaces the standard ordered map for the property and
//! parameter stores: keys are unique, lookups are by string equality, and
//! iteration (and therefore serialization) runs in code-point order of the
//! keys.

use vstd::prelude::*;
use vstd::std_specs::vec::vec_index;

use crate::chars::lemma_lex_trans;
use crate::chars::lemma_lex_trichotomy;
use crate::chars::lex_lt;
use crate::chars::str_eq;
use crate::chars::str_lt;

verus! {

broadcast use vstd::seq::group_seq_axioms;

/// The entries' keys are strictly increasing, so every key occurs once.
pub open spec fn entries_sorted<V>(m: Seq<(Seq<char>, V)>) -> bool {
    forall|i: int, j: int| 0 <= i < j < m.len() ==> lex_lt(m[i].0, m[j].0)
}

/// Whether some entry holds the key `k`.
pub open spec fn has_key<V>(m: Seq<(Seq<char>, V)>, k: Seq<char>) -> bool {
    exists|i: int| 0 <= i < m.len() && m[i].0 == k
}

/// The index of the entry holding key `k`, if any.
pub open spec fn key_idx<V>(m: Seq<(Seq<char>, V)>, k: Seq<char>) -> int {
    choose|i: int| 0 <= i < m.len() && m[i].0 == k
}

/// The value stored under `k`, if any.
pub open spec fn map_val<V>(m: Seq<(Seq<char>, V)>, k: Seq<char>) -> Option<V> {
    if has_key(m, k) {
        Some(m[key_idx(m, k)].1)
    } else {
        None
    }
}

/// How many entries have keys lexicographically before `k`; in a sorted map
/// this is where `k` lives or would be inserted.
pub open spec fn num_lt<V>(m: Seq<(Seq<char>, V)>, k: Seq<char>) -> int
    decreases m.len(),
{
    if m.len() == 0 {
        0
    } else {
        (if lex_lt(m[0].0, k) {
            1int
        } else {
            0int
        }) + num_lt(m.drop_first(), k)
    }
}

/// The map after binding `k` to `v`: an existing entry is overwritten in
/// place, a new one enters at its sorted position.
pub open spec fn map_insert<V>(m: Seq<(Seq<char>, V)>, k: Seq<char>, v: V) -> Seq<
    (Seq<char>, V),
> {
    if has_key(m, k) {
        m.update(key_idx(m, k), (k, v))
    } else {
        m.insert(num_lt(m, k), (k, v))
    }
}

/// In a sorted map each key occurs at one index only.
pub proof fn lemma_sorted_key_unique<V>(m: Seq<(Seq<char>, V)>, i: int, j: int)
    requires
        entries_sorted(m),
        0 <= i < m.len(),
        0 <= j < m.len(),
        m[i].0 == m[j].0,
    ensures
        i == j,
{
    if i < j {
        lemma_lex_trichotomy(m[i].0, m[j].0);
    }
    if j < i {
        lemma_lex_trichotomy(m[j].0, m[i].0);
    }
}

/// In a sorted map, scanning up to the first key not before `k` finds `k`'s
/// position: that prefix length equals `num_lt`, and `k` is present exactly
/// when it sits right there.
pub proof fn lemma_scan_position<V>(m: Seq<(Seq<char>, V)>, k: Seq<char>, i: int)
    requires
        entries_sorted(m),
        0 <= i <= m.len(),
        forall|j: int| 0 <= j < i ==> lex_lt(m[j].0, k),
        i < m.len() ==> !lex_lt(m[i].0, k),
    ensures
        num_lt(m, k) == i,
        has_key(m, k) == (i < m.len() && m[i].0 == k),
        (i < m.len() && m[i].0 == k) ==> key_idx(m, k) == i,
    decreases m.len(),
{
    if m.len() == 0 {
    } else if i == 0 {
        assert forall|j: int| 0 <= j < m.len() implies !lex_lt(m[j].0, k) by {
            if j > 0 && lex_lt(m[j].0, k) {
                lemma_lex_trichotomy(m[0].0, k);
                if m[0].0 == k {
                    lemma_lex_trans(k, m[j].0, k);
                    lemma_lex_trichotomy(k, k);
                } else {
                    lemma_lex_trans(k, m[0].0, m[j].0);
                    lemma_lex_trichotomy(m[j].0, k);
                }
            }
        }
        lemma_num_lt_none(m, k);
        if m[0].0 == k {
            assert(has_key(m, k));
            lemma_sorted_key_unique(m, key_idx(m, k), 0);
        } else {
            assert forall|j: int| 0 <= j < m.len() implies m[j].0 != k by {
                if j > 0 && m[j].0 == k {
                    lemma_lex_trichotomy(m[0].0, m[j].0);
                    lemma_lex_trichotomy(m[0].0, k);
                }
            }
        }
    } else {
        let t = m.drop_first();
        assert(entries_sorted(t)) by {
            assert forall|p: int, q: int| 0 <= p < q < t.len() implies lex_lt(t[p].0, t[q].0) by {
                assert(t[p] == m[p + 1]);
                assert(t[q] == m[q + 1]);
            }
        }
        assert forall|j: int| 0 <= j < i - 1 implies lex_lt(t[j].0, k) by {
            assert(t[j] == m[j + 1]);
        }
        if i - 1 < t.len() {
            assert(t[i - 1] == m[i]);
        }
        lemma_scan_position(t, k, i - 1);
        if i < m.len() && m[i].0 == k {
            assert(has_key(m, k));
            lemma_sorted_key_unique(m, key_idx(m, k), i);
        } else {
            if has_key(m, k) {
                let w = key_idx(m, k);
                assert(0 <= w < m.len() && m[w].0 == k);
                if w == 0 {
                    lemma_lex_trichotomy(m[0].0, k);
                } else {
                    assert(t[w - 1] == m[w]);
                    assert(has_key(t, k));
                }
            }
        }
    }
}

/// When no key is before `k`, nothing counts.
proof fn lemma_num_lt_none<V>(m: Seq<(Seq<char>, V)>, k: Seq<char>)
    requires
        forall|j: int| 0 <= j < m.len() ==> !lex_lt(m[j].0, k),
    ensures
        num_lt(m, k) == 0,
    decreases m.len(),
{
    if m.len() > 0 {
        let t = m.drop_first();
        assert forall|j: int| 0 <= j < t.len() implies !lex_lt(t[j].0, k) by {
            assert(t[j] == m[j + 1]);
        }
        lemma_num_lt_none(t, k);
    }
}

/// In a sorted map, `num_lt` splits the entries: keys before it are below
/// `k`, keys at or after it are not.
pub proof fn lemma_num_lt_bounds<V>(m: Seq<(Seq<char>, V)>, k: Seq<char>)
    requires
        entries_sorted(m),
    ensures
        0 <= num_lt(m, k) <= m.len(),
        forall|j: int| 0 <= j < num_lt(m, k) ==> lex_lt(m[j].0, k),
        forall|j: int| num_lt(m, k) <= j < m.len() ==> !lex_lt(m[j].0, k),
    decreases m.len(),
{
    if m.len() > 0 {
        let t = m.drop_first();
        assert(entries_sorted(t)) by {
            assert forall|p: int, q: int| 0 <= p < q < t.len() implies lex_lt(t[p].0, t[q].0) by {
                assert(t[p] == m[p + 1]);
                assert(t[q] == m[q + 1]);
            }
        }
        if lex_lt(m[0].0, k) {
            lemma_num_lt_bounds(t, k);
            assert forall|j: int| 0 <= j < num_lt(m, k) implies lex_lt(m[j].0, k) by {
                if j > 0 {
                    assert(t[j - 1] == m[j]);
                }
            }
            assert forall|j: int| num_lt(m, k) <= j < m.len() implies !lex_lt(m[j].0, k) by {
                assert(t[j - 1] == m[j]);
            }
        } else {
            assert forall|j: int| 0 <= j < m.len() implies !lex_lt(m[j].0, k) by {
                if j > 0 && lex_lt(m[j].0, k) {
                    lemma_lex_trichotomy(m[0].0, k);
                    if m[0].0 == k {
                        lemma_lex_trans(k, m[j].0, k);
                        lemma_lex_trichotomy(k, k);
                    } else {
                        lemma_lex_trans(k, m[0].0, m[j].0);
                        lemma_lex_trichotomy(m[j].0, k);
                    }
                }
            }
            lemma_num_lt_none(m, k);
        }
    }
}

/// Binding a key keeps the entries sorted.
pub proof fn lemma_map_insert_sorted<V>(m: Seq<(Seq<char>, V)>, k: Seq<char>, v: V)
    requires
        entries_sorted(m),
    ensures
        entries_sorted(map_insert(m, k, v)),
{
    if has_key(m, k) {
        let i = key_idx(m, k);
        let r = m.update(i, (k, v));
        assert forall|p: int, q: int| 0 <= p < q < r.len() implies lex_lt(r[p].0, r[q].0) by {
            assert(m[i].0 == k);
            assert(r[p].0 == m[p].0);
            assert(r[q].0 == m[q].0);
        }
    } else {
        let n = num_lt(m, k);
        lemma_num_lt_bounds(m, k);
        let r = m.insert(n, (k, v));
        assert forall|p: int, q: int| 0 <= p < q < r.len() implies lex_lt(r[p].0, r[q].0) by {
            if q < n {
                assert(r[p].0 == m[p].0);
                assert(r[q].0 == m[q].0);
            } else if p > n {
                assert(r[p].0 == m[p - 1].0);
                assert(r[q].0 == m[q - 1].0);
            } else if p < n && q == n {
                assert(r[p].0 == m[p].0);
            } else if p < n && q > n {
                assert(r[p].0 == m[p].0);
                assert(r[q].0 == m[q - 1].0);
            } else if p == n {
                assert(r[q].0 == m[q - 1].0);
                assert(!lex_lt(m[q - 1].0, k));
                assert(m[q - 1].0 != k);
                lemma_lex_trichotomy(m[q - 1].0, k);
            }
        }
    }
}

/// Removing an entry keeps the remaining entries sorted.
pub proof fn lemma_remove_sorted<V>(m: Seq<(Seq<char>, V)>, i: int)
    requires
        entries_sorted(m),
        0 <= i < m.len(),
    ensures
        entries_sorted(m.remove(i)),
{
    let r = m.remove(i);
    assert forall|p: int, q: int| 0 <= p < q < r.len() implies lex_lt(r[p].0, r[q].0) by {
        let p0 = if p < i {
            p
        } else {
            p + 1
        };
        let q0 = if q < i {
            q
        } else {
            q + 1
        };
        assert(r[p] == m[p0]);
        assert(r[q] == m[q0]);
    }
}

/// A map from strings to values, iterated in code-point order of its keys.
#[derive(Debug, PartialEq, Eq)]
pub struct StrMap<T> {
    entries: Vec<(String, T)>,
}

impl<T: DeepView> View for StrMap<T> {
    type V = Seq<(Seq<char>, <T as DeepView>::V)>;

    /// The entries with both keys and values abstracted to their views.
    closed spec fn view(&self) -> Seq<(Seq<char>, <T as DeepView>::V)> {
        self.entries.deep_view()
    }
}

impl<T: DeepView> DeepView for StrMap<T> {
    type V = Seq<(Seq<char>, <T as DeepView>::V)>;

    open spec fn deep_view(&self) -> Seq<(Seq<char>, <T as DeepView>::V)> {
        self.view()
    }
}

impl<T: DeepView> StrMap<T> {
    /// The empty map.
    pub fn new() -> (m: StrMap<T>)
        ensures
            m@.len() == 0,
            entries_sorted(m@),
    {
        StrMap { entries: Vec::new() }
    }

    /// Number of entries.
    pub fn len(&self) -> (n: usize)
        ensures
            n == self@.len(),
    {
        self.entries.len()
    }

    /// Index of the entry for `name`, scanning in order.
    pub fn find(&self, name: &str) -> (r: Option<usize>)
        ensures
            match r {
                Some(i) => i < self@.len() && self@[i as int].0 == name@,
                None => !has_key(self@, name@),
            },
    {
        let n = self.entries.len();
        let mut i: usize = 0;
        while i < n
            invariant
                n == self@.len(),
                i <= n,
                forall|j: int| 0 <= j < i ==> self@[j].0 != name@,
            decreases n - i,
        {
            let e = vec_index(&self.entries, i);
            if str_eq(e.0.as_str(), name) {
                return Some(i);
            }
            i = i + 1;
        }
        None
    }

    /// The key of the entry at `i`.
    pub fn key_at(&self, i: usize) -> (k: &String)
        requires
            i < self@.len(),
        ensures
            k@ == self@[i as int].0,
    {
        &vec_index(&self.entries, i).0
    }

    /// The value of the entry at `i`.
    pub fn value_at(&self, i: usize) -> (v: &T)
        requires
            i < self@.len(),
        ensures
            v.deep_view() == self@[i as int].1,
    {
        &vec_index(&self.entries, i).1
    }

    /// The value stored under `name`, if any.
    pub fn get(&self, name: &str) -> (r: Option<&T>)
        requires
            entries_sorted(self@),
        ensures
            match r {
                Some(v) => map_val(self@, name@) == Some(v.deep_view()),
                None => !has_key(self@, name@),
            },
    {
        match self.find(name) {
            Some(i) => {
                proof {
                    lemma_sorted_key_unique(self@, key_idx(self@, name@), i as int);
                }
                Some(&vec_index(&self.entries, i).1)
            }
            None => None,
        }
    }

    /// Takes the whole entry at `i` out of the map.
    pub fn take_at(&mut self, i: usize) -> (e: (String, T))
        requires
            i < old(self)@.len(),
        ensures
            e.0@ == old(self)@[i as int].0,
            e.1.deep_view() == old(self)@[i as int].1,
            final(self)@ == old(self)@.remove(i as int),
    {
        let e = self.entries.remove(i);
        proof {
            assert(final(self)@ =~= old(self)@.remove(i as int));
        }
        e
    }

    /// Puts an entry back at position `i`.
    pub fn put_at(&mut self, i: usize, e: (String, T))
        requires
            i <= old(self)@.len(),
        ensures
            final(self)@ == old(self)@.insert(i as int, (e.0@, e.1.deep_view())),
    {
        self.entries.insert(i, e);
        proof {
            assert(final(self)@ =~= old(self)@.insert(i as int, (e.0@, e.1.deep_view())));
        }
    }

    /// Binds `key` to `value`; an existing binding for the key is replaced,
    /// otherwise the entry enters at its sorted position.
    pub fn insert(&mut self, key: String, value: T)
        requires
            entries_sorted(old(self)@),
        ensures
            final(self)@ == map_insert(old(self)@, key@, value.deep_view()),
            entries_sorted(final(self)@),
    {
        let ghost m = self@;
        let ghost k = key@;
        let n = self.entries.len();
        let mut i: usize = 0;
        loop
            invariant
                self == old(self),
                n == m.len(),
                i <= n,
                k == key@,
                m == self@,
                forall|j: int| 0 <= j < i ==> lex_lt(m[j].0, k),
            ensures
                i <= n,
                forall|j: int| 0 <= j < i ==> lex_lt(m[j].0, k),
                i < n ==> !lex_lt(m[i as int].0, k),
            decreases n - i,
        {
            if i >= n {
                break ;
            }
            let e = vec_index(&self.entries, i);
            if !str_lt(e.0.as_str(), key.as_str()) {
                break ;
            }
            i = i + 1;
        }
        proof {
            lemma_scan_position(m, k, i as int);
        }
        if i < n && str_eq(vec_index(&self.entries, i).0.as_str(), key.as_str()) {
            let _ = self.entries.remove(i);
            self.entries.insert(i, (key, value));
            proof {
                assert(self@ =~= m.update(i as int, (k, value.deep_view())));
                assert forall|p: int, q: int| 0 <= p < q < self@.len() implies lex_lt(
                    self@[p].0,
                    self@[q].0,
                ) by {
                    assert(self@[p].0 == m[p].0);
                    assert(self@[q].0 == m[q].0);
                }
            }
        } else {
            proof {
                if i < n {
                    lemma_lex_trichotomy(m[i as int].0, k);
                }
            }
            self.entries.insert(i, (key, value));
            proof {
                assert(self@ =~= m.insert(i as int, (k, value.deep_view())));
                assert(!has_key(m, k));
                assert forall|p: int, q: int| 0 <= p < q < self@.len() implies lex_lt(
                    self@[p].0,
                    self@[q].0,
                ) by {
                    if q < i {
                        assert(self@[p].0 == m[p].0);
                        assert(self@[q].0 == m[q].0);
                    } else if p > i {
                        assert(self@[p].0 == m[p - 1].0);
                        assert(self@[q].0 == m[q - 1].0);
                    } else if p < i && q == i {
                        assert(self@[p].0 == m[p].0);
                    } else if p < i && q > i {
                        assert(self@[p].0 == m[p].0);
                        assert(self@[q].0 == m[q - 1].0);
                    } else if p == i {
                        assert(self@[q].0 == m[q - 1].0);
                        if i < n && (q - 1) > i {
                            lemma_lex_trans(k, m[i as int].0, m[q - 1].0);
                        }
                    }
                }
            }
        }
    }
}

impl StrMap<String> {
    /// A copy holding equal keys and equal string values.
    pub fn duplicate(&self) -> (m: StrMap<String>)
        ensures
            m@ == self@,
    {
        let n = self.entries.len();
        let mut out: Vec<(String, String)> = Vec::new();
        let mut i: usize = 0;
        while i < n
            invariant
                n == self.entries@.len(),
                i <= n,
                out@.len() == i,
                forall|k: int| 0 <= k < i ==> out@[k].deep_view() == self.entries@[k].deep_view(),
            decreases n - i,
        {
            let ghost prev = out@;
            let e = vec_index(&self.entries, i);
            let ke = e.0.clone();
            let ve = e.1.clone();
            out.push((ke, ve));
            i = i + 1;
            proof {
                assert(out@ == prev.push((ke, ve)));
                assert((ke, ve).deep_view() == ((ke@, ve@)));
                assert(self.entries@[i - 1].deep_view() == ((self.entries@[i - 1].0@, self.entries@[
                    i - 1].1@)));
                assert(out@[i - 1] == ((ke, ve)));
            }
        }
        let m = StrMap { entries: out };
        proof {
            assert forall|k: int| 0 <= k < m@.len() implies m@[k] == self@[k] by {
                assert(m@[k] == out@[k].deep_view());
                assert(self@[k] == self.entries@[k].deep_view());
            }
            assert(m@ =~~= self@);
        }
        m
    }
}

} // verus!
