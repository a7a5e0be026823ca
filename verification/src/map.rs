//! A map from text keys to values that keeps its keys in ascending order, as a
//! `BTreeMap<String, V>` does.
use vstd::prelude::*;
use crate::text::{chars_eq, str_chars};

verus! {

/// `a` sorts before `b`: the order of `String` (by code points, a proper prefix first).
pub open spec fn seq_lt(a: Seq<char>, b: Seq<char>) -> bool
    decreases a.len(),
{
    if a.len() == 0 {
        b.len() > 0
    } else if b.len() == 0 {
        false
    } else if a[0] != b[0] {
        (a[0] as u32) < (b[0] as u32)
    } else {
        seq_lt(a.drop_first(), b.drop_first())
    }
}

pub proof fn lemma_seq_lt_irreflexive(a: Seq<char>)
    ensures
        !seq_lt(a, a),
    decreases a.len(),
{
    if a.len() > 0 {
        lemma_seq_lt_irreflexive(a.drop_first());
    }
}

pub proof fn lemma_seq_lt_total(a: Seq<char>, b: Seq<char>)
    ensures
        a != b ==> seq_lt(a, b) || seq_lt(b, a),
        !(seq_lt(a, b) && seq_lt(b, a)),
    decreases a.len(),
{
    if a.len() > 0 && b.len() > 0 {
        lemma_seq_lt_total(a.drop_first(), b.drop_first());
        if a[0] == b[0] && a != b {
            assert(a =~= seq![a[0]] + a.drop_first());
            assert(b =~= seq![b[0]] + b.drop_first());
        }
        if a[0] != b[0] {
            vstd::utf8::char_is_scalar(a[0]);
            assert((a[0] as u32) != (b[0] as u32)) by {
                if (a[0] as u32) == (b[0] as u32) {
                    vstd::utf8::char_u32_cast(a[0], a[0] as u32);
                    vstd::utf8::char_u32_cast(b[0], b[0] as u32);
                }
            }
        }
    } else if a.len() == 0 && b.len() == 0 {
        assert(a =~= b);
    }
}

pub proof fn lemma_seq_lt_transitive(a: Seq<char>, b: Seq<char>, c: Seq<char>)
    requires
        seq_lt(a, b),
        seq_lt(b, c),
    ensures
        seq_lt(a, c),
    decreases a.len(),
{
    if a.len() > 0 && b.len() > 0 && c.len() > 0 {
        if a[0] == b[0] && b[0] == c[0] {
            lemma_seq_lt_transitive(a.drop_first(), b.drop_first(), c.drop_first());
        }
    }
}

/// Keys in strictly ascending order (so no key occurs twice).
pub open spec fn sorted_keys<W>(m: Seq<(Seq<char>, W)>) -> bool {
    forall|i: int, j: int| 0 <= i < j < m.len() ==> seq_lt(#[trigger] m[i].0, #[trigger] m[j].0)
}

/// `m` with `k` mapped to `v`: the value of an equal key is replaced, otherwise the pair
/// goes before the first greater key.
pub open spec fn assoc_insert<W>(m: Seq<(Seq<char>, W)>, k: Seq<char>, v: W) -> Seq<
    (Seq<char>, W),
>
    decreases m.len(),
{
    if m.len() == 0 {
        seq![(k, v)]
    } else if m[0].0 == k {
        seq![(k, v)] + m.drop_first()
    } else if seq_lt(k, m[0].0) {
        seq![(k, v)] + m
    } else {
        seq![m[0]] + assoc_insert(m.drop_first(), k, v)
    }
}

/// The value of the first pair with key `k`.
pub open spec fn assoc_get<W>(m: Seq<(Seq<char>, W)>, k: Seq<char>) -> Option<W>
    decreases m.len(),
{
    if m.len() == 0 {
        None
    } else if m[0].0 == k {
        Some(m[0].1)
    } else {
        assoc_get(m.drop_first(), k)
    }
}

/// Inserting keeps the keys sorted; afterwards `k` maps to `v` and every other key to what
/// it mapped to before.
pub proof fn law_assoc_insert<W>(m: Seq<(Seq<char>, W)>, k: Seq<char>, v: W)
    requires
        sorted_keys(m),
    ensures
        sorted_keys(assoc_insert(m, k, v)),
        assoc_get(assoc_insert(m, k, v), k) == Some(v),
        forall|k2: Seq<char>| k2 != k ==> assoc_get(assoc_insert(m, k, v), k2) == assoc_get(m, k2),
        forall|i: int|
            0 <= i < assoc_insert(m, k, v).len() ==> (#[trigger] assoc_insert(m, k, v)[i]).0 == k
                || exists|j: int| 0 <= j < m.len() && m[j].0 == assoc_insert(m, k, v)[i].0,
    decreases m.len(),
{
    let r = assoc_insert(m, k, v);
    if m.len() == 0 {
        assert forall|k2: Seq<char>| k2 != k implies assoc_get(r, k2) == assoc_get(m, k2) by {
            assert(assoc_get(r, k2) == assoc_get(r.drop_first(), k2));
        }
    } else if m[0].0 == k {
        let t = m.drop_first();
        assert forall|i: int, j: int| 0 <= i < j < r.len() implies seq_lt(
            #[trigger] r[i].0,
            #[trigger] r[j].0,
        ) by {
            assert(m[j].0 == r[j].0);
            if i > 0 {
                assert(m[i].0 == r[i].0);
            }
        }
        assert forall|k2: Seq<char>| k2 != k implies assoc_get(r, k2) == assoc_get(m, k2) by {
            assert(r.drop_first() =~= t);
        }
        assert forall|i: int| 0 <= i < r.len() implies (#[trigger] r[i]).0 == k || exists|
            j: int,
        |
            0 <= j < m.len() && m[j].0 == r[i].0 by {
            if i > 0 {
                assert(m[i].0 == r[i].0);
            }
        }
    } else if seq_lt(k, m[0].0) {
        assert forall|i: int, j: int| 0 <= i < j < r.len() implies seq_lt(
            #[trigger] r[i].0,
            #[trigger] r[j].0,
        ) by {
            assert(r[j] == m[j - 1]);
            if i > 0 {
                assert(r[i] == m[i - 1]);
            } else if j - 1 > 0 {
                lemma_seq_lt_transitive(k, m[0].0, m[j - 1].0);
            }
        }
        assert(r.drop_first() =~= m);
        assert forall|k2: Seq<char>| k2 != k implies assoc_get(r, k2) == assoc_get(m, k2) by {}
        assert forall|i: int| 0 <= i < r.len() implies (#[trigger] r[i]).0 == k || exists|
            j: int,
        |
            0 <= j < m.len() && m[j].0 == r[i].0 by {
            if i > 0 {
                assert(r[i] == m[i - 1]);
            }
        }
    } else {
        let t = m.drop_first();
        assert(sorted_keys(t)) by {
            assert forall|i: int, j: int| 0 <= i < j < t.len() implies seq_lt(
                #[trigger] t[i].0,
                #[trigger] t[j].0,
            ) by {
                assert(t[i] == m[i + 1]);
                assert(t[j] == m[j + 1]);
            }
        }
        law_assoc_insert(t, k, v);
        let rt = assoc_insert(t, k, v);
        assert(r.drop_first() =~= rt);
        lemma_seq_lt_total(k, m[0].0);
        assert forall|i: int, j: int| 0 <= i < j < r.len() implies seq_lt(
            #[trigger] r[i].0,
            #[trigger] r[j].0,
        ) by {
            assert(r[j] == rt[j - 1]);
            if i > 0 {
                assert(r[i] == rt[i - 1]);
            } else {
                assert(r[0] == m[0]);
                if rt[j - 1].0 != k {
                    let jj = choose|jj: int| 0 <= jj < t.len() && t[jj].0 == rt[j - 1].0;
                    assert(t[jj] == m[jj + 1]);
                }
            }
        }
        lemma_seq_lt_irreflexive(k);
        assert forall|k2: Seq<char>| k2 != k implies assoc_get(r, k2) == assoc_get(m, k2) by {
            assert(r[0] == m[0]);
            if m[0].0 != k2 {
                assert(assoc_get(r, k2) == assoc_get(r.drop_first(), k2));
                assert(assoc_get(m, k2) == assoc_get(t, k2));
                assert(assoc_get(rt, k2) == assoc_get(t, k2));
            }
        }
        assert forall|i: int| 0 <= i < r.len() implies (#[trigger] r[i]).0 == k || exists|
            j: int,
        |
            0 <= j < m.len() && m[j].0 == r[i].0 by {
            if i > 0 {
                assert(r[i] == rt[i - 1]);
                if rt[i - 1].0 != k {
                    let jj = choose|jj: int| 0 <= jj < t.len() && t[jj].0 == rt[i - 1].0;
                    assert(t[jj] == m[jj + 1]);
                }
            }
        }
    }
}

/// Whether `a` sorts before `b`.
pub fn chars_lt(a: &[char], b: &[char]) -> (r: bool)
    ensures
        r == seq_lt(a@, b@),
{
    let mut i: usize = 0;
    assert(a@.skip(0) =~= a@);
    assert(b@.skip(0) =~= b@);
    while i < a.len() && i < b.len() && a[i] == b[i]
        invariant
            i <= a.len(),
            i <= b.len(),
            seq_lt(a@, b@) == seq_lt(a@.skip(i as int), b@.skip(i as int)),
        decreases a.len() - i,
    {
        assert(a@.skip(i as int).drop_first() =~= a@.skip(i + 1));
        assert(b@.skip(i as int).drop_first() =~= b@.skip(i + 1));
        i = i + 1;
    }
    if i == a.len() {
        i < b.len()
    } else if i == b.len() {
        false
    } else {
        (a[i] as u32) < (b[i] as u32)
    }
}

/// A map from text keys to values, iterated in ascending key order.
#[derive(Debug, Clone, PartialEq, Eq)]
pub struct StrMap<V> {
    entries: Vec<(String, V)>,
}

impl<V: DeepView> DeepView for StrMap<V> {
    type V = Seq<(Seq<char>, V::V)>;

    open spec fn deep_view(&self) -> Seq<(Seq<char>, V::V)> {
        self.entries_view()
    }
}

impl<V: DeepView> View for StrMap<V> {
    type V = Seq<(Seq<char>, V::V)>;

    open spec fn view(&self) -> Seq<(Seq<char>, V::V)> {
        self.entries_view()
    }
}

impl<V: DeepView> StrMap<V> {
    /// The pairs, each key and value by its view, in order.
    pub closed spec fn entries_view(&self) -> Seq<(Seq<char>, V::V)> {
        self.entries@.map_values(|e: (String, V)| (e.0@, e.1.deep_view()))
    }

    /// An empty map.
    pub fn new() -> (m: Self)
        ensures
            m@ == Seq::<(Seq<char>, V::V)>::empty(),
    {
        let m = StrMap { entries: Vec::new() };
        assert(m.entries_view() =~= Seq::<(Seq<char>, V::V)>::empty());
        m
    }

    /// The number of keys.
    pub fn len(&self) -> (n: usize)
        ensures
            n == self@.len(),
    {
        self.entries.len()
    }

    /// Whether the map holds no key.
    pub fn is_empty(&self) -> (b: bool)
        ensures
            b == (self@.len() == 0),
    {
        self.entries.len() == 0
    }

    /// The key of the `i`-th pair in ascending order.
    pub fn key_at(&self, i: usize) -> (k: &String)
        requires
            i < self@.len(),
        ensures
            k@ == self@[i as int].0,
    {
        &self.entries[i].0
    }

    /// The value of the `i`-th pair in ascending order.
    pub fn value_at(&self, i: usize) -> (v: &V)
        requires
            i < self@.len(),
        ensures
            v.deep_view() == self@[i as int].1,
    {
        &self.entries[i].1
    }

    /// Maps `key` to `value`, replacing the value of an equal key.
    pub fn insert(&mut self, key: String, value: V)
        ensures
            final(self)@ == assoc_insert(old(self)@, key@, value.deep_view()),
    {
        let kc = str_chars(key.as_str());
        let ghost m = old(self)@;
        let mut i: usize = 0;
        assert(m.skip(0) =~= m);
        assert(m.take(0) + assoc_insert(m, key@, value.deep_view()) =~= assoc_insert(
            m,
            key@,
            value.deep_view(),
        ));
        while i < self.entries.len()
            invariant
                self@ == m,
                m == old(self)@,
                i <= self.entries.len(),
                kc@ == key@,
                assoc_insert(m, key@, value.deep_view()) == m.take(i as int) + assoc_insert(
                    m.skip(i as int),
                    key@,
                    value.deep_view(),
                ),
            decreases self.entries.len() - i,
        {
            let ghost rest = m.skip(i as int);
            assert(rest[0] == m[i as int]);
            let ec = str_chars(self.entries[i].0.as_str());
            assert(ec@ == m[i as int].0);
            if chars_eq(&ec, &kc) {
                let ghost old_entries = self.entries@;
                self.entries.set(i, (key, value));
                proof {
                    assert(rest.drop_first() =~= m.skip(i + 1));
                    assert(self@ =~= m.take(i as int) + assoc_insert(rest, key@, value.deep_view()))
                        by {
                        assert forall|j: int| 0 <= j < self@.len() implies self@[j] == (m.take(
                            i as int,
                        ) + assoc_insert(rest, key@, value.deep_view()))[j] by {
                            if j != i {
                                assert(self.entries@[j] == old_entries[j]);
                            }
                        }
                    }
                    assert(self@ == assoc_insert(m, key@, value.deep_view()));
                }
                return ;
            }
            if chars_lt(&kc, &ec) {
                let ghost old_entries = self.entries@;
                self.entries.insert(i, (key, value));
                proof {
                    assert(self@ =~= m.take(i as int) + assoc_insert(rest, key@, value.deep_view()))
                        by {
                        assert forall|j: int| 0 <= j < self@.len() implies self@[j] == (m.take(
                            i as int,
                        ) + assoc_insert(rest, key@, value.deep_view()))[j] by {
                            if j < i {
                                assert(self.entries@[j] == old_entries[j]);
                            } else if j > i {
                                assert(self.entries@[j] == old_entries[j - 1]);
                            }
                        }
                    }
                    assert(self@ == assoc_insert(m, key@, value.deep_view()));
                }
                return ;
            }
            assert(rest.drop_first() =~= m.skip(i + 1));
            assert(m.take(i + 1) =~= m.take(i as int).push(m[i as int]));
            assert(m.take(i as int) + assoc_insert(rest, key@, value.deep_view()) =~= m.take(
                i + 1,
            ) + assoc_insert(m.skip(i + 1), key@, value.deep_view()));
            i = i + 1;
        }
        let ghost old_entries = self.entries@;
        self.entries.push((key, value));
        proof {
            assert(m.skip(i as int) =~= Seq::<(Seq<char>, V::V)>::empty());
            assert(m.take(i as int) =~= m);
            assert(self@ =~= m + seq![(key@, value.deep_view())]) by {
                assert forall|j: int| 0 <= j < self@.len() implies self@[j] == (m + seq![
                    (key@, value.deep_view()),
                ])[j] by {
                    if j < i {
                        assert(self.entries@[j] == old_entries[j]);
                    }
                }
            }
        }
    }

    /// The value of `key`.
    pub fn get(&self, key: &str) -> (r: Option<&V>)
        ensures
            r matches Some(v) ==> assoc_get(self@, key@) == Some(v.deep_view()),
            r is None ==> assoc_get(self@, key@) is None,
    {
        let kc = str_chars(key);
        let mut i: usize = 0;
        assert(self@.skip(0) =~= self@);
        while i < self.entries.len()
            invariant
                i <= self.entries.len(),
                kc@ == key@,
                assoc_get(self@, key@) == assoc_get(self@.skip(i as int), key@),
            decreases self.entries.len() - i,
        {
            let ghost rest = self@.skip(i as int);
            assert(rest[0] == self@[i as int]);
            assert(rest.drop_first() =~= self@.skip(i + 1));
            let ec = str_chars(self.entries[i].0.as_str());
            if chars_eq(&ec, &kc) {
                return Some(&self.entries[i].1);
            }
            i = i + 1;
        }
        None
    }
}

} // verus!
