// Ordered maps and sets keyed by strings, iterated in key order.

use vstd::prelude::*;

verus! {

/// Strict lexicographic order on character sequences (code point by code point),
/// which is the order `String`'s `Ord` gives.
pub open spec fn seq_lt(a: Seq<char>, b: Seq<char>) -> bool
    decreases a.len(),
{
    if a.len() == 0 {
        b.len() > 0
    } else if b.len() == 0 {
        false
    } else if a[0] != b[0] {
        a[0] < b[0]
    } else {
        seq_lt(a.drop_first(), b.drop_first())
    }
}

pub proof fn lemma_seq_lt_irreflexive(a: Seq<char>)
    ensures
        !seq_lt(a, a),
    decreases a.len(),
{
    if a.len() > 0 {
        lemma_seq_lt_irreflexive(a.drop_first());
    }
}

pub proof fn lemma_seq_lt_asymmetric(a: Seq<char>, b: Seq<char>)
    ensures
        seq_lt(a, b) ==> !seq_lt(b, a),
    decreases a.len(),
{
    if a.len() > 0 && b.len() > 0 && a[0] == b[0] {
        lemma_seq_lt_asymmetric(a.drop_first(), b.drop_first());
    }
}

pub proof fn lemma_seq_lt_transitive(a: Seq<char>, b: Seq<char>, c: Seq<char>)
    requires
        seq_lt(a, b),
        seq_lt(b, c),
    ensures
        seq_lt(a, c),
    decreases a.len(),
{
    if a.len() > 0 && b.len() > 0 && c.len() > 0 && a[0] == b[0] && b[0] == c[0] {
        lemma_seq_lt_transitive(a.drop_first(), b.drop_first(), c.drop_first());
    }
}

pub proof fn lemma_seq_lt_total(a: Seq<char>, b: Seq<char>)
    ensures
        a != b ==> seq_lt(a, b) || seq_lt(b, a),
    decreases a.len(),
{
    if a.len() > 0 && b.len() > 0 && a[0] == b[0] {
        lemma_seq_lt_total(a.drop_first(), b.drop_first());
        if a.drop_first() == b.drop_first() {
            assert(a.len() == b.drop_first().len() + 1);
            assert forall|i: int| 0 <= i < a.len() implies a[i] == b[i] by {
                if i > 0 {
                    assert(a[i] == a.drop_first()[i - 1]);
                    assert(b[i] == b.drop_first()[i - 1]);
                }
            }
            assert(a =~= b);
        }
    } else if a.len() == 0 && b.len() == 0 {
        assert(a =~= b);
    }
}

/// `a < b` for two string slices, in `String`'s order.
pub fn str_lt(a: &str, b: &str) -> (r: bool)
    ensures
        r == seq_lt(a@, b@),
{
    let va = crate::text::chars_of(a);
    let vb = crate::text::chars_of(b);
    let mut i: usize = 0;
    assert(va@.skip(0) =~= va@);
    assert(vb@.skip(0) =~= vb@);
    while i < va.len() && i < vb.len() && va[i] == vb[i]
        invariant
            i <= va.len(),
            i <= vb.len(),
            va@ == a@,
            vb@ == b@,
            seq_lt(va@.skip(i as int), vb@.skip(i as int)) == seq_lt(a@, b@),
        decreases va.len() - i,
    {
        assert(va@.skip(i as int).drop_first() =~= va@.skip(i + 1));
        assert(vb@.skip(i as int).drop_first() =~= vb@.skip(i + 1));
        i += 1;
    }
    if i == va.len() {
        i < vb.len()
    } else if i == vb.len() {
        false
    } else {
        va[i] < vb[i]
    }
}

/// Keys strictly increasing: sorted and free of duplicates.
pub open spec fn keys_sorted<V>(e: Seq<(Seq<char>, V)>) -> bool {
    forall|i: int, j: int| 0 <= i < j < e.len() ==> seq_lt(#[trigger] e[i].0, #[trigger] e[j].0)
}

/// The entries after writing `(k, v)`: an entry with key `k` is replaced in place;
/// otherwise the pair goes before the first larger key.
pub open spec fn spec_insert<V>(e: Seq<(Seq<char>, V)>, k: Seq<char>, v: V) -> Seq<(Seq<char>, V)>
    decreases e.len(),
{
    if e.len() == 0 {
        seq![(k, v)]
    } else if e[0].0 == k {
        seq![(k, v)] + e.drop_first()
    } else if seq_lt(k, e[0].0) {
        seq![(k, v)] + e
    } else {
        seq![e[0]] + spec_insert(e.drop_first(), k, v)
    }
}

/// The value under the first entry with key `k`.
pub open spec fn spec_get<V>(e: Seq<(Seq<char>, V)>, k: Seq<char>) -> Option<V>
    decreases e.len(),
{
    if e.len() == 0 {
        None
    } else if e[0].0 == k {
        Some(e[0].1)
    } else {
        spec_get(e.drop_first(), k)
    }
}

/// The entries without the first entry with key `k`.
pub open spec fn spec_remove<V>(e: Seq<(Seq<char>, V)>, k: Seq<char>) -> Seq<(Seq<char>, V)>
    decreases e.len(),
{
    if e.len() == 0 {
        e
    } else if e[0].0 == k {
        e.drop_first()
    } else {
        seq![e[0]] + spec_remove(e.drop_first(), k)
    }
}

/// The entries that inserting each pair of `pairs` in turn into an empty map leaves
/// (a later pair with the same key wins), as collecting pairs into a `BTreeMap` does.
pub open spec fn spec_from_pairs<V>(pairs: Seq<(Seq<char>, V)>) -> Seq<(Seq<char>, V)>
    decreases pairs.len(),
{
    if pairs.len() == 0 {
        seq![]
    } else {
        spec_insert(spec_from_pairs(pairs.drop_last()), pairs.last().0, pairs.last().1)
    }
}

pub open spec fn keys_of<V>(e: Seq<(Seq<char>, V)>) -> Seq<Seq<char>> {
    e.map_values(|p: (Seq<char>, V)| p.0)
}

pub proof fn lemma_spec_get_some<V>(e: Seq<(Seq<char>, V)>, k: Seq<char>)
    ensures
        spec_get(e, k) is Some <==> exists|i: int| 0 <= i < e.len() && e[i].0 == k,
    decreases e.len(),
{
    if e.len() > 0 {
        lemma_spec_get_some(e.drop_first(), k);
        if e[0].0 != k {
            if exists|i: int| 0 <= i < e.len() && e[i].0 == k {
                let i = choose|i: int| 0 <= i < e.len() && e[i].0 == k;
                assert(e.drop_first()[i - 1].0 == k);
            }
            if exists|i: int| 0 <= i < e.drop_first().len() && e.drop_first()[i].0 == k {
                let i = choose|i: int| 0 <= i < e.drop_first().len() && e.drop_first()[i].0 == k;
                assert(e[i + 1].0 == k);
            }
        }
    }
}

/// Writing a key and reading it back gives the value written.
pub proof fn lemma_insert_get_same<V>(e: Seq<(Seq<char>, V)>, k: Seq<char>, v: V)
    ensures
        spec_get(spec_insert(e, k, v), k) == Some(v),
    decreases e.len(),
{
    if e.len() > 0 && e[0].0 != k && !seq_lt(k, e[0].0) {
        lemma_insert_get_same(e.drop_first(), k, v);
        let r = seq![e[0]] + spec_insert(e.drop_first(), k, v);
        assert(r.drop_first() =~= spec_insert(e.drop_first(), k, v));
    } else if e.len() > 0 && e[0].0 == k {
    }
}

/// Writing one key leaves every other key's value as it was.
pub proof fn lemma_insert_get_other<V>(e: Seq<(Seq<char>, V)>, k: Seq<char>, v: V, k2: Seq<char>)
    requires
        k2 != k,
    ensures
        spec_get(spec_insert(e, k, v), k2) == spec_get(e, k2),
    decreases e.len(),
{
    if e.len() == 0 {
        let r = seq![(k, v)];
        assert(spec_insert(e, k, v) == r);
        assert(r.drop_first() =~= Seq::<(Seq<char>, V)>::empty());
        assert(spec_get(r, k2) == spec_get(r.drop_first(), k2));
    } else if e[0].0 == k {
        let r = seq![(k, v)] + e.drop_first();
        assert(spec_insert(e, k, v) == r);
        assert(r.drop_first() =~= e.drop_first());
        assert(spec_get(r, k2) == spec_get(r.drop_first(), k2));
    } else if seq_lt(k, e[0].0) {
        let r = seq![(k, v)] + e;
        assert(spec_insert(e, k, v) == r);
        assert(r.drop_first() =~= e);
        assert(spec_get(r, k2) == spec_get(r.drop_first(), k2));
    } else {
        lemma_insert_get_other(e.drop_first(), k, v, k2);
        let r = seq![e[0]] + spec_insert(e.drop_first(), k, v);
        assert(spec_insert(e, k, v) == r);
        assert(r.drop_first() =~= spec_insert(e.drop_first(), k, v));
        assert(r[0] == e[0]);
    }
}

proof fn lemma_insert_keys<V>(e: Seq<(Seq<char>, V)>, k: Seq<char>, v: V)
    ensures
        forall|i: int|
            0 <= i < spec_insert(e, k, v).len() ==> (#[trigger] spec_insert(e, k, v)[i].0 == k
                || exists|j: int| 0 <= j < e.len() && e[j].0 == spec_insert(e, k, v)[i].0),
    decreases e.len(),
{
    if e.len() > 0 && e[0].0 != k && !seq_lt(k, e[0].0) {
        lemma_insert_keys(e.drop_first(), k, v);
        let r = spec_insert(e, k, v);
        let t = spec_insert(e.drop_first(), k, v);
        assert forall|i: int| 0 <= i < r.len() implies (#[trigger] r[i].0 == k || exists|j: int|
            0 <= j < e.len() && e[j].0 == r[i].0) by {
            if i == 0 {
                assert(e[0].0 == r[0].0);
            } else {
                assert(r[i] == t[i - 1]);
                if t[i - 1].0 != k {
                    let j = choose|j: int|
                        0 <= j < e.drop_first().len() && e.drop_first()[j].0 == t[i - 1].0;
                    assert(e[j + 1].0 == r[i].0);
                }
            }
        }
    } else if e.len() > 0 && e[0].0 == k {
        let r = spec_insert(e, k, v);
        assert forall|i: int| 0 <= i < r.len() implies (#[trigger] r[i].0 == k || exists|j: int|
            0 <= j < e.len() && e[j].0 == r[i].0) by {
            if i > 0 {
                assert(e[i].0 == r[i].0);
            }
        }
    } else if e.len() > 0 {
        let r = spec_insert(e, k, v);
        assert forall|i: int| 0 <= i < r.len() implies (#[trigger] r[i].0 == k || exists|j: int|
            0 <= j < e.len() && e[j].0 == r[i].0) by {
            if i > 0 {
                assert(e[i - 1].0 == r[i].0);
            }
        }
    }
}

/// Writing into a map with sorted, distinct keys keeps its keys sorted and distinct.
pub proof fn lemma_insert_sorted<V>(e: Seq<(Seq<char>, V)>, k: Seq<char>, v: V)
    requires
        keys_sorted(e),
    ensures
        keys_sorted(spec_insert(e, k, v)),
    decreases e.len(),
{
    if e.len() == 0 {
    } else if e[0].0 == k {
        let r = spec_insert(e, k, v);
        assert forall|i: int, j: int| 0 <= i < j < r.len() implies seq_lt(
            #[trigger] r[i].0,
            #[trigger] r[j].0,
        ) by {
            assert(r[j] == e[j]);
            if i > 0 {
                assert(r[i] == e[i]);
            }
        }
    } else if seq_lt(k, e[0].0) {
        let r = spec_insert(e, k, v);
        assert forall|i: int, j: int| 0 <= i < j < r.len() implies seq_lt(
            #[trigger] r[i].0,
            #[trigger] r[j].0,
        ) by {
            assert(r[j] == e[j - 1]);
            if i > 0 {
                assert(r[i] == e[i - 1]);
            } else if j - 1 > 0 {
                lemma_seq_lt_transitive(k, e[0].0, e[j - 1].0);
            }
        }
    } else {
        let t = e.drop_first();
        assert(keys_sorted(t)) by {
            assert forall|i: int, j: int| 0 <= i < j < t.len() implies seq_lt(
                #[trigger] t[i].0,
                #[trigger] t[j].0,
            ) by {
                assert(t[i] == e[i + 1]);
                assert(t[j] == e[j + 1]);
            }
        }
        lemma_insert_sorted(t, k, v);
        lemma_insert_keys(t, k, v);
        lemma_seq_lt_total(k, e[0].0);
        let ti = spec_insert(t, k, v);
        let r = spec_insert(e, k, v);
        assert(r == seq![e[0]] + ti);
        assert forall|i: int, j: int| 0 <= i < j < r.len() implies seq_lt(
            #[trigger] r[i].0,
            #[trigger] r[j].0,
        ) by {
            assert(r[j] == ti[j - 1]);
            if i > 0 {
                assert(r[i] == ti[i - 1]);
            } else {
                if ti[j - 1].0 != k {
                    let m = choose|m: int| 0 <= m < t.len() && t[m].0 == ti[j - 1].0;
                    assert(t[m] == e[m + 1]);
                }
            }
        }
    }
}

/// The entries with each value replaced by its view.
pub open spec fn view_entries<V: View>(e: Seq<(Seq<char>, V)>) -> Seq<(Seq<char>, V::V)> {
    e.map_values(|p: (Seq<char>, V)| (p.0, p.1@))
}

pub proof fn lemma_insert_view_entries<V: View>(e: Seq<(Seq<char>, V)>, k: Seq<char>, v: V)
    ensures
        view_entries(spec_insert(e, k, v)) == spec_insert(view_entries(e), k, v@),
    decreases e.len(),
{
    let r = spec_insert(e, k, v);
    let ev = view_entries(e);
    if e.len() == 0 {
        assert(view_entries(r) =~= seq![(k, v@)]);
    } else if e[0].0 == k {
        assert(view_entries(r) =~= seq![(k, v@)] + ev.drop_first());
    } else if seq_lt(k, e[0].0) {
        assert(view_entries(r) =~= seq![(k, v@)] + ev);
    } else {
        lemma_insert_view_entries(e.drop_first(), k, v);
        assert(ev.drop_first() =~= view_entries(e.drop_first()));
        assert(view_entries(r) =~= seq![ev[0]] + spec_insert(ev.drop_first(), k, v@));
    }
}

/// Reading a key of the viewed entries gives the view of what the entries hold there.
pub proof fn lemma_get_view_entries<V: View>(e: Seq<(Seq<char>, V)>, k: Seq<char>)
    ensures
        spec_get(view_entries(e), k) == match spec_get(e, k) {
            Some(v) => Some(v@),
            None => None::<V::V>,
        },
    decreases e.len(),
{
    if e.len() > 0 {
        lemma_get_view_entries(e.drop_first(), k);
        assert(view_entries(e).drop_first() =~= view_entries(e.drop_first()));
    }
}

pub proof fn lemma_from_pairs_view_entries<V: View>(p: Seq<(Seq<char>, V)>)
    ensures
        view_entries(spec_from_pairs(p)) == spec_from_pairs(view_entries(p)),
    decreases p.len(),
{
    if p.len() > 0 {
        lemma_from_pairs_view_entries(p.drop_last());
        assert(view_entries(p).drop_last() =~= view_entries(p.drop_last()));
        lemma_insert_view_entries(spec_from_pairs(p.drop_last()), p.last().0, p.last().1);
    } else {
        assert(view_entries(spec_from_pairs(p)) =~= Seq::<(Seq<char>, V::V)>::empty());
    }
}

/// A map from strings to values, its entries kept in increasing key order
/// with each key once, as a `BTreeMap<String, V>` iterates.
#[derive(Debug)]
pub struct StrMap<V> {
    entries: Vec<(String, V)>,
}

impl<V> StrMap<V> {
    /// The entries, keys as character sequences, in key order.
    pub closed spec fn view(&self) -> Seq<(Seq<char>, V)> {
        self.entries@.map_values(|p: (String, V)| (p.0@, p.1))
    }

    pub closed spec fn wf(&self) -> bool {
        keys_sorted(self@)
    }

    pub open spec fn contains(&self, k: Seq<char>) -> bool {
        spec_get(self@, k) is Some
    }

    pub fn new() -> (m: Self)
        ensures
            m@ == Seq::<(Seq<char>, V)>::empty(),
            m.wf(),
    {
        let m = StrMap { entries: Vec::new() };
        assert(m@ =~= Seq::<(Seq<char>, V)>::empty());
        m
    }

    pub fn len(&self) -> (n: usize)
        ensures
            n == self@.len(),
    {
        self.entries.len()
    }

    pub fn is_empty(&self) -> (b: bool)
        ensures
            b == (self@.len() == 0),
    {
        self.entries.len() == 0
    }

    /// The key of the `i`-th entry in key order.
    pub fn key_at(&self, i: usize) -> (k: &String)
        requires
            i < self@.len(),
        ensures
            k@ == self@[i as int].0,
    {
        &self.entries[i].0
    }

    /// The value of the `i`-th entry in key order.
    pub fn value_at(&self, i: usize) -> (v: &V)
        requires
            i < self@.len(),
        ensures
            *v == self@[i as int].1,
    {
        &self.entries[i].1
    }

    /// Writes `v` under `k`, replacing an earlier value.
    pub fn insert(&mut self, k: String, v: V)
        ensures
            final(self)@ == spec_insert(old(self)@, k@, v),
            old(self).wf() ==> final(self).wf(),
    {
        proof {
            if old(self).wf() {
                lemma_insert_sorted(old(self)@, k@, v);
            }
        }
        let ghost e0 = self@;
        let ghost kv = k@;
        let mut i: usize = 0;
        // 0: not found, insert at the end; 1: replace at i; 2: insert before i
        let mut how: u8 = 0;
        assert(e0.skip(0) =~= e0);
        assert(e0.take(0) + spec_insert(e0.skip(0), kv, v) =~= spec_insert(e0, kv, v));
        while i < self.entries.len()
            invariant_except_break
                how == 0,
            invariant
                i <= self.entries.len(),
                self@ == e0,
                kv == k@,
                e0.take(i as int) + spec_insert(e0.skip(i as int), kv, v) == spec_insert(e0, kv, v),
            ensures
                i <= self.entries.len(),
                self@ == e0,
                e0.take(i as int) + spec_insert(e0.skip(i as int), kv, v) == spec_insert(e0, kv, v),
                how <= 2,
                how == 0 ==> i == self.entries.len(),
                how == 1 ==> i < self.entries.len() && spec_insert(e0.skip(i as int), kv, v)
                    == seq![(kv, v)] + e0.skip(i as int).drop_first(),
                how == 2 ==> i < self.entries.len() && spec_insert(e0.skip(i as int), kv, v)
                    == seq![(kv, v)] + e0.skip(i as int),
            decreases self.entries.len() - i,
        {
            let ghost rest = e0.skip(i as int);
            assert(rest[0] == e0[i as int]);
            assert(e0[i as int].0 == self.entries@[i as int].0@);
            if crate::text::str_eq(self.entries[i].0.as_str(), k.as_str()) {
                assert(spec_insert(rest, kv, v) == seq![(kv, v)] + rest.drop_first());
                how = 1;
                break;
            }
            if str_lt(k.as_str(), self.entries[i].0.as_str()) {
                assert(spec_insert(rest, kv, v) == seq![(kv, v)] + rest);
                how = 2;
                break;
            }
            assert(spec_insert(rest, kv, v) == seq![rest[0]] + spec_insert(rest.drop_first(), kv, v));
            assert(e0.take(i as int) + seq![rest[0]] =~= e0.take(i + 1));
            assert(rest.drop_first() =~= e0.skip(i + 1));
            assert(e0.take(i + 1) + spec_insert(e0.skip(i + 1), kv, v) =~= e0.take(i as int) + (
            seq![rest[0]] + spec_insert(rest.drop_first(), kv, v)));
            i += 1;
        }
        let ghost rest = e0.skip(i as int);
        if how == 1 {
            self.entries.remove(i);
            self.entries.insert(i, (k, v));
            assert(self@ =~= e0.take(i as int) + (seq![(kv, v)] + rest.drop_first()));
        } else if how == 2 {
            self.entries.insert(i, (k, v));
            assert(self@ =~= e0.take(i as int) + (seq![(kv, v)] + rest));
        } else {
            assert(e0.len() == self.entries@.len());
            assert(e0.skip(i as int) =~= Seq::<(Seq<char>, V)>::empty());
            assert(e0.take(i as int) =~= e0);
            self.entries.push((k, v));
            assert(self@ =~= e0 + seq![(kv, v)]);
        }
    }

    fn find(&self, k: &str) -> (r: Option<usize>)
        ensures
            r matches Some(i) ==> i < self@.len() && self@[i as int].0 == k@ && forall|j: int|
                0 <= j < i ==> self@[j].0 != k@,
            r is None ==> forall|j: int| 0 <= j < self@.len() ==> self@[j].0 != k@,
    {
        let mut i: usize = 0;
        while i < self.entries.len()
            invariant
                i <= self.entries.len(),
                forall|j: int| 0 <= j < i ==> self@[j].0 != k@,
            decreases self.entries.len() - i,
        {
            if crate::text::str_eq(self.entries[i].0.as_str(), k) {
                return Some(i);
            }
            i += 1;
        }
        None
    }

    proof fn lemma_get_at(e: Seq<(Seq<char>, V)>, k: Seq<char>, i: int)
        requires
            0 <= i < e.len(),
            e[i].0 == k,
            forall|j: int| 0 <= j < i ==> e[j].0 != k,
        ensures
            spec_get(e, k) == Some(e[i].1),
            spec_remove(e, k) == e.take(i) + e.skip(i + 1),
        decreases i,
    {
        if i > 0 {
            Self::lemma_get_at(e.drop_first(), k, i - 1);
            assert(e.take(i) + e.skip(i + 1) =~= seq![e[0]] + (e.drop_first().take(i - 1)
                + e.drop_first().skip(i)));
        } else {
            assert(e.take(0) + e.skip(1) =~= e.drop_first());
        }
    }

    proof fn lemma_get_none(e: Seq<(Seq<char>, V)>, k: Seq<char>)
        requires
            forall|j: int| 0 <= j < e.len() ==> e[j].0 != k,
        ensures
            spec_get(e, k) is None,
            spec_remove(e, k) == e,
        decreases e.len(),
    {
        if e.len() > 0 {
            Self::lemma_get_none(e.drop_first(), k);
            assert(seq![e[0]] + e.drop_first() =~= e);
        }
    }

    /// The value under `k`, if any.
    pub fn get(&self, k: &str) -> (r: Option<&V>)
        ensures
            r matches Some(v) ==> spec_get(self@, k@) == Some(*v),
            r is None ==> spec_get(self@, k@) is None,
    {
        match self.find(k) {
            Some(i) => {
                proof {
                    Self::lemma_get_at(self@, k@, i as int);
                }
                Some(&self.entries[i].1)
            },
            None => {
                proof {
                    Self::lemma_get_none(self@, k@);
                }
                None
            },
        }
    }

    pub fn contains_key(&self, k: &str) -> (b: bool)
        ensures
            b == self.contains(k@),
    {
        self.get(k).is_some()
    }

    /// Takes the entry under `k` out of the map.
    pub fn remove(&mut self, k: &str) -> (r: Option<V>)
        ensures
            r == spec_get(old(self)@, k@),
            final(self)@ == spec_remove(old(self)@, k@),
            old(self).wf() ==> final(self).wf(),
    {
        match self.find(k) {
            Some(i) => {
                proof {
                    Self::lemma_get_at(self@, k@, i as int);
                }
                let ghost e0 = self@;
                let (_, v) = self.entries.remove(i);
                assert(self@ =~= e0.take(i as int) + e0.skip(i + 1));
                proof {
                    if old(self).wf() {
                        assert forall|a: int, b: int| 0 <= a < b < self@.len() implies seq_lt(
                            #[trigger] self@[a].0,
                            #[trigger] self@[b].0,
                        ) by {
                            let a0 = if a < i { a } else { a + 1 };
                            let b0 = if b < i { b } else { b + 1 };
                            assert(self@[a] == e0[a0]);
                            assert(self@[b] == e0[b0]);
                        }
                    }
                }
                Some(v)
            },
            None => {
                proof {
                    Self::lemma_get_none(self@, k@);
                }
                None
            },
        }
    }

    /// The entries, in key order.
    pub fn into_entries(self) -> (v: Vec<(String, V)>)
        ensures
            v@.map_values(|p: (String, V)| (p.0@, p.1)) == self@,
    {
        self.entries
    }

    /// Collects pairs, a later pair with an equal key replacing the earlier one.
    pub fn from_pairs(pairs: Vec<(String, V)>) -> (m: Self)
        ensures
            m@ == spec_from_pairs(pairs@.map_values(|p: (String, V)| (p.0@, p.1))),
            m.wf(),
    {
        let ghost pv = pairs@.map_values(|p: (String, V)| (p.0@, p.1));
        let mut m = StrMap::new();
        let mut rest = pairs;
        let mut out: Vec<(String, V)> = Vec::new();
        // Reverse so that popping yields the pairs in their original order.
        while rest.len() > 0
            invariant
                out@.map_values(|p: (String, V)| (p.0@, p.1)) + rest@.reverse().map_values(
                    |p: (String, V)| (p.0@, p.1),
                ) == pv.reverse(),
            decreases rest.len(),
        {
            let ghost r0 = rest@;
            let p = rest.pop().unwrap();
            assert(r0.reverse() =~= seq![r0.last()] + rest@.reverse());
            out.push(p);
            assert(out@.map_values(|p: (String, V)| (p.0@, p.1)) + rest@.reverse().map_values(
                |p: (String, V)| (p.0@, p.1),
            ) =~= pv.reverse());
        }
        assert(out@.map_values(|p: (String, V)| (p.0@, p.1)) =~= pv.reverse());
        let ghost outv = out@.map_values(|p: (String, V)| (p.0@, p.1));
        assert(pv.take(0) =~= Seq::<(Seq<char>, V)>::empty());
        while out.len() > 0
            invariant
                m.wf(),
                out@.len() <= pv.len(),
                out@.map_values(|p: (String, V)| (p.0@, p.1)) == pv.reverse().take(
                    out@.len() as int,
                ),
                m@ == spec_from_pairs(pv.take(pv.len() - out@.len())),
                outv == pv.reverse(),
            decreases out.len(),
        {
            let ghost o0 = out@;
            let (k, v) = out.pop().unwrap();
            let ghost n = pv.len() - o0.len();
            assert(pv.reverse()[o0.len() - 1] == pv[n]);
            assert(o0.map_values(|p: (String, V)| (p.0@, p.1))[o0.len() - 1] == pv.reverse()[o0.len()
                - 1]);
            assert(pv.take(n + 1).drop_last() =~= pv.take(n));
            m.insert(k, v);
            assert(out@.map_values(|p: (String, V)| (p.0@, p.1)) =~= pv.reverse().take(
                out@.len() as int,
            ));
        }
        assert(pv.take(pv.len() as int) =~= pv);
        m
    }
}

impl<V: Clone> StrMap<V> {
    /// A copy of the map, each value cloned.
    pub fn clone_map(&self) -> (m: Self)
        ensures
            m@.len() == self@.len(),
            forall|i: int|
                0 <= i < self@.len() ==> #[trigger] m@[i].0 == self@[i].0 && cloned::<V>(
                    self@[i].1,
                    m@[i].1,
                ),
            self.wf() ==> m.wf(),
    {
        let mut out: Vec<(String, V)> = Vec::new();
        let mut i: usize = 0;
        while i < self.entries.len()
            invariant
                i <= self.entries.len(),
                out@.len() == i,
                forall|j: int|
                    0 <= j < i ==> #[trigger] out@[j].0@ == self@[j].0 && cloned::<V>(
                        self@[j].1,
                        out@[j].1,
                    ),
            decreases self.entries.len() - i,
        {
            let k = self.entries[i].0.clone();
            let v = self.entries[i].1.clone();
            out.push((k, v));
            i += 1;
        }
        let m = StrMap { entries: out };
        assert forall|i: int| 0 <= i < self@.len() implies #[trigger] m@[i].0 == self@[i].0 && cloned::<V>(
            self@[i].1,
            m@[i].1,
        ) by {
            assert(m@[i] == (out@[i].0@, out@[i].1));
        }
        m
    }
}

impl<V: Copy> StrMap<V> {
    /// A copy of the map.
    pub fn copy_map(&self) -> (m: Self)
        ensures
            m@ == self@,
            self.wf() ==> m.wf(),
    {
        let mut out: Vec<(String, V)> = Vec::new();
        let mut i: usize = 0;
        while i < self.entries.len()
            invariant
                i <= self.entries.len(),
                out@.map_values(|p: (String, V)| (p.0@, p.1)) == self@.take(i as int),
            decreases self.entries.len() - i,
        {
            let k = self.entries[i].0.clone();
            let v = self.entries[i].1;
            let ghost o0 = out@;
            let ghost kv = k@;
            assert(self@[i as int] == (kv, v));
            out.push((k, v));
            assert(out@.map_values(|p: (String, V)| (p.0@, p.1)) =~= o0.map_values(
                |p: (String, V)| (p.0@, p.1),
            ).push((kv, v)));
            assert(self@.take(i + 1) =~= self@.take(i as int).push(self@[i as int]));
            i += 1;
        }
        assert(self@.take(self@.len() as int) =~= self@);
        StrMap { entries: out }
    }
}

/// A set of strings, iterated in increasing order, as a `BTreeSet<String>`.
#[derive(Debug)]
pub struct StrSet {
    inner: StrMap<()>,
}

/// The members, in order, of the set that inserting `items` in turn leaves.
pub open spec fn spec_set_from(items: Seq<Seq<char>>) -> Seq<(Seq<char>, ())> {
    spec_from_pairs(items.map_values(|s: Seq<char>| (s, ())))
}

impl StrSet {
    /// The members in increasing order.
    pub closed spec fn view(&self) -> Seq<Seq<char>> {
        keys_of(self.inner@)
    }

    pub closed spec fn entries(&self) -> Seq<(Seq<char>, ())> {
        self.inner@
    }

    pub closed spec fn wf(&self) -> bool {
        self.inner.wf()
    }

    pub open spec fn has(&self, s: Seq<char>) -> bool {
        self@.contains(s)
    }

    proof fn lemma_view_contains(&self, s: Seq<char>)
        ensures
            self@.contains(s) <==> spec_get(self.inner@, s) is Some,
    {
        lemma_spec_get_some(self.inner@, s);
        if self@.contains(s) {
            let i = choose|i: int| 0 <= i < self@.len() && self@[i] == s;
            assert(self.inner@[i].0 == s);
        }
        if spec_get(self.inner@, s) is Some {
            let i = choose|i: int| 0 <= i < self.inner@.len() && self.inner@[i].0 == s;
            assert(self@[i] == s);
        }
    }

    /// A well-formed set's members are in strictly increasing order.
    pub proof fn lemma_sorted(&self)
        requires
            self.wf(),
        ensures
            forall|i: int, j: int| 0 <= i < j < self@.len() ==> seq_lt(#[trigger] self@[i], #[trigger] self@[j]),
    {
        assert forall|i: int, j: int| 0 <= i < j < self@.len() implies seq_lt(#[trigger] self@[i], #[trigger] self@[j]) by {
            assert(self@[i] == self.inner@[i].0);
            assert(self@[j] == self.inner@[j].0);
        }
    }

    pub fn new() -> (s: Self)
        ensures
            s@ == Seq::<Seq<char>>::empty(),
            s.wf(),
    {
        let s = StrSet { inner: StrMap::new() };
        assert(s@ =~= Seq::<Seq<char>>::empty());
        s
    }

    pub fn len(&self) -> (n: usize)
        ensures
            n == self@.len(),
    {
        self.inner.len()
    }

    pub fn is_empty(&self) -> (b: bool)
        ensures
            b == (self@.len() == 0),
    {
        self.inner.len() == 0
    }

    pub fn contains(&self, s: &str) -> (b: bool)
        ensures
            b == self.has(s@),
    {
        proof {
            self.lemma_view_contains(s@);
        }
        self.inner.contains_key(s)
    }

    /// The `i`-th member in increasing order.
    pub fn at(&self, i: usize) -> (s: &String)
        requires
            i < self@.len(),
        ensures
            s@ == self@[i as int],
    {
        self.inner.key_at(i)
    }

    /// Adds `s`; true when it was not a member before.
    pub fn insert(&mut self, s: String) -> (added: bool)
        ensures
            added == !old(self).has(s@),
            final(self).entries() == spec_insert(old(self).entries(), s@, ()),
            forall|t: Seq<char>| final(self).has(t) <==> (old(self).has(t) || t == s@),
            old(self).wf() ==> final(self).wf(),
    {
        proof {
            self.lemma_view_contains(s@);
        }
        let present = self.inner.contains_key(s.as_str());
        let ghost sv = s@;
        let ghost old_inner = self.inner@;
        self.inner.insert(s, ());
        proof {
            assert forall|t: Seq<char>| self.has(t) <==> (old(self).has(t) || t == sv) by {
                self.lemma_view_contains(t);
                old(self).lemma_view_contains(t);
                if t == sv {
                    lemma_insert_get_same(old_inner, sv, ());
                } else {
                    lemma_insert_get_other(old_inner, sv, (), t);
                }
            }
        }
        !present
    }

    /// A copy of the set.
    pub fn clone_set(&self) -> (s: Self)
        ensures
            s@ == self@,
            s.entries() == self.entries(),
            self.wf() ==> s.wf(),
    {
        let inner = self.inner.copy_map();
        StrSet { inner }
    }

    /// Collects strings into a set.
    pub fn from_vec(items: Vec<String>) -> (s: Self)
        ensures
            s.entries() == spec_set_from(items@.map_values(|x: String| x@)),
            s.wf(),
    {
        let mut pairs: Vec<(String, ())> = Vec::new();
        let mut rest = items;
        let ghost iv = rest@.map_values(|x: String| x@);
        let mut i: usize = 0;
        let n = rest.len();
        while i < n
            invariant
                i <= n == rest@.len(),
                pairs@.len() == i,
                iv == rest@.map_values(|x: String| x@),
                forall|j: int| 0 <= j < i ==> #[trigger] pairs@[j].0@ == rest@[j]@,
            decreases n - i,
        {
            let x = rest[i].clone();
            pairs.push((x, ()));
            i += 1;
        }
        let ghost pv = pairs@.map_values(|p: (String, ())| (p.0@, p.1));
        assert(pv =~= iv.map_values(|s: Seq<char>| (s, ())));
        let inner = StrMap::from_pairs(pairs);
        StrSet { inner }
    }
}

/// The members of `a`, in order, that `b` lacks.
pub open spec fn seq_minus(a: Seq<Seq<char>>, b: Seq<Seq<char>>) -> Seq<Seq<char>>
    decreases a.len(),
{
    if a.len() == 0 {
        Seq::<Seq<char>>::empty()
    } else {
        seq_minus(a.drop_last(), b) + if b.contains(a.last()) {
            Seq::<Seq<char>>::empty()
        } else {
            seq![a.last()]
        }
    }
}

/// The members of `a` that `b` lacks, in increasing order, as `BTreeSet::difference` yields them.
pub fn set_difference(a: &StrSet, b: &StrSet) -> (d: Vec<String>)
    ensures
        d@.map_values(|x: String| x@) == seq_minus(a@, b@),
{
    let ghost av = a@;
    let mut d: Vec<String> = Vec::new();
    let mut i: usize = 0;
    assert(av.take(0) =~= Seq::<Seq<char>>::empty());
    assert(d@.map_values(|x: String| x@) =~= Seq::<Seq<char>>::empty());
    while i < a.len()
        invariant
            i <= a@.len(),
            av == a@,
            d@.map_values(|x: String| x@) == seq_minus(av.take(i as int), b@),
        decreases a@.len() - i,
    {
        assert(av.take(i + 1).drop_last() =~= av.take(i as int));
        assert(av.take(i + 1).last() == av[i as int]);
        let x = a.at(i);
        let ghost d0 = d@.map_values(|x: String| x@);
        if !b.contains(x.as_str()) {
            let c = x.clone();
            d.push(c);
            assert(d@.map_values(|x: String| x@) =~= d0.push(av[i as int]));
        }
        assert(d@.map_values(|x: String| x@) =~= seq_minus(av.take(i + 1), b@));
        i += 1;
    }
    assert(av.take(a@.len() as int) =~= av);
    d
}

} // verus!
